//! A single type-erased value: a byte payload paired with the runtime tag
//! of the type it holds.
use vstd::prelude::*;

verus! {

/// One value of an arbitrary type, held as bytes under its type tag.
pub struct AnyStorage {
    type_tag: u64,
    data: Vec<u8>,
}

impl AnyStorage {
    /// The tag of the stored type.
    pub closed spec fn spec_tag(&self) -> u64 {
        self.type_tag
    }

    /// The stored payload bytes.
    pub closed spec fn spec_data(&self) -> Seq<u8> {
        self.data@
    }

    /// Wraps `value` under `type_tag`.
    pub fn new(type_tag: u64, value: Vec<u8>) -> (r: AnyStorage)
        ensures
            r.spec_tag() == type_tag,
            r.spec_data() == value@,
    {
        AnyStorage { type_tag, data: value }
    }

    /// A borrow of the payload.  Requesting it under the wrong tag is a
    /// programming error and is ruled out by contract.
    pub fn get(&self, type_tag: u64) -> (r: &Vec<u8>)
        requires
            self.spec_tag() == type_tag,
        ensures
            r@ == self.spec_data(),
    {
        &self.data
    }

    /// A mutable borrow of the payload, under the same tag rule.
    pub fn get_mut(&mut self, type_tag: u64) -> (r: &mut Vec<u8>)
        requires
            old(self).spec_tag() == type_tag,
        ensures
            r@ == old(self).spec_data(),
            final(self).spec_data() == final(r)@,
            final(self).spec_tag() == old(self).spec_tag(),
    {
        &mut self.data
    }

    /// Unwraps the payload, consuming the storage, under the same tag rule.
    pub fn into_inner(self, type_tag: u64) -> (r: Vec<u8>)
        requires
            self.spec_tag() == type_tag,
        ensures
            r@ == self.spec_data(),
    {
        self.data
    }
}

} // verus!
