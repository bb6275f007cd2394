//! The hash index that keys per-type storage by runtime type tag.  The
//! table itself comes from the `hashbrown` crate; this module holds the
//! trusted boundary around it.
use vstd::prelude::*;

verus! {

/// A hash table from runtime type tags to slot positions, backed by
/// `hashbrown::HashMap`.  The map is opaque to the verifier; everything
/// stated about it goes through its contents view.
#[verifier::external_body]
pub struct TagIndex {
    map: hashbrown::HashMap<u64, usize>,
}

/// What the index holds: the slot each registered tag is bound to.
pub uninterp spec fn tag_index_contents(t: TagIndex) -> Map<u64, usize>;

impl View for TagIndex {
    type V = Map<u64, usize>;

    open spec fn view(&self) -> Map<u64, usize> {
        tag_index_contents(*self)
    }
}

impl TagIndex {
    /// Relies on hashbrown::HashMap::new: a newly created map holds no
    /// bindings.
    #[verifier::external_body]
    pub fn new() -> (r: TagIndex)
        ensures
            forall|t: u64| !r@.dom().contains(t),
    {
        TagIndex { map: hashbrown::HashMap::new() }
    }

    /// Relies on hashbrown::HashMap::get: the value bound to the key, if
    /// the key is present.
    #[verifier::external_body]
    pub fn get(&self, tag: u64) -> (r: Option<usize>)
        ensures
            r == if tag_index_contents(*self).dom().contains(tag) {
                Some(tag_index_contents(*self)[tag])
            } else {
                None::<usize>
            },
    {
        self.map.get(&tag).copied()
    }

    /// Relies on hashbrown::HashMap::insert: binds the key to the value,
    /// returning the value it replaced if the key was already bound.
    #[verifier::external_body]
    pub fn insert(&mut self, tag: u64, slot: usize) -> (r: Option<usize>)
        ensures
            final(self)@ == tag_index_contents(*old(self)).insert(tag, slot),
            r == if tag_index_contents(*old(self)).dom().contains(tag) {
                Some(tag_index_contents(*old(self))[tag])
            } else {
                None::<usize>
            },
    {
        self.map.insert(tag, slot)
    }
}

} // verus!
