//! A type-erased homogeneous store: one component type's instances held
//! back to back in a contiguous byte buffer, addressed purely by byte
//! offsets derived from the type descriptor.
use vstd::prelude::*;

use vstd::arithmetic::div_mod::{
    lemma_mod_add_multiples_vanish, lemma_mod_multiples_basic, lemma_small_mod,
};
use vstd::arithmetic::mul::{lemma_mul_equality_converse, lemma_mul_inequality};

use super::type_descriptor::TypeDescriptor;

verus! {

/// The bytes `s` cut into items of `unit` bytes each, of which the first
/// `size` are one instance's payload.  A trailing fragment shorter than
/// `unit` is not an item.
pub open spec fn chunks(s: Seq<u8>, unit: nat, size: nat) -> Seq<Seq<u8>>
    decreases s.len(),
{
    if unit == 0 || s.len() < unit {
        Seq::empty()
    } else {
        seq![s.subrange(0, size as int)] + chunks(s.skip(unit as int), unit, size)
    }
}

/// When the buffer length is a whole number of items, the cut is exact.
pub proof fn lemma_chunks_len(s: Seq<u8>, unit: nat, size: nat)
    requires
        unit > 0,
        s.len() as int % (unit as int) == 0,
    ensures
        chunks(s, unit, size).len() * unit == s.len(),
    decreases s.len(),
{
    if s.len() < unit {
        lemma_small_mod(s.len(), unit);
        assert(s.len() == 0);
    } else {
        let t = s.skip(unit as int);
        assert(t.len() == s.len() - unit);
        lemma_mod_add_multiples_vanish(t.len() as int, unit as int);
        lemma_chunks_len(t, unit, size);
        assert(chunks(s, unit, size).len() == 1 + chunks(t, unit, size).len());
        assert((1 + chunks(t, unit, size).len()) * unit == unit + chunks(t, unit, size).len()
            * unit) by (nonlinear_arith);
    }
}

/// Cutting a concatenation whose first part is a whole number of items cuts
/// each part separately.
pub proof fn lemma_chunks_concat(a: Seq<u8>, b: Seq<u8>, unit: nat, size: nat)
    requires
        unit > 0,
        size <= unit,
        a.len() as int % (unit as int) == 0,
    ensures
        chunks(a + b, unit, size) == chunks(a, unit, size) + chunks(b, unit, size),
    decreases a.len(),
{
    if a.len() == 0 {
        assert(a + b =~= b);
        assert(chunks(a, unit, size) + chunks(b, unit, size) =~= chunks(b, unit, size));
    } else if a.len() < unit {
        lemma_small_mod(a.len(), unit);
    } else {
        let s = a + b;
        assert(s.len() >= unit);
        assert(s.subrange(0, size as int) =~= a.subrange(0, size as int)) by {
            assert forall|j: int| 0 <= j < size implies s.subrange(0, size as int)[j]
                == a.subrange(0, size as int)[j] by {
                assert(s[j] == a[j]);
            }
        }
        assert(s.skip(unit as int) =~= a.skip(unit as int) + b);
        lemma_mod_add_multiples_vanish((a.len() - unit) as int, unit as int);
        lemma_chunks_concat(a.skip(unit as int), b, unit, size);
        assert(chunks(s, unit, size) =~= chunks(a, unit, size) + chunks(b, unit, size));
    }
}

/// A buffer of exactly one item cuts to that item's payload.
pub proof fn lemma_chunks_single(v: Seq<u8>, unit: nat, size: nat)
    requires
        unit > 0,
        size <= unit,
        v.len() == unit,
    ensures
        chunks(v, unit, size) =~= seq![v.subrange(0, size as int)],
{
    assert(v.skip(unit as int).len() == 0);
    assert(chunks(v.skip(unit as int), unit, size) =~= Seq::<Seq<u8>>::empty());
    assert(seq![v.subrange(0, size as int)] + Seq::<Seq<u8>>::empty() =~= seq![
        v.subrange(0, size as int),
    ]);
}

/// Splits the cut of `s` around item `i`: the items before it, its payload,
/// and the items after it.
pub proof fn lemma_chunks_split(s: Seq<u8>, unit: nat, size: nat, i: int)
    requires
        unit > 0,
        size <= unit,
        s.len() as int % (unit as int) == 0,
        0 <= i,
        i * unit + unit <= s.len(),
    ensures
        chunks(s, unit, size) == chunks(s.subrange(0, i * unit), unit, size) + seq![
            s.subrange(i * unit, i * unit + size),
        ] + chunks(s.subrange(i * unit + unit, s.len() as int), unit, size),
        chunks(s.subrange(0, i * unit), unit, size).len() == i,
{
    let x = s.subrange(0, i * unit);
    let m = s.subrange(i * unit, i * unit + unit);
    let z = s.subrange(i * unit + unit, s.len() as int);
    lemma_mod_multiples_basic(i, unit as int);
    assert(x.len() as int % (unit as int) == 0);
    lemma_mod_multiples_basic(1, unit as int);
    assert(m.len() as int % (unit as int) == 0);
    assert(s =~= x + (m + z));
    lemma_chunks_concat(x, m + z, unit, size);
    lemma_chunks_concat(m, z, unit, size);
    lemma_chunks_single(m, unit, size);
    assert(m.subrange(0, size as int) =~= s.subrange(i * unit, i * unit + size));
    assert(chunks(s, unit, size) =~= chunks(x, unit, size) + seq![
        s.subrange(i * unit, i * unit + size),
    ] + chunks(z, unit, size));
    lemma_chunks_len(x, unit, size);
    let k = chunks(x, unit, size).len() as int;
    assert(k * unit == i * unit);
    assert(unit * k == k * unit && unit * i == i * unit) by (nonlinear_arith);
    lemma_mul_equality_converse(unit as int, k, i);
}

/// A contiguous byte buffer holding one component type's instances back to
/// back.  Instances are addressed by multiplying the slot index by the
/// descriptor's item size; a zero-sized type is stored as one placeholder
/// byte per instance so the instance count stays observable.
pub struct RawVec {
    storage: Vec<u8>,
    type_descriptor: TypeDescriptor,
}

impl View for RawVec {
    type V = Seq<Seq<u8>>;

    closed spec fn view(&self) -> Seq<Seq<u8>> {
        chunks(self.storage@, self.spec_unit(), self.type_descriptor.item_size as nat)
    }
}

impl RawVec {
    /// The payload size of one stored instance.
    pub closed spec fn spec_item_size(&self) -> nat {
        self.type_descriptor.item_size as nat
    }

    /// The bytes one instance occupies in the buffer: its payload size, or
    /// one placeholder byte for a zero-sized type.
    pub closed spec fn spec_unit(&self) -> nat {
        if self.type_descriptor.item_size == 0 {
            1
        } else {
            self.type_descriptor.item_size as nat
        }
    }

    /// The buffer holds a whole number of instances.
    pub closed spec fn wf(&self) -> bool {
        self.storage@.len() as int % (self.spec_unit() as int) == 0
    }

    /// An empty store for the described type.
    pub fn new(type_descriptor: TypeDescriptor) -> (r: RawVec)
        ensures
            r@ =~= Seq::<Seq<u8>>::empty(),
            r.wf(),
            r.spec_item_size() == type_descriptor.item_size,
    {
        let r = RawVec { storage: Vec::new(), type_descriptor };
        proof {
            lemma_small_mod(0, r.spec_unit());
        }
        r
    }

    /// The payload size of one stored instance.
    pub fn item_size(&self) -> (r: usize)
        ensures
            r == self.spec_item_size(),
    {
        self.type_descriptor.item_size
    }

    /// How many instances the store holds.
    pub fn len(&self) -> (r: usize)
        requires
            self.wf(),
        ensures
            r == self@.len(),
    {
        let size = self.type_descriptor.item_size;
        let unit = if size == 0 { 1 } else { size };
        proof {
            lemma_chunks_len(self.storage@, unit as nat, size as nat);
            assert(self@.len() * unit / (unit as int) == self@.len()) by (nonlinear_arith)
                requires unit > 0;
        }
        self.storage.len() / unit
    }

    /// Splices one instance's bytes in front of slot `index`, shifting the
    /// instances behind it.
    pub fn insert_raw(&mut self, index: usize, value: &Vec<u8>)
        requires
            old(self).wf(),
            value@.len() == old(self).spec_item_size(),
            index <= old(self)@.len(),
            (old(self)@.len() + 1) * (if old(self).spec_item_size() == 0 {
                1nat
            } else {
                old(self).spec_item_size()
            }) <= usize::MAX,
        ensures
            final(self).wf(),
            final(self)@ == old(self)@.insert(index as int, value@),
            final(self).spec_item_size() == old(self).spec_item_size(),
    {
        let ghost old_s = self.storage@;
        let size = self.type_descriptor.item_size;
        let unit = if size == 0 { 1usize } else { size };
        proof {
            lemma_chunks_len(old_s, unit as nat, size as nat);
            lemma_mul_inequality(index as int, old(self)@.len() as int, unit as int);
            let ghost n = old(self)@.len();
            assert((n + 1) * unit == n * unit + unit) by (nonlinear_arith);
        }
        let offset = index * unit;
        let ghost x = old_s.subrange(0, offset as int);
        let ghost z = old_s.subrange(offset as int, old_s.len() as int);
        let ghost b: Seq<u8> = if size == 0 { seq![0u8] } else { value@ };

        let mut k: usize = 0;
        while k < unit
            invariant
                k <= unit,
                unit == old(self).spec_unit(),
                size == old(self).spec_item_size(),
                size == 0 ==> unit == 1 && b =~= seq![0u8],
                size > 0 ==> unit == size && b == value@,
                value@.len() == size,
                offset == index * unit,
                offset <= old_s.len(),
                x == old_s.subrange(0, offset as int),
                z == old_s.subrange(offset as int, old_s.len() as int),
                old_s.len() + unit <= usize::MAX,
                self.type_descriptor == old(self).type_descriptor,
                self.storage@ =~= x + b.subrange(0, k as int) + z,
            decreases unit - k,
        {
            let byte = if size == 0 { 0u8 } else { value[k] };
            self.storage.insert(offset + k, byte);
            proof {
                let prev = x + b.subrange(0, k as int) + z;
                assert(self.storage@ =~= x + b.subrange(0, k + 1) + z) by {
                    assert(self.storage@ == prev.insert(offset + k, byte));
                    assert forall|m: int| 0 <= m < self.storage@.len() implies self.storage@[m]
                        == (x + b.subrange(0, k + 1) + z)[m] by {
                        assert(prev.insert(offset + k, byte)[m] == if m < offset + k {
                            prev[m]
                        } else if m == offset + k {
                            byte
                        } else {
                            prev[m - 1]
                        });
                    }
                }
            }
            k += 1;
        }
        proof {
            assert(b.subrange(0, unit as int) =~= b);
            assert(self.storage@ =~= x + b + z);
            lemma_mod_multiples_basic(index as int, unit as int);
            assert(x.len() as int % (unit as int) == 0);
            lemma_mod_multiples_basic(1, unit as int);
            // the new buffer cuts into: items of x, the new payload, items of z
            assert(self.storage@ =~= x + (b + z));
            lemma_chunks_concat(x, b + z, unit as nat, size as nat);
            lemma_chunks_concat(b, z, unit as nat, size as nat);
            lemma_chunks_single(b, unit as nat, size as nat);
            assert(b.subrange(0, size as int) =~= value@);
            assert(self@ =~= chunks(x, unit as nat, size as nat) + seq![value@] + chunks(
                z,
                unit as nat,
                size as nat,
            ));
            // the old buffer cuts into: items of x, items of z
            assert(old_s =~= x + z);
            lemma_chunks_concat(x, z, unit as nat, size as nat);
            assert(old(self)@ =~= chunks(x, unit as nat, size as nat) + chunks(
                z,
                unit as nat,
                size as nat,
            ));
            lemma_chunks_len(x, unit as nat, size as nat);
            lemma_mul_equality_converse(
                unit as int,
                chunks(x, unit as nat, size as nat).len() as int,
                index as int,
            );
            assert(final(self)@ =~= old(self)@.insert(index as int, value@)) by {
                let before = chunks(x, unit as nat, size as nat);
                let after = chunks(z, unit as nat, size as nat);
                assert(old(self)@.subrange(0, index as int) =~= before);
                assert(old(self)@.subrange(index as int, old(self)@.len() as int) =~= after);
            }
            lemma_mod_add_multiples_vanish(old_s.len() as int, unit as int);
            assert(final(self).wf());
        }
    }

    /// The payload stored at slot `index`, copied out; absent when `index`
    /// is past the end.
    pub fn get(&self, index: usize) -> (r: Option<Vec<u8>>)
        requires
            self.wf(),
        ensures
            index < self@.len() ==> r is Some && r->Some_0@ == self@[index as int],
            index >= self@.len() ==> r is None,
    {
        let size = self.type_descriptor.item_size;
        let unit = if size == 0 { 1usize } else { size };
        let count = self.len();
        if index >= count {
            return None;
        }
        let blen = self.storage.len();
        proof {
            lemma_chunks_len(self.storage@, unit as nat, size as nat);
            lemma_mul_inequality(index + 1, count as int, unit as int);
            assert((index + 1) * unit == index * unit + unit) by (nonlinear_arith);
            assert(index * unit + unit <= blen);
            lemma_chunks_split(self.storage@, unit as nat, size as nat, index as int);
        }
        let offset = index * unit;
        let mut r: Vec<u8> = Vec::new();
        let mut j: usize = 0;
        while j < size
            invariant
                j <= size,
                size == self.spec_item_size(),
                unit == self.spec_unit(),
                offset == index * unit,
                offset + unit <= blen,
                blen == self.storage@.len(),
                r@ =~= self.storage@.subrange(offset as int, offset + j),
            decreases size - j,
        {
            r.push(self.storage[offset + j]);
            proof {
                assert(r@ =~= self.storage@.subrange(offset as int, offset + j + 1));
            }
            j += 1;
        }
        proof {
            assert(r@ =~= self.storage@.subrange(offset as int, offset + size));
            assert(self@[index as int] == self.storage@.subrange(offset as int, offset + size));
        }
        Some(r)
    }

    /// Overwrites the payload at slot `index` in place.
    pub fn set(&mut self, index: usize, value: &Vec<u8>)
        requires
            old(self).wf(),
            index < old(self)@.len(),
            value@.len() == old(self).spec_item_size(),
        ensures
            final(self).wf(),
            final(self)@ == old(self)@.update(index as int, value@),
            final(self).spec_item_size() == old(self).spec_item_size(),
    {
        let ghost old_s = self.storage@;
        let size = self.type_descriptor.item_size;
        let unit = if size == 0 { 1usize } else { size };
        let blen = self.storage.len();
        proof {
            lemma_chunks_len(old_s, unit as nat, size as nat);
            lemma_mul_inequality(index + 1, old(self)@.len() as int, unit as int);
            assert((index + 1) * unit == index * unit + unit) by (nonlinear_arith);
            assert(index * unit + unit <= blen);
        }
        let offset = index * unit;
        let mut j: usize = 0;
        while j < size
            invariant
                j <= size,
                size == old(self).spec_item_size(),
                size > 0 ==> unit == size,
                size == 0 ==> unit == 1,
                value@.len() == size,
                offset == index * unit,
                offset + unit <= blen,
                blen == old_s.len(),
                self.type_descriptor == old(self).type_descriptor,
                self.storage@.len() == old_s.len(),
                forall|m: int|
                    0 <= m < old_s.len() && !(offset <= m < offset + j) ==> self.storage@[m]
                        == old_s[m],
                forall|m: int| 0 <= m < j ==> self.storage@[offset + m] == value@[m],
            decreases size - j,
        {
            *vstd::std_specs::vec::vec_index_mut(&mut self.storage, offset + j) = value[j];
            j += 1;
        }
        proof {
            let new_s = self.storage@;
            lemma_chunks_split(old_s, unit as nat, size as nat, index as int);
            assert(new_s.len() as int % (unit as int) == 0);
            lemma_chunks_split(new_s, unit as nat, size as nat, index as int);
            assert(new_s.subrange(0, index * unit) =~= old_s.subrange(0, index * unit));
            assert(new_s.subrange(index * unit + unit, new_s.len() as int) =~= old_s.subrange(
                index * unit + unit,
                old_s.len() as int,
            ));
            assert(new_s.subrange(index * unit, index * unit + size) =~= value@);
            assert(final(self)@ =~= old(self)@.update(index as int, value@));
        }
    }

    /// Drops the instance at slot `index` and closes the gap.
    pub fn remove(&mut self, index: usize) -> (r: bool)
        requires
            old(self).wf(),
            index < old(self)@.len(),
        ensures
            final(self).wf(),
            final(self)@ == old(self)@.remove(index as int),
            final(self).spec_item_size() == old(self).spec_item_size(),
            r,
    {
        let ghost old_s = self.storage@;
        let size = self.type_descriptor.item_size;
        let unit = if size == 0 { 1usize } else { size };
        let blen = self.storage.len();
        proof {
            lemma_chunks_len(old_s, unit as nat, size as nat);
            lemma_mul_inequality(index + 1, old(self)@.len() as int, unit as int);
            assert((index + 1) * unit == index * unit + unit) by (nonlinear_arith);
            assert(index * unit + unit <= blen);
        }
        let offset = index * unit;
        let ghost x = old_s.subrange(0, offset as int);
        let mut k: usize = 0;
        while k < unit
            invariant
                k <= unit,
                unit == old(self).spec_unit(),
                size == old(self).spec_item_size(),
                offset == index * unit,
                offset + unit <= old_s.len(),
                x == old_s.subrange(0, offset as int),
                self.type_descriptor == old(self).type_descriptor,
                self.storage@ =~= x + old_s.subrange(offset + k, old_s.len() as int),
            decreases unit - k,
        {
            self.storage.remove(offset);
            proof {
                let prev = x + old_s.subrange(offset + k, old_s.len() as int);
                assert(self.storage@ =~= x + old_s.subrange(offset + k + 1, old_s.len() as int))
                    by {
                    assert(self.storage@ == prev.remove(offset as int));
                    assert forall|m: int| 0 <= m < self.storage@.len() implies self.storage@[m]
                        == (x + old_s.subrange(offset + k + 1, old_s.len() as int))[m] by {
                        assert(prev.remove(offset as int)[m] == if m < offset {
                            prev[m]
                        } else {
                            prev[m + 1]
                        });
                    }
                }
            }
            k += 1;
        }
        proof {
            let z = old_s.subrange(offset + unit, old_s.len() as int);
            assert(self.storage@ =~= x + z);
            lemma_mod_multiples_basic(index as int, unit as int);
            lemma_chunks_concat(x, z, unit as nat, size as nat);
            lemma_chunks_split(old_s, unit as nat, size as nat, index as int);
            assert(old(self)@ == chunks(x, unit as nat, size as nat) + seq![
                old_s.subrange(offset as int, offset + size),
            ] + chunks(z, unit as nat, size as nat));
            assert(final(self)@ =~= old(self)@.remove(index as int)) by {
                let before = chunks(x, unit as nat, size as nat);
                let after = chunks(z, unit as nat, size as nat);
                assert(old(self)@.subrange(0, index as int) =~= before);
                assert(old(self)@.subrange(index + 1, old(self)@.len() as int) =~= after);
            }
            assert(self.storage@.len() + unit == old_s.len());
            lemma_mod_add_multiples_vanish(self.storage@.len() as int, unit as int);
            assert(final(self).wf());
        }
        true
    }

    /// Every stored payload, in slot order, copied out.
    pub fn iter(&self) -> (r: Vec<Vec<u8>>)
        requires
            self.wf(),
        ensures
            r@.len() == self@.len(),
            forall|i: int| 0 <= i < r@.len() ==> (#[trigger] r@[i])@ == self@[i],
    {
        let count = self.len();
        let mut r: Vec<Vec<u8>> = Vec::new();
        let mut i: usize = 0;
        while i < count
            invariant
                i <= count,
                count == self@.len(),
                self.wf(),
                r@.len() == i,
                forall|m: int| 0 <= m < i ==> (#[trigger] r@[m])@ == self@[m],
            decreases count - i,
        {
            let item = self.get(i);
            match item {
                Some(v) => r.push(v),
                None => (),
            }
            i += 1;
        }
        r
    }
}

} // verus!
