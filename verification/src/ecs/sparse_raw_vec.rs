//! A sparse indexed store: a homogeneous byte store paired with a parallel
//! sorted list of owning entity ids, giving logarithmic lookup while the
//! instances themselves stay densely packed.
use vstd::prelude::*;

use super::raw_vec::RawVec;
use super::type_descriptor::TypeDescriptor;

verus! {

/// The ids are strictly ascending: each id owns at most one slot.
pub open spec fn sorted_strict(s: Seq<u32>) -> bool {
    forall|i: int, j: int| 0 <= i < j < s.len() ==> s[i] < s[j]
}

/// One component type's instances, keyed by the owning entity id.
/// `indices[i]` owns the instance in storage slot `i`.
pub struct SparseRawVec {
    data: RawVec,
    indices: Vec<u32>,
}

impl View for SparseRawVec {
    type V = Map<u32, Seq<u8>>;

    closed spec fn view(&self) -> Map<u32, Seq<u8>> {
        Map::new(
            |k: u32| self.indices@.contains(k),
            |k: u32| self.data@[self.indices@.index_of(k)],
        )
    }
}

impl SparseRawVec {
    /// The payload size of one stored instance.
    pub closed spec fn spec_item_size(&self) -> nat {
        self.data.spec_item_size()
    }

    /// How many entities hold an instance.
    pub closed spec fn spec_len(&self) -> nat {
        self.indices@.len()
    }

    /// The owning ids in slot order (ascending when well formed).
    pub closed spec fn spec_keys(&self) -> Seq<u32> {
        self.indices@
    }

    /// The id list is strictly sorted and runs parallel to the storage.
    pub closed spec fn wf(&self) -> bool {
        &&& self.data.wf()
        &&& self.indices@.len() == self.data@.len()
        &&& sorted_strict(self.indices@)
    }

    /// The id in slot `i` owns the payload in slot `i`.
    proof fn lemma_key_at(&self, i: int)
        requires
            self.wf(),
            0 <= i < self.indices@.len(),
        ensures
            self@.dom().contains(self.indices@[i]),
            self@[self.indices@[i]] == self.data@[i],
    {
        let k = self.indices@[i];
        assert(self.indices@.contains(k));
        let j = self.indices@.index_of(k);
        assert(self.indices@[j] == k);
        if i != j {
            assert(false);
        }
    }

    /// The map's domain is exactly the id list.
    pub proof fn lemma_dom(&self)
        requires
            self.wf(),
        ensures
            forall|k: u32| self@.dom().contains(k) <==> self.spec_keys().contains(k),
            self@.dom().len() == self.spec_len(),
    {
        assert(self@.dom() =~= self.spec_keys().to_set());
        self.lemma_keys_to_set_len();
    }

    /// A strictly sorted id list has as many distinct ids as slots.
    proof fn lemma_keys_to_set_len(&self)
        requires
            self.wf(),
        ensures
            self.spec_keys().to_set().len() == self.spec_len(),
    {
        self.indices@.unique_seq_to_set();
    }

    /// The id list is the map's domain, strictly ascending.
    pub proof fn lemma_keys(&self)
        requires
            self.wf(),
        ensures
            sorted_strict(self.spec_keys()),
            self.spec_keys().len() == self.spec_len(),
            forall|i: int|
                0 <= i < self.spec_keys().len() ==> self@.dom().contains(
                    #[trigger] self.spec_keys()[i],
                ),
            forall|k: u32| self@.dom().contains(k) ==> self.spec_keys().contains(k),
    {
        assert forall|i: int| 0 <= i < self.spec_keys().len() implies self@.dom().contains(
            #[trigger] self.spec_keys()[i],
        ) by {
            self.lemma_key_at(i);
        }
    }

    /// The id in slot `i`, and the payload it owns.
    pub fn key_at(&self, i: usize) -> (r: u32)
        requires
            self.wf(),
            i < self.spec_len(),
        ensures
            r == self.spec_keys()[i as int],
            self@.dom().contains(r),
    {
        proof {
            self.lemma_key_at(i as int);
        }
        self.indices[i]
    }

    /// An empty store for the described type.
    pub fn new(type_descriptor: TypeDescriptor) -> (r: SparseRawVec)
        ensures
            r@ =~= Map::<u32, Seq<u8>>::empty(),
            r.wf(),
            r.spec_item_size() == type_descriptor.item_size,
            r.spec_len() == 0,
    {
        let r = SparseRawVec { data: RawVec::new(type_descriptor), indices: Vec::new() };
        proof {
            assert(r@ =~= Map::<u32, Seq<u8>>::empty());
        }
        r
    }

    /// The payload size of one stored instance.
    pub fn item_size(&self) -> (r: usize)
        ensures
            r == self.spec_item_size(),
    {
        self.data.item_size()
    }

    /// How many entities hold an instance.
    pub fn len(&self) -> (r: usize)
        ensures
            r == self.spec_len(),
    {
        self.indices.len()
    }

    /// The first slot whose id is not below `key`.
    fn lower_bound(&self, key: u32) -> (r: usize)
        requires
            self.wf(),
        ensures
            r <= self.indices@.len(),
            forall|i: int| 0 <= i < r ==> self.indices@[i] < key,
            forall|i: int| r <= i < self.indices@.len() ==> self.indices@[i] >= key,
    {
        let mut lo: usize = 0;
        let mut hi: usize = self.indices.len();
        while lo < hi
            invariant
                lo <= hi <= self.indices@.len(),
                sorted_strict(self.indices@),
                forall|i: int| 0 <= i < lo ==> self.indices@[i] < key,
                forall|i: int| hi <= i < self.indices@.len() ==> self.indices@[i] >= key,
            decreases hi - lo,
        {
            let mid = lo + (hi - lo) / 2;
            if self.indices[mid] < key {
                lo = mid + 1;
            } else {
                hi = mid;
            }
        }
        lo
    }

    /// Whether `index` holds an instance here.
    pub fn contains(&self, index: u32) -> (r: bool)
        requires
            self.wf(),
        ensures
            r == self@.dom().contains(index),
    {
        let pos = self.lower_bound(index);
        let r = pos < self.indices.len() && self.indices[pos] == index;
        proof {
            if r {
                self.lemma_key_at(pos as int);
            } else {
                if self.indices@.contains(index) {
                    let i = self.indices@.index_of(index);
                    assert(self.indices@[i] == index);
                    assert(false);
                }
                assert(!self@.dom().contains(index));
            }
        }
        r
    }

    /// Stores `value` for `index`, adding a slot at the sorted position or
    /// overwriting the slot `index` already owns.
    pub fn insert(&mut self, index: u32, value: &Vec<u8>)
        requires
            old(self).wf(),
            value@.len() == old(self).spec_item_size(),
            (old(self).spec_len() + 1) * (if old(self).spec_item_size() == 0 {
                1nat
            } else {
                old(self).spec_item_size()
            }) <= usize::MAX,
            old(self).spec_len() < usize::MAX,
        ensures
            final(self).wf(),
            final(self)@ == old(self)@.insert(index, value@),
            final(self).spec_item_size() == old(self).spec_item_size(),
            final(self).spec_len() == if old(self)@.dom().contains(index) {
                old(self).spec_len()
            } else {
                old(self).spec_len() + 1
            },
    {
        let ghost old_self = *self;
        let pos = self.lower_bound(index);
        if pos < self.indices.len() && self.indices[pos] == index {
            self.data.set(pos, value);
            proof {
                self.lemma_set_view(old_self, pos as int, index, value@);
            }
        } else {
            proof {
                if old_self.indices@.contains(index) {
                    let i = old_self.indices@.index_of(index);
                    assert(old_self.indices@[i] == index);
                    assert(false);
                }
            }
            self.indices.insert(pos, index);
            self.data.insert_raw(pos, value);
            proof {
                self.lemma_insert_view(old_self, pos as int, index, value@);
            }
        }
    }

    /// After overwriting slot `pos`, the map gains exactly the new binding.
    proof fn lemma_set_view(&self, prev: SparseRawVec, pos: int, index: u32, value: Seq<u8>)
        requires
            prev.wf(),
            0 <= pos < prev.indices@.len(),
            prev.indices@[pos] == index,
            value.len() == prev.spec_item_size(),
            self.indices@ == prev.indices@,
            self.data@ == prev.data@.update(pos, value),
            self.data.wf(),
            self.data.spec_item_size() == prev.data.spec_item_size(),
        ensures
            self.wf(),
            self@ == prev@.insert(index, value),
    {
        assert(self.wf());
        assert forall|k: u32| self@.dom().contains(k) <==> prev@.insert(
            index,
            value,
        ).dom().contains(k) by {}
        assert forall|k: u32| #[trigger]
            self@.dom().contains(k) implies self@[k] == prev@.insert(index, value)[k] by {
            let i = self.indices@.index_of(k);
            assert(self.indices@[i] == k);
            self.lemma_key_at(i);
            prev.lemma_key_at(i);
            if k == index {
                if i != pos {
                    assert(false);
                }
            }
        }
        assert(self@ =~= prev@.insert(index, value));
    }

    /// After splicing a new slot in at `pos`, the map gains exactly the new
    /// binding.
    proof fn lemma_insert_view(&self, prev: SparseRawVec, pos: int, index: u32, value: Seq<u8>)
        requires
            prev.wf(),
            0 <= pos <= prev.indices@.len(),
            forall|i: int| 0 <= i < pos ==> prev.indices@[i] < index,
            forall|i: int| pos <= i < prev.indices@.len() ==> prev.indices@[i] > index,
            value.len() == prev.spec_item_size(),
            self.indices@ == prev.indices@.insert(pos, index),
            self.data@ == prev.data@.insert(pos, value),
            self.data.wf(),
            self.data.spec_item_size() == prev.data.spec_item_size(),
        ensures
            self.wf(),
            self@ == prev@.insert(index, value),
    {
        assert forall|i: int, j: int|
            0 <= i < j < self.indices@.len() implies self.indices@[i] < self.indices@[j] by {
            assert(self.indices@[i] == if i < pos {
                prev.indices@[i]
            } else if i == pos {
                index
            } else {
                prev.indices@[i - 1]
            });
            assert(self.indices@[j] == if j < pos {
                prev.indices@[j]
            } else if j == pos {
                index
            } else {
                prev.indices@[j - 1]
            });
        }
        assert(self.wf());
        assert forall|k: u32| #[trigger]
            self@.dom().contains(k) implies prev@.insert(index, value).dom().contains(k) by {
            let i = self.indices@.index_of(k);
            assert(self.indices@[i] == k);
            if i < pos {
                assert(prev.indices@.contains(k)) by {
                    assert(prev.indices@[i] == k);
                }
            } else if i > pos {
                assert(prev.indices@.contains(k)) by {
                    assert(prev.indices@[i - 1] == k);
                }
            }
        }
        assert forall|k: u32| #[trigger]
            prev@.insert(index, value).dom().contains(k) implies self@.dom().contains(k) by {
            if k == index {
                assert(self.indices@[pos] == k);
            } else {
                let i = prev.indices@.index_of(k);
                assert(prev.indices@[i] == k);
                if i < pos {
                    assert(self.indices@[i] == k);
                } else {
                    assert(self.indices@[i + 1] == k);
                }
            }
        }
        assert forall|k: u32| #[trigger]
            self@.dom().contains(k) implies self@[k] == prev@.insert(index, value)[k] by {
            let i = self.indices@.index_of(k);
            assert(self.indices@[i] == k);
            self.lemma_key_at(i);
            if k == index {
                if i != pos {
                    assert(self.indices@[pos] == index);
                    assert(false);
                }
                assert(self@[k] == value);
            } else {
                if i == pos {
                    assert(false);
                } else if i < pos {
                    prev.lemma_key_at(i);
                } else {
                    prev.lemma_key_at(i - 1);
                }
            }
        }
        assert(self@ =~= prev@.insert(index, value));
    }

    /// The payload owned by `index`, copied out; absent when `index` holds
    /// no instance here.
    pub fn get(&self, index: u32) -> (r: Option<Vec<u8>>)
        requires
            self.wf(),
        ensures
            self@.dom().contains(index) ==> r is Some && r->Some_0@ == self@[index],
            !self@.dom().contains(index) ==> r is None,
    {
        let pos = self.lower_bound(index);
        if pos < self.indices.len() && self.indices[pos] == index {
            proof {
                self.lemma_key_at(pos as int);
            }
            self.data.get(pos)
        } else {
            proof {
                if self.indices@.contains(index) {
                    let i = self.indices@.index_of(index);
                    assert(self.indices@[i] == index);
                    assert(false);
                }
            }
            None
        }
    }

    /// Overwrites the payload owned by `index` in place; reports whether
    /// `index` held an instance.
    pub fn set(&mut self, index: u32, value: &Vec<u8>) -> (r: bool)
        requires
            old(self).wf(),
            value@.len() == old(self).spec_item_size(),
        ensures
            final(self).wf(),
            r == old(self)@.dom().contains(index),
            r ==> final(self)@ == old(self)@.insert(index, value@),
            !r ==> *final(self) == *old(self),
            final(self).spec_item_size() == old(self).spec_item_size(),
            final(self).spec_len() == old(self).spec_len(),
    {
        let ghost old_self = *self;
        let pos = self.lower_bound(index);
        if pos < self.indices.len() && self.indices[pos] == index {
            proof {
                self.lemma_key_at(pos as int);
            }
            self.data.set(pos, value);
            proof {
                self.lemma_set_view(old_self, pos as int, index, value@);
            }
            true
        } else {
            proof {
                if self.indices@.contains(index) {
                    let i = self.indices@.index_of(index);
                    assert(self.indices@[i] == index);
                    assert(false);
                }
            }
            false
        }
    }

    /// Drops the instance owned by `index` and closes the gap; removing an
    /// absent instance reports `false` and leaves the store unchanged.
    pub fn remove(&mut self, index: u32) -> (r: bool)
        requires
            old(self).wf(),
        ensures
            final(self).wf(),
            r == old(self)@.dom().contains(index),
            final(self)@ == old(self)@.remove(index),
            !r ==> *final(self) == *old(self),
            final(self).spec_item_size() == old(self).spec_item_size(),
            final(self).spec_len() == if old(self)@.dom().contains(index) {
                (old(self).spec_len() - 1) as nat
            } else {
                old(self).spec_len()
            },
    {
        let ghost old_self = *self;
        let pos = self.lower_bound(index);
        if pos < self.indices.len() && self.indices[pos] == index {
            proof {
                self.lemma_key_at(pos as int);
            }
            self.data.remove(pos);
            self.indices.remove(pos);
            proof {
                self.lemma_remove_view(old_self, pos as int, index);
            }
            true
        } else {
            proof {
                if self.indices@.contains(index) {
                    let i = self.indices@.index_of(index);
                    assert(self.indices@[i] == index);
                    assert(false);
                }
                assert(final(self)@ =~= old(self)@.remove(index));
            }
            false
        }
    }

    /// After dropping slot `pos`, the map loses exactly that binding.
    proof fn lemma_remove_view(&self, prev: SparseRawVec, pos: int, index: u32)
        requires
            prev.wf(),
            0 <= pos < prev.indices@.len(),
            prev.indices@[pos] == index,
            self.indices@ == prev.indices@.remove(pos),
            self.data@ == prev.data@.remove(pos),
            self.data.wf(),
            self.data.spec_item_size() == prev.data.spec_item_size(),
        ensures
            self.wf(),
            self@ == prev@.remove(index),
    {
        assert forall|i: int, j: int|
            0 <= i < j < self.indices@.len() implies self.indices@[i] < self.indices@[j] by {
            assert(self.indices@[i] == if i < pos {
                prev.indices@[i]
            } else {
                prev.indices@[i + 1]
            });
            assert(self.indices@[j] == if j < pos {
                prev.indices@[j]
            } else {
                prev.indices@[j + 1]
            });
        }
        assert(self.wf());
        assert forall|k: u32| #[trigger]
            self@.dom().contains(k) implies prev@.remove(index).dom().contains(k) by {
            let i = self.indices@.index_of(k);
            assert(self.indices@[i] == k);
            if i < pos {
                assert(prev.indices@[i] == k);
            } else {
                assert(prev.indices@[i + 1] == k);
            }
            if k == index {
                assert(false);
            }
            assert(prev.indices@.contains(k));
        }
        assert forall|k: u32| #[trigger]
            prev@.remove(index).dom().contains(k) implies self@.dom().contains(k) by {
            let i = prev.indices@.index_of(k);
            assert(prev.indices@[i] == k);
            if i < pos {
                assert(self.indices@[i] == k);
            } else if i > pos {
                assert(self.indices@[i - 1] == k);
            }
        }
        assert forall|k: u32| #[trigger]
            self@.dom().contains(k) implies self@[k] == prev@.remove(index)[k] by {
            let i = self.indices@.index_of(k);
            assert(self.indices@[i] == k);
            self.lemma_key_at(i);
            if i < pos {
                prev.lemma_key_at(i);
            } else {
                prev.lemma_key_at(i + 1);
            }
        }
        assert(self@ =~= prev@.remove(index));
    }

    /// Every (id, payload) pair in ascending id order, copied out.  The
    /// result lists each stored id exactly once.
    pub fn iter(&self) -> (r: Vec<(u32, Vec<u8>)>)
        requires
            self.wf(),
        ensures
            r@.len() == self.spec_len(),
            forall|i: int|
                0 <= i < r@.len() ==> self@.dom().contains(#[trigger] r@[i].0) && r@[i].1@
                    == self@[r@[i].0],
            forall|i: int, j: int| 0 <= i < j < r@.len() ==> r@[i].0 < r@[j].0,
            forall|k: u32| self@.dom().contains(k) ==> exists|i: int|
                0 <= i < r@.len() && (#[trigger] r@[i]).0 == k,
    {
        let count = self.indices.len();
        let mut r: Vec<(u32, Vec<u8>)> = Vec::new();
        let mut i: usize = 0;
        while i < count
            invariant
                i <= count,
                count == self.spec_len(),
                self.wf(),
                r@.len() == i,
                forall|m: int| 0 <= m < i ==> (#[trigger] r@[m]).0 == self.indices@[m],
                forall|m: int| 0 <= m < i ==> (#[trigger] r@[m]).1@ == self.data@[m],
            decreases count - i,
        {
            let key = self.indices[i];
            let item = self.data.get(i);
            match item {
                Some(v) => r.push((key, v)),
                None => (),
            }
            i += 1;
        }
        proof {
            assert forall|m: int|
                0 <= m < r@.len() implies self@.dom().contains(#[trigger] r@[m].0) && r@[m].1@
                == self@[r@[m].0] by {
                self.lemma_key_at(m);
            }
            assert forall|k: u32| self@.dom().contains(k) implies exists|i2: int|
                0 <= i2 < r@.len() && (#[trigger] r@[i2]).0 == k by {
                let i2 = self.indices@.index_of(k);
                assert(self.indices@[i2] == k);
                assert(r@[i2].0 == k);
            }
        }
        r
    }
}

} // verus!
