//! A sparse vector of plain values: a dense value array paired with a
//! parallel sorted key list, the typed counterpart of the byte-level
//! sparse store.
use vstd::prelude::*;

verus! {

/// The keys are strictly ascending: each key owns at most one slot.
pub open spec fn keys_sorted(s: Seq<usize>) -> bool {
    forall|i: int, j: int| 0 <= i < j < s.len() ==> s[i] < s[j]
}

/// Values keyed by an index, held densely in key order.
pub struct SparseVec<T> {
    data: Vec<T>,
    indices: Vec<usize>,
}

impl<T> View for SparseVec<T> {
    type V = Map<usize, T>;

    closed spec fn view(&self) -> Map<usize, T> {
        Map::new(
            |k: usize| self.indices@.contains(k),
            |k: usize| self.data@[self.indices@.index_of(k)],
        )
    }
}

impl<T> SparseVec<T> {
    /// How many keys hold a value.
    pub closed spec fn spec_len(&self) -> nat {
        self.indices@.len()
    }

    /// The keys in slot order (ascending when well formed).
    pub closed spec fn spec_keys(&self) -> Seq<usize> {
        self.indices@
    }

    /// The key list is strictly sorted and runs parallel to the values.
    pub closed spec fn wf(&self) -> bool {
        &&& self.indices@.len() == self.data@.len()
        &&& keys_sorted(self.indices@)
    }

    /// The key in slot `i` owns the value in slot `i`.
    proof fn lemma_key_at(&self, i: int)
        requires
            self.wf(),
            0 <= i < self.indices@.len(),
        ensures
            self@.dom().contains(self.indices@[i]),
            self@[self.indices@[i]] == self.data@[i],
    {
        let k = self.indices@[i];
        assert(self.indices@.contains(k));
        let j = self.indices@.index_of(k);
        assert(self.indices@[j] == k);
        if i != j {
            assert(false);
        }
    }

    /// An empty sparse vector.
    pub fn new() -> (r: SparseVec<T>)
        ensures
            r@ =~= Map::<usize, T>::empty(),
            r.wf(),
            r.spec_len() == 0,
    {
        let r = SparseVec { data: Vec::new(), indices: Vec::new() };
        proof {
            assert(r@ =~= Map::<usize, T>::empty());
        }
        r
    }

    /// How many keys hold a value.
    pub fn len(&self) -> (r: usize)
        ensures
            r == self.spec_len(),
    {
        self.indices.len()
    }

    /// The first slot whose key is not below `key`.
    fn lower_bound(&self, key: usize) -> (r: usize)
        requires
            self.wf(),
        ensures
            r <= self.indices@.len(),
            forall|i: int| 0 <= i < r ==> self.indices@[i] < key,
            forall|i: int| r <= i < self.indices@.len() ==> self.indices@[i] >= key,
    {
        let mut lo: usize = 0;
        let mut hi: usize = self.indices.len();
        while lo < hi
            invariant
                lo <= hi <= self.indices@.len(),
                keys_sorted(self.indices@),
                forall|i: int| 0 <= i < lo ==> self.indices@[i] < key,
                forall|i: int| hi <= i < self.indices@.len() ==> self.indices@[i] >= key,
            decreases hi - lo,
        {
            let mid = lo + (hi - lo) / 2;
            if self.indices[mid] < key {
                lo = mid + 1;
            } else {
                hi = mid;
            }
        }
        lo
    }

    /// Whether `index` holds a value here.
    pub fn contains(&self, index: usize) -> (r: bool)
        requires
            self.wf(),
        ensures
            r == self@.dom().contains(index),
    {
        let pos = self.lower_bound(index);
        let r = pos < self.indices.len() && self.indices[pos] == index;
        proof {
            if r {
                self.lemma_key_at(pos as int);
            } else if self.indices@.contains(index) {
                let i = self.indices@.index_of(index);
                assert(self.indices@[i] == index);
                assert(false);
            }
        }
        r
    }

    /// Stores `value` under `index`, adding a slot at the sorted position
    /// or overwriting the slot `index` already owns.
    pub fn insert(&mut self, index: usize, value: T)
        requires
            old(self).wf(),
            old(self).spec_len() < usize::MAX,
        ensures
            final(self).wf(),
            final(self)@ == old(self)@.insert(index, value),
            final(self).spec_len() == if old(self)@.dom().contains(index) {
                old(self).spec_len()
            } else {
                old(self).spec_len() + 1
            },
    {
        let ghost old_self = *self;
        let pos = self.lower_bound(index);
        if pos < self.indices.len() && self.indices[pos] == index {
            proof {
                self.lemma_key_at(pos as int);
            }
            *vstd::std_specs::vec::vec_index_mut(&mut self.data, pos) = value;
            proof {
                self.lemma_update_view(old_self, pos as int, index);
            }
        } else {
            proof {
                if old_self.indices@.contains(index) {
                    let i = old_self.indices@.index_of(index);
                    assert(old_self.indices@[i] == index);
                    assert(false);
                }
            }
            self.indices.insert(pos, index);
            self.data.insert(pos, value);
            proof {
                self.lemma_insert_view(old_self, pos as int, index);
            }
        }
    }

    /// After overwriting slot `pos`, the map gains exactly the new binding.
    proof fn lemma_update_view(&self, prev: SparseVec<T>, pos: int, index: usize)
        requires
            prev.wf(),
            0 <= pos < prev.indices@.len(),
            prev.indices@[pos] == index,
            self.indices@ == prev.indices@,
            self.data@ == prev.data@.update(pos, self.data@[pos]),
        ensures
            self.wf(),
            self@ == prev@.insert(index, self.data@[pos]),
    {
        let value = self.data@[pos];
        assert forall|k: usize| #[trigger]
            self@.dom().contains(k) implies self@[k] == prev@.insert(index, value)[k] by {
            let i = self.indices@.index_of(k);
            assert(self.indices@[i] == k);
            self.lemma_key_at(i);
            prev.lemma_key_at(i);
            if k == index && i != pos {
                assert(false);
            }
        }
        assert(self@ =~= prev@.insert(index, value));
    }

    /// After splicing a new slot in at `pos`, the map gains exactly the new
    /// binding.
    proof fn lemma_insert_view(&self, prev: SparseVec<T>, pos: int, index: usize)
        requires
            prev.wf(),
            0 <= pos <= prev.indices@.len(),
            forall|i: int| 0 <= i < pos ==> prev.indices@[i] < index,
            forall|i: int| pos <= i < prev.indices@.len() ==> prev.indices@[i] > index,
            self.indices@ == prev.indices@.insert(pos, index),
            self.data@ == prev.data@.insert(pos, self.data@[pos]),
        ensures
            self.wf(),
            self@ == prev@.insert(index, self.data@[pos]),
    {
        let value = self.data@[pos];
        assert forall|i: int, j: int|
            0 <= i < j < self.indices@.len() implies self.indices@[i] < self.indices@[j] by {
            assert(self.indices@[i] == if i < pos {
                prev.indices@[i]
            } else if i == pos {
                index
            } else {
                prev.indices@[i - 1]
            });
            assert(self.indices@[j] == if j < pos {
                prev.indices@[j]
            } else if j == pos {
                index
            } else {
                prev.indices@[j - 1]
            });
        }
        assert(self.wf());
        assert forall|k: usize| #[trigger]
            self@.dom().contains(k) implies prev@.insert(index, value).dom().contains(k) by {
            let i = self.indices@.index_of(k);
            assert(self.indices@[i] == k);
            if i < pos {
                assert(prev.indices@[i] == k);
                assert(prev.indices@.contains(k));
            } else if i > pos {
                assert(prev.indices@[i - 1] == k);
                assert(prev.indices@.contains(k));
            }
        }
        assert forall|k: usize| #[trigger]
            prev@.insert(index, value).dom().contains(k) implies self@.dom().contains(k) by {
            if k == index {
                assert(self.indices@[pos] == k);
            } else {
                let i = prev.indices@.index_of(k);
                assert(prev.indices@[i] == k);
                if i < pos {
                    assert(self.indices@[i] == k);
                } else {
                    assert(self.indices@[i + 1] == k);
                }
            }
        }
        assert forall|k: usize| #[trigger]
            self@.dom().contains(k) implies self@[k] == prev@.insert(index, value)[k] by {
            let i = self.indices@.index_of(k);
            assert(self.indices@[i] == k);
            self.lemma_key_at(i);
            if k == index {
                if i != pos {
                    assert(self.indices@[pos] == index);
                    assert(false);
                }
            } else {
                if i == pos {
                    assert(false);
                } else if i < pos {
                    prev.lemma_key_at(i);
                } else {
                    prev.lemma_key_at(i - 1);
                }
            }
        }
        assert(self@ =~= prev@.insert(index, value));
    }

    /// A borrow of the value under `index`; absent when `index` holds no
    /// value here.
    pub fn get(&self, index: usize) -> (r: Option<&T>)
        requires
            self.wf(),
        ensures
            self@.dom().contains(index) ==> r is Some && *r->Some_0 == self@[index],
            !self@.dom().contains(index) ==> r is None,
    {
        let pos = self.lower_bound(index);
        if pos < self.indices.len() && self.indices[pos] == index {
            proof {
                self.lemma_key_at(pos as int);
            }
            Some(&self.data[pos])
        } else {
            proof {
                if self.indices@.contains(index) {
                    let i = self.indices@.index_of(index);
                    assert(self.indices@[i] == index);
                    assert(false);
                }
            }
            None
        }
    }

    /// Overwrites the value under `index`; reports whether `index` held a
    /// value.  The overwritten value is dropped.
    pub fn set(&mut self, index: usize, value: T) -> (r: bool)
        requires
            old(self).wf(),
        ensures
            final(self).wf(),
            r == old(self)@.dom().contains(index),
            r ==> final(self)@ == old(self)@.insert(index, value),
            !r ==> *final(self) == *old(self),
            final(self).spec_len() == old(self).spec_len(),
            final(self).spec_keys() == old(self).spec_keys(),
    {
        let ghost old_self = *self;
        let pos = self.lower_bound(index);
        if pos < self.indices.len() && self.indices[pos] == index {
            proof {
                self.lemma_key_at(pos as int);
            }
            *vstd::std_specs::vec::vec_index_mut(&mut self.data, pos) = value;
            proof {
                self.lemma_update_view(old_self, pos as int, index);
            }
            true
        } else {
            proof {
                if self.indices@.contains(index) {
                    let i = self.indices@.index_of(index);
                    assert(self.indices@[i] == index);
                    assert(false);
                }
            }
            false
        }
    }

    /// Every (key, value) pair in ascending key order.  The result lists
    /// each stored key exactly once.
    pub fn iter(&self) -> (r: Vec<(usize, &T)>)
        requires
            self.wf(),
        ensures
            r@.len() == self.spec_len(),
            forall|i: int|
                0 <= i < r@.len() ==> self@.dom().contains(#[trigger] r@[i].0) && *r@[i].1
                    == self@[r@[i].0],
            forall|i: int, j: int| 0 <= i < j < r@.len() ==> r@[i].0 < r@[j].0,
            forall|k: usize| self@.dom().contains(k) ==> exists|i: int|
                0 <= i < r@.len() && (#[trigger] r@[i]).0 == k,
    {
        let count = self.indices.len();
        let mut r: Vec<(usize, &T)> = Vec::new();
        let mut i: usize = 0;
        while i < count
            invariant
                i <= count,
                count == self.spec_len(),
                self.wf(),
                r@.len() == i,
                forall|m: int| 0 <= m < i ==> (#[trigger] r@[m]).0 == self.indices@[m],
                forall|m: int| 0 <= m < i ==> *(#[trigger] r@[m]).1 == self.data@[m],
            decreases count - i,
        {
            r.push((self.indices[i], &self.data[i]));
            i += 1;
        }
        proof {
            assert forall|m: int|
                0 <= m < r@.len() implies self@.dom().contains(#[trigger] r@[m].0) && *r@[m].1
                == self@[r@[m].0] by {
                self.lemma_key_at(m);
            }
            assert forall|k: usize| self@.dom().contains(k) implies exists|i2: int|
                0 <= i2 < r@.len() && (#[trigger] r@[i2]).0 == k by {
                let i2 = self.indices@.index_of(k);
                assert(self.indices@[i2] == k);
                assert(r@[i2].0 == k);
            }
        }
        r
    }
}

} // verus!
