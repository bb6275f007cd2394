//! A sparse heterogeneous store: a heterogeneous vector paired with a
//! parallel sorted key list, so differently-typed values can be looked up
//! by owner id.
use vstd::prelude::*;

use super::any_vec::AnyVec;

verus! {

/// The ids are strictly ascending: each id owns at most one slot.
pub open spec fn ids_sorted(s: Seq<u32>) -> bool {
    forall|i: int, j: int| 0 <= i < j < s.len() ==> s[i] < s[j]
}

/// Type-tagged byte payloads keyed by an owner id.
pub struct SparseAnyVec {
    data: AnyVec,
    indices: Vec<u32>,
}

impl View for SparseAnyVec {
    type V = Map<u32, (u64, Seq<u8>)>;

    closed spec fn view(&self) -> Map<u32, (u64, Seq<u8>)> {
        Map::new(
            |k: u32| self.indices@.contains(k),
            |k: u32| self.data@[self.indices@.index_of(k)],
        )
    }
}

impl SparseAnyVec {
    /// How many ids hold a value.
    pub closed spec fn spec_len(&self) -> nat {
        self.indices@.len()
    }

    /// Total bytes the stored payloads occupy.
    pub closed spec fn spec_total_size(&self) -> nat {
        self.data.spec_total_size()
    }

    /// The key list is strictly sorted and runs parallel to the values.
    pub closed spec fn wf(&self) -> bool {
        &&& self.data.wf()
        &&& self.indices@.len() == self.data@.len()
        &&& ids_sorted(self.indices@)
    }

    /// The id in slot `i` owns the value in slot `i`.
    proof fn lemma_key_at(&self, i: int)
        requires
            self.wf(),
            0 <= i < self.indices@.len(),
        ensures
            self@.dom().contains(self.indices@[i]),
            self@[self.indices@[i]] == self.data@[i],
    {
        let k = self.indices@[i];
        assert(self.indices@.contains(k));
        let j = self.indices@.index_of(k);
        assert(self.indices@[j] == k);
        if i != j {
            assert(false);
        }
    }

    /// An empty sparse heterogeneous store.
    pub fn new() -> (r: SparseAnyVec)
        ensures
            r@ =~= Map::<u32, (u64, Seq<u8>)>::empty(),
            r.wf(),
            r.spec_len() == 0,
            r.spec_total_size() == 0,
    {
        let r = SparseAnyVec { data: AnyVec::new(), indices: Vec::new() };
        proof {
            assert(r@ =~= Map::<u32, (u64, Seq<u8>)>::empty());
        }
        r
    }

    /// How many ids hold a value.
    pub fn len(&self) -> (r: usize)
        ensures
            r == self.spec_len(),
    {
        self.indices.len()
    }

    /// The first slot whose id is not below `key`.
    fn lower_bound(&self, key: u32) -> (r: usize)
        requires
            self.wf(),
        ensures
            r <= self.indices@.len(),
            forall|i: int| 0 <= i < r ==> self.indices@[i] < key,
            forall|i: int| r <= i < self.indices@.len() ==> self.indices@[i] >= key,
    {
        let mut lo: usize = 0;
        let mut hi: usize = self.indices.len();
        while lo < hi
            invariant
                lo <= hi <= self.indices@.len(),
                ids_sorted(self.indices@),
                forall|i: int| 0 <= i < lo ==> self.indices@[i] < key,
                forall|i: int| hi <= i < self.indices@.len() ==> self.indices@[i] >= key,
            decreases hi - lo,
        {
            let mid = lo + (hi - lo) / 2;
            if self.indices[mid] < key {
                lo = mid + 1;
            } else {
                hi = mid;
            }
        }
        lo
    }

    /// Whether `index` holds a value here.
    pub fn contains(&self, index: u32) -> (r: bool)
        requires
            self.wf(),
        ensures
            r == self@.dom().contains(index),
    {
        let pos = self.lower_bound(index);
        let r = pos < self.indices.len() && self.indices[pos] == index;
        proof {
            if r {
                self.lemma_key_at(pos as int);
            } else if self.indices@.contains(index) {
                let i = self.indices@.index_of(index);
                assert(self.indices@[i] == index);
                assert(false);
            }
        }
        r
    }

    /// Stores `value` under `index` and `type_tag`, adding a slot at the
    /// sorted position or replacing the value `index` already owns.
    pub fn insert(&mut self, index: u32, type_tag: u64, value: &Vec<u8>)
        requires
            old(self).wf(),
            old(self).spec_total_size() + value@.len() <= usize::MAX,
            old(self).spec_len() < usize::MAX,
        ensures
            final(self).wf(),
            final(self)@ == old(self)@.insert(index, (type_tag, value@)),
    {
        let ghost old_self = *self;
        let pos = self.lower_bound(index);
        if pos < self.indices.len() && self.indices[pos] == index {
            proof {
                self.lemma_key_at(pos as int);
                self.data.lemma_total_size();
            }
            self.data.remove(pos);
            proof {
                self.data.lemma_total_size();
            }
            self.data.insert(pos, type_tag, value);
            proof {
                assert(self.data@ =~= old_self.data@.update(pos as int, (type_tag, value@)));
                self.lemma_update_view(old_self, pos as int, index);
            }
        } else {
            proof {
                if old_self.indices@.contains(index) {
                    let i = old_self.indices@.index_of(index);
                    assert(old_self.indices@[i] == index);
                    assert(false);
                }
            }
            self.indices.insert(pos, index);
            self.data.insert(pos, type_tag, value);
            proof {
                self.lemma_insert_view(old_self, pos as int, index);
            }
        }
    }

    /// After overwriting slot `pos`, the map gains exactly the new binding.
    proof fn lemma_update_view(&self, prev: SparseAnyVec, pos: int, index: u32)
        requires
            prev.wf(),
            0 <= pos < prev.indices@.len(),
            prev.indices@[pos] == index,
            self.indices@ == prev.indices@,
            self.data@ == prev.data@.update(pos, self.data@[pos]),
            self.data.wf(),
        ensures
            self.wf(),
            self@ == prev@.insert(index, self.data@[pos]),
    {
        let value = self.data@[pos];
        assert forall|k: u32| #[trigger]
            self@.dom().contains(k) implies self@[k] == prev@.insert(index, value)[k] by {
            let i = self.indices@.index_of(k);
            assert(self.indices@[i] == k);
            self.lemma_key_at(i);
            prev.lemma_key_at(i);
            if k == index && i != pos {
                assert(false);
            }
        }
        assert(self@ =~= prev@.insert(index, value));
    }

    /// After splicing a new slot in at `pos`, the map gains exactly the new
    /// binding.
    proof fn lemma_insert_view(&self, prev: SparseAnyVec, pos: int, index: u32)
        requires
            prev.wf(),
            0 <= pos <= prev.indices@.len(),
            forall|i: int| 0 <= i < pos ==> prev.indices@[i] < index,
            forall|i: int| pos <= i < prev.indices@.len() ==> prev.indices@[i] > index,
            self.indices@ == prev.indices@.insert(pos, index),
            self.data@ == prev.data@.insert(pos, self.data@[pos]),
            self.data.wf(),
        ensures
            self.wf(),
            self@ == prev@.insert(index, self.data@[pos]),
    {
        let value = self.data@[pos];
        assert forall|i: int, j: int|
            0 <= i < j < self.indices@.len() implies self.indices@[i] < self.indices@[j] by {
            assert(self.indices@[i] == if i < pos {
                prev.indices@[i]
            } else if i == pos {
                index
            } else {
                prev.indices@[i - 1]
            });
            assert(self.indices@[j] == if j < pos {
                prev.indices@[j]
            } else if j == pos {
                index
            } else {
                prev.indices@[j - 1]
            });
        }
        assert(self.wf());
        assert forall|k: u32| #[trigger]
            self@.dom().contains(k) implies prev@.insert(index, value).dom().contains(k) by {
            let i = self.indices@.index_of(k);
            assert(self.indices@[i] == k);
            if i < pos {
                assert(prev.indices@[i] == k);
                assert(prev.indices@.contains(k));
            } else if i > pos {
                assert(prev.indices@[i - 1] == k);
                assert(prev.indices@.contains(k));
            }
        }
        assert forall|k: u32| #[trigger]
            prev@.insert(index, value).dom().contains(k) implies self@.dom().contains(k) by {
            if k == index {
                assert(self.indices@[pos] == k);
            } else {
                let i = prev.indices@.index_of(k);
                assert(prev.indices@[i] == k);
                if i < pos {
                    assert(self.indices@[i] == k);
                } else {
                    assert(self.indices@[i + 1] == k);
                }
            }
        }
        assert forall|k: u32| #[trigger]
            self@.dom().contains(k) implies self@[k] == prev@.insert(index, value)[k] by {
            let i = self.indices@.index_of(k);
            assert(self.indices@[i] == k);
            self.lemma_key_at(i);
            if k == index {
                if i != pos {
                    assert(self.indices@[pos] == index);
                    assert(false);
                }
            } else {
                if i == pos {
                    assert(false);
                } else if i < pos {
                    prev.lemma_key_at(i);
                } else {
                    prev.lemma_key_at(i - 1);
                }
            }
        }
        assert(self@ =~= prev@.insert(index, value));
    }

    /// The payload owned by `index`, copied out; absent when `index` holds
    /// no value here.  Requesting a held value under the wrong tag is a
    /// programming error and is ruled out by contract.
    pub fn get(&self, index: u32, type_tag: u64) -> (r: Option<Vec<u8>>)
        requires
            self.wf(),
            self@.dom().contains(index) ==> self@[index].0 == type_tag,
        ensures
            self@.dom().contains(index) ==> r is Some && r->Some_0@ == self@[index].1,
            !self@.dom().contains(index) ==> r is None,
    {
        let pos = self.lower_bound(index);
        if pos < self.indices.len() && self.indices[pos] == index {
            proof {
                self.lemma_key_at(pos as int);
                self.data.lemma_total_size();
            }
            self.data.get(pos, type_tag)
        } else {
            proof {
                if self.indices@.contains(index) {
                    let i = self.indices@.index_of(index);
                    assert(self.indices@[i] == index);
                    assert(false);
                }
            }
            None
        }
    }
}

} // verus!
