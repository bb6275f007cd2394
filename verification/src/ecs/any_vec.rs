//! A heterogeneous vector: values of differing types held back to back in
//! one byte buffer, each slot remembering its type tag and size, addressed
//! by summing the sizes of the slots in front of it.
use vstd::prelude::*;

verus! {

/// Per-slot metadata: the runtime tag of the stored type and how many
/// bytes its payload occupies.
#[derive(PartialEq, Eq, Structural, Clone, Copy, Debug)]
pub struct ItemInfo {
    pub type_tag: u64,
    pub item_size: usize,
}

/// Total byte size of the described slots.
pub open spec fn sizes_sum(ts: Seq<ItemInfo>) -> nat
    decreases ts.len(),
{
    if ts.len() == 0 {
        0
    } else {
        ts[0].item_size as nat + sizes_sum(ts.drop_first())
    }
}

/// The (tag, payload) pairs described by `ts`, read in order from `s`.
pub open spec fn any_items(ts: Seq<ItemInfo>, s: Seq<u8>) -> Seq<(u64, Seq<u8>)>
    decreases ts.len(),
{
    if ts.len() == 0 {
        Seq::empty()
    } else {
        seq![(ts[0].type_tag, s.take(ts[0].item_size as int))] + any_items(
            ts.drop_first(),
            s.skip(ts[0].item_size as int),
        )
    }
}

/// The byte offset where item `i` of `v` begins: the payload sizes of the
/// items in front of it.
pub open spec fn payload_offset(v: Seq<(u64, Seq<u8>)>, i: int) -> nat
    decreases i,
{
    if i <= 0 {
        0
    } else {
        payload_offset(v, i - 1) + v[i - 1].1.len()
    }
}

/// Reading a concatenation whose first part is fully described by `ts1`
/// reads each part separately.
proof fn lemma_any_items_concat(ts1: Seq<ItemInfo>, ts2: Seq<ItemInfo>, s1: Seq<u8>, s2: Seq<u8>)
    requires
        s1.len() == sizes_sum(ts1),
    ensures
        any_items(ts1 + ts2, s1 + s2) == any_items(ts1, s1) + any_items(ts2, s2),
    decreases ts1.len(),
{
    if ts1.len() == 0 {
        assert(s1 =~= Seq::<u8>::empty());
        assert(ts1 + ts2 =~= ts2);
        assert(s1 + s2 =~= s2);
        assert(any_items(ts1, s1) + any_items(ts2, s2) =~= any_items(ts2, s2));
    } else {
        let ts = ts1 + ts2;
        let s = s1 + s2;
        let sz = ts1[0].item_size as int;
        assert(sz <= s1.len());
        assert(ts[0] == ts1[0]);
        assert(s.take(sz) =~= s1.take(sz));
        assert(ts.drop_first() =~= ts1.drop_first() + ts2);
        assert(s.skip(sz) =~= s1.skip(sz) + s2);
        lemma_any_items_concat(ts1.drop_first(), ts2, s1.skip(sz), s2);
        assert(any_items(ts, s) =~= any_items(ts1, s1) + any_items(ts2, s2));
    }
}

/// One described slot reads to its tag and payload.
proof fn lemma_any_items_single(info: ItemInfo, s: Seq<u8>)
    requires
        s.len() == info.item_size,
    ensures
        any_items(seq![info], s) =~= seq![(info.type_tag, s)],
{
    let ts = seq![info];
    assert(ts.drop_first() =~= Seq::<ItemInfo>::empty());
    assert(s.take(info.item_size as int) =~= s);
    assert(any_items(ts.drop_first(), s.skip(info.item_size as int)) =~= Seq::<(
        u64,
        Seq<u8>,
    )>::empty());
}

/// Reading one more described slot adds its size to the total.
proof fn lemma_sizes_sum_take_step(ts: Seq<ItemInfo>, j: int)
    requires
        0 <= j < ts.len(),
    ensures
        sizes_sum(ts.take(j + 1)) == sizes_sum(ts.take(j)) + ts[j].item_size,
    decreases j,
{
    if j == 0 {
        assert(ts.take(0) =~= Seq::<ItemInfo>::empty());
        let t1 = ts.take(1);
        assert(t1.drop_first() =~= Seq::<ItemInfo>::empty());
    } else {
        let a = ts.take(j + 1);
        let b = ts.take(j);
        assert(a.drop_first() =~= ts.drop_first().take(j));
        assert(b.drop_first() =~= ts.drop_first().take(j - 1));
        lemma_sizes_sum_take_step(ts.drop_first(), j - 1);
        assert(ts.drop_first()[j - 1] == ts[j]);
    }
}

/// Total size of concatenated slot descriptions is the sum of the parts.
proof fn lemma_sizes_sum_concat(a: Seq<ItemInfo>, b: Seq<ItemInfo>)
    ensures
        sizes_sum(a + b) == sizes_sum(a) + sizes_sum(b),
    decreases a.len(),
{
    if a.len() == 0 {
        assert(a + b =~= b);
    } else {
        assert((a + b).drop_first() =~= a.drop_first() + b);
        lemma_sizes_sum_concat(a.drop_first(), b);
    }
}

/// A prefix of the described slots never overruns the total size.
proof fn lemma_sizes_sum_take_le(ts: Seq<ItemInfo>, j: int)
    requires
        0 <= j <= ts.len(),
    ensures
        sizes_sum(ts.take(j)) <= sizes_sum(ts),
    decreases ts.len() - j,
{
    if j == ts.len() {
        assert(ts.take(j) =~= ts);
    } else {
        lemma_sizes_sum_take_step(ts, j);
        lemma_sizes_sum_take_le(ts, j + 1);
    }
}

/// A heterogeneous vector of type-tagged byte payloads.
pub struct AnyVec {
    storage: Vec<u8>,
    types: Vec<ItemInfo>,
}

impl View for AnyVec {
    type V = Seq<(u64, Seq<u8>)>;

    closed spec fn view(&self) -> Seq<(u64, Seq<u8>)> {
        any_items(self.types@, self.storage@)
    }
}

impl AnyVec {
    /// The buffer holds exactly the described slots.
    pub closed spec fn wf(&self) -> bool {
        self.storage@.len() == sizes_sum(self.types@)
    }

    /// Item `i` of the reading is slot `i`: its tag, and its payload cut
    /// from the buffer at the slot's offset.
    proof fn lemma_view_at(&self, i: int)
        requires
            self.wf(),
            0 <= i < self.types@.len(),
        ensures
            self@.len() == self.types@.len(),
            self@[i].0 == self.types@[i].type_tag,
            self@[i].1.len() == self.types@[i].item_size,
            self@[i].1 == self.storage@.subrange(
                sizes_sum(self.types@.take(i)) as int,
                sizes_sum(self.types@.take(i)) + self.types@[i].item_size,
            ),
            payload_offset(self@, i) == sizes_sum(self.types@.take(i)),
        decreases i,
    {
        self.lemma_view_len();
        let off = sizes_sum(self.types@.take(i)) as int;
        let sz = self.types@[i].item_size as int;
        lemma_sizes_sum_take_step(self.types@, i);
        lemma_sizes_sum_take_le(self.types@, i + 1);
        let ts1 = self.types@.take(i);
        let ts2 = self.types@.skip(i);
        let s1 = self.storage@.take(off);
        let s2 = self.storage@.skip(off);
        assert(ts1 + ts2 =~= self.types@);
        assert(s1 + s2 =~= self.storage@);
        lemma_any_items_concat(ts1, ts2, s1, s2);
        assert(self@ == any_items(ts1, s1) + any_items(ts2, s2));
        lemma_any_items_len(ts1, s1);
        assert(ts2[0] == self.types@[i]);
        assert(self@[i] == any_items(ts2, s2)[0]);
        assert(any_items(ts2, s2)[0] == (ts2[0].type_tag, s2.take(ts2[0].item_size as int)));
        assert(s2.take(sz) =~= self.storage@.subrange(off, off + sz));
        if i > 0 {
            self.lemma_view_at(i - 1);
            lemma_sizes_sum_take_step(self.types@, i - 1);
        }
    }

    /// Reading yields one item per described slot.
    proof fn lemma_view_len(&self)
        requires
            self.wf(),
        ensures
            self@.len() == self.types@.len(),
    {
        lemma_any_items_len(self.types@, self.storage@);
    }

    /// An empty heterogeneous vector.
    pub fn new() -> (r: AnyVec)
        ensures
            r@ =~= Seq::<(u64, Seq<u8>)>::empty(),
            r.wf(),
            r.spec_total_size() == 0,
    {
        AnyVec { storage: Vec::new(), types: Vec::new() }
    }

    /// How many values are stored.
    pub fn len(&self) -> (r: usize)
        requires
            self.wf(),
        ensures
            r == self@.len(),
    {
        proof {
            self.lemma_view_len();
        }
        self.types.len()
    }

    /// Splices `value` in front of slot `index` under `type_tag`, shifting
    /// the values behind it.
    pub fn insert(&mut self, index: usize, type_tag: u64, value: &Vec<u8>)
        requires
            old(self).wf(),
            index <= old(self)@.len(),
            old(self).spec_total_size() + value@.len() <= usize::MAX,
            old(self)@.len() < usize::MAX,
        ensures
            final(self).wf(),
            final(self)@ == old(self)@.insert(index as int, (type_tag, value@)),
    {
        proof {
            self.lemma_view_len();
            lemma_sizes_sum_take_le(self.types@, index as int);
        }
        let ghost old_self = *self;
        let ghost old_s = self.storage@;
        let blen = self.storage.len();

        // the byte offset of slot `index`
        let mut offset: usize = 0;
        let mut j: usize = 0;
        while j < index
            invariant
                j <= index,
                index <= self.types@.len(),
                self.wf(),
                *self == old_self,
                blen == self.storage@.len(),
                offset == sizes_sum(self.types@.take(j as int)),
                offset <= blen,
            decreases index - j,
        {
            proof {
                lemma_sizes_sum_take_step(self.types@, j as int);
                lemma_sizes_sum_take_le(self.types@, j + 1);
            }
            offset = offset + self.types[j].item_size;
            j += 1;
        }
        proof {
            lemma_sizes_sum_take_le(self.types@, index as int);
        }

        let ghost x = old_s.take(offset as int);
        let ghost z = old_s.skip(offset as int);
        // splice the payload bytes in at the offset
        let mut k: usize = 0;
        while k < value.len()
            invariant
                k <= value@.len(),
                offset == sizes_sum(old_self.types@.take(index as int)),
                offset <= old_s.len(),
                old_s.len() + value@.len() <= usize::MAX,
                x == old_s.take(offset as int),
                z == old_s.skip(offset as int),
                self.types@ == old_self.types@,
                self.storage@ =~= x + value@.take(k as int) + z,
            decreases value@.len() - k,
        {
            self.storage.insert(offset + k, value[k]);
            proof {
                let prev = x + value@.take(k as int) + z;
                assert(self.storage@ =~= x + value@.take(k + 1) + z) by {
                    assert(self.storage@ == prev.insert(offset + k, value@[k as int]));
                    assert forall|m: int| 0 <= m < self.storage@.len() implies self.storage@[m]
                        == (x + value@.take(k + 1) + z)[m] by {
                        assert(prev.insert(offset + k, value@[k as int])[m] == if m < offset
                            + k {
                            prev[m]
                        } else if m == offset + k {
                            value@[k as int]
                        } else {
                            prev[m - 1]
                        });
                    }
                }
            }
            k += 1;
        }
        let info = ItemInfo { type_tag, item_size: value.len() };
        self.types.insert(index, info);
        proof {
            assert(value@.take(value@.len() as int) =~= value@);
            assert(self.storage@ =~= x + (value@ + z));
            let ts1 = old_self.types@.take(index as int);
            let ts2 = old_self.types@.skip(index as int);
            assert(self.types@ =~= ts1 + (seq![info] + ts2));
            assert(sizes_sum(seq![info].drop_first()) == 0) by {
                assert(seq![info].drop_first() =~= Seq::<ItemInfo>::empty());
            }
            assert(sizes_sum(seq![info]) == value@.len());
            lemma_any_items_concat(ts1, seq![info] + ts2, x, value@ + z);
            lemma_any_items_concat(seq![info], ts2, value@, z);
            lemma_any_items_single(info, value@);
            lemma_any_items_len(ts1, x);
            assert(old_s =~= x + z);
            assert(old_self.types@ =~= ts1 + ts2);
            lemma_any_items_concat(ts1, ts2, x, z);
            assert(final(self)@ =~= old(self)@.insert(index as int, (type_tag, value@))) by {
                let before = any_items(ts1, x);
                let after = any_items(ts2, z);
                assert(old(self)@.subrange(0, index as int) =~= before);
                assert(old(self)@.subrange(index as int, old(self)@.len() as int) =~= after);
            }
            assert(final(self).wf()) by {
                lemma_sizes_sum_concat(ts1, seq![info] + ts2);
                lemma_sizes_sum_concat(seq![info], ts2);
                lemma_sizes_sum_concat(ts1, ts2);
            }
        }
    }

    /// Drops the value in slot `index` and closes the gap.
    pub(crate) fn remove(&mut self, index: usize)
        requires
            old(self).wf(),
            index < old(self)@.len(),
        ensures
            final(self).wf(),
            final(self)@ == old(self)@.remove(index as int),
            final(self).spec_total_size() == old(self).spec_total_size() - old(
                self,
            )@[index as int].1.len(),
    {
        proof {
            self.lemma_view_len();
            self.lemma_view_at(index as int);
        }
        let ghost old_self = *self;
        let ghost old_s = self.storage@;
        let blen = self.storage.len();

        // the byte offset of slot `index`
        let mut offset: usize = 0;
        let mut j: usize = 0;
        while j < index
            invariant
                j <= index,
                index < self.types@.len(),
                self.wf(),
                *self == old_self,
                blen == self.storage@.len(),
                offset == sizes_sum(self.types@.take(j as int)),
                offset <= blen,
            decreases index - j,
        {
            proof {
                lemma_sizes_sum_take_step(self.types@, j as int);
                lemma_sizes_sum_take_le(self.types@, j + 1);
            }
            offset = offset + self.types[j].item_size;
            j += 1;
        }
        proof {
            lemma_sizes_sum_take_step(self.types@, index as int);
            lemma_sizes_sum_take_le(self.types@, index + 1);
        }
        let size = self.types[index].item_size;
        let ghost x = old_s.take(offset as int);
        let mut k: usize = 0;
        while k < size
            invariant
                k <= size,
                size == old_self.types@[index as int].item_size,
                offset == sizes_sum(old_self.types@.take(index as int)),
                offset + size <= old_s.len(),
                x == old_s.take(offset as int),
                self.types@ == old_self.types@,
                self.storage@ =~= x + old_s.skip(offset + k),
            decreases size - k,
        {
            self.storage.remove(offset);
            proof {
                let prev = x + old_s.skip(offset + k);
                assert(self.storage@ =~= x + old_s.skip(offset + k + 1)) by {
                    assert(self.storage@ == prev.remove(offset as int));
                    assert forall|m: int| 0 <= m < self.storage@.len() implies self.storage@[m]
                        == (x + old_s.skip(offset + k + 1))[m] by {
                        assert(prev.remove(offset as int)[m] == if m < offset {
                            prev[m]
                        } else {
                            prev[m + 1]
                        });
                    }
                }
            }
            k += 1;
        }
        self.types.remove(index);
        proof {
            let ts1 = old_self.types@.take(index as int);
            let info = old_self.types@[index as int];
            let ts2 = old_self.types@.skip(index + 1);
            let p = old_s.subrange(offset as int, offset + size);
            let z = old_s.skip(offset + size);
            assert(self.types@ =~= ts1 + ts2);
            assert(self.storage@ =~= x + z);
            lemma_any_items_concat(ts1, ts2, x, z);
            assert(old_self.types@ =~= ts1 + (seq![info] + ts2));
            assert(old_s =~= x + (p + z));
            assert(sizes_sum(seq![info].drop_first()) == 0) by {
                assert(seq![info].drop_first() =~= Seq::<ItemInfo>::empty());
            }
            lemma_any_items_concat(ts1, seq![info] + ts2, x, p + z);
            lemma_any_items_concat(seq![info], ts2, p, z);
            lemma_any_items_single(info, p);
            lemma_any_items_len(ts1, x);
            assert(final(self)@ =~= old(self)@.remove(index as int)) by {
                let before = any_items(ts1, x);
                let after = any_items(ts2, z);
                assert(old(self)@.subrange(0, index as int) =~= before);
                assert(old(self)@.subrange(index + 1, old(self)@.len() as int) =~= after);
            }
            assert(final(self).wf()) by {
                lemma_sizes_sum_concat(ts1, seq![info] + ts2);
                lemma_sizes_sum_concat(seq![info], ts2);
                lemma_sizes_sum_concat(ts1, ts2);
            }
        }
    }

    /// Total bytes the stored payloads occupy.
    pub closed spec fn spec_total_size(&self) -> nat {
        sizes_sum(self.types@)
    }

    /// The sum of the stored payload sizes is the total size.
    pub proof fn lemma_total_size(&self)
        requires
            self.wf(),
        ensures
            self.spec_total_size() == payload_offset(self@, self@.len() as int),
    {
        self.lemma_view_len();
        if self.types@.len() == 0 {
        } else {
            self.lemma_view_at(self.types@.len() - 1);
            lemma_sizes_sum_take_step(self.types@, self.types@.len() - 1);
            assert(self.types@.take(self.types@.len() as int) =~= self.types@);
        }
    }

    /// The payload of slot `index`, copied out.  Requesting a slot under
    /// the wrong tag is a programming error and is ruled out by contract.
    pub fn get(&self, index: usize, type_tag: u64) -> (r: Option<Vec<u8>>)
        requires
            self.wf(),
            index < self@.len(),
            self@[index as int].0 == type_tag,
        ensures
            r is Some && r->Some_0@ == self@[index as int].1,
    {
        proof {
            self.lemma_view_len();
            self.lemma_view_at(index as int);
            lemma_sizes_sum_take_le(self.types@, index + 1);
            lemma_sizes_sum_take_step(self.types@, index as int);
        }
        let blen = self.storage.len();
        // the byte offset of slot `index`
        let mut offset: usize = 0;
        let mut j: usize = 0;
        while j < index
            invariant
                j <= index,
                index < self.types@.len(),
                self.wf(),
                blen == self.storage@.len(),
                offset == sizes_sum(self.types@.take(j as int)),
                offset <= blen,
            decreases index - j,
        {
            proof {
                lemma_sizes_sum_take_step(self.types@, j as int);
                lemma_sizes_sum_take_le(self.types@, j + 1);
            }
            offset = offset + self.types[j].item_size;
            j += 1;
        }
        let size = self.types[index].item_size;
        let mut out: Vec<u8> = Vec::new();
        let mut m: usize = 0;
        while m < size
            invariant
                m <= size,
                size == self.types@[index as int].item_size,
                offset == sizes_sum(self.types@.take(index as int)),
                offset + size <= blen,
                blen == self.storage@.len(),
                out@ =~= self.storage@.subrange(offset as int, offset + m),
            decreases size - m,
        {
            out.push(self.storage[offset + m]);
            proof {
                assert(out@ =~= self.storage@.subrange(offset as int, offset + m + 1));
            }
            m += 1;
        }
        proof {
            assert(out@ =~= self@[index as int].1);
        }
        Some(out)
    }
}

/// Reading yields one item per described slot.
proof fn lemma_any_items_len(ts: Seq<ItemInfo>, s: Seq<u8>)
    ensures
        any_items(ts, s).len() == ts.len(),
    decreases ts.len(),
{
    if ts.len() > 0 {
        lemma_any_items_len(ts.drop_first(), s.skip(ts[0].item_size as int));
    }
}

} // verus!
