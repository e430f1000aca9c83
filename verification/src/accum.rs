//! The flow accumulator: a mapping from flow key to the cumulative byte
//! count of the current interval. Counts saturate at `u64::MAX` instead of
//! wrapping; below that bound the recorded total for a key is exactly the
//! sum of the sizes added under it since the last clear.
use vstd::prelude::*;

use crate::flow::FlowKey;

verus! {

/// Saturating addition on counters: the mathematical sum, capped at
/// `u64::MAX`.
pub open spec fn sat_add(a: u64, b: u64) -> u64 {
    if a + b > u64::MAX {
        u64::MAX
    } else {
        (a + b) as u64
    }
}

/// The count recorded for `k` in `m`: its entry, or zero when absent.
pub open spec fn count_of(m: Map<FlowKey, u64>, k: FlowKey) -> u64 {
    if m.dom().contains(k) {
        m[k]
    } else {
        0
    }
}

/// The mapping after one decoded packet of `size` bytes under `k` is
/// recorded in `m`.
pub open spec fn apply_add(m: Map<FlowKey, u64>, k: FlowKey, size: u64) -> Map<FlowKey, u64> {
    m.insert(k, sat_add(count_of(m, k), size))
}

/// The mapping after a sequence of decoded packets is recorded in `m`,
/// in order.
pub open spec fn apply_all(m: Map<FlowKey, u64>, ps: Seq<(FlowKey, u64)>) -> Map<FlowKey, u64>
    decreases ps.len(),
{
    if ps.len() == 0 {
        m
    } else {
        apply_add(apply_all(m, ps.drop_last()), ps.last().0, ps.last().1)
    }
}

/// The saturating sum of the sizes of a sequence of decoded packets.
pub open spec fn total_of(ps: Seq<(FlowKey, u64)>) -> u64
    decreases ps.len(),
{
    if ps.len() == 0 {
        0
    } else {
        sat_add(total_of(ps.drop_last()), ps.last().1)
    }
}

proof fn lemma_flow_total_from(m: Map<FlowKey, u64>, ps: Seq<(FlowKey, u64)>, k: FlowKey)
    requires
        forall|i: int| 0 <= i < ps.len() ==> (#[trigger] ps[i]).0 == k,
    ensures
        count_of(apply_all(m, ps), k) == sat_add(count_of(m, k), total_of(ps)),
    decreases ps.len(),
{
    if ps.len() > 0 {
        let d = ps.drop_last();
        assert(forall|i: int| 0 <= i < d.len() ==> (#[trigger] d[i]) == ps[i]);
        lemma_flow_total_from(m, d, k);
        assert(ps[ps.len() - 1].0 == k);
    }
}

/// Law: for any sequence of decoded packets all carrying one flow key, the
/// count recorded for that key after accumulating them from empty is the
/// (saturating) sum of their sizes — in particular, below `u64::MAX` it is
/// exactly the sum of the IP total-length fields the decoder extracted.
pub proof fn lemma_single_flow_total(ps: Seq<(FlowKey, u64)>, k: FlowKey)
    requires
        forall|i: int| 0 <= i < ps.len() ==> (#[trigger] ps[i]).0 == k,
    ensures
        count_of(apply_all(Map::empty(), ps), k) == total_of(ps),
{
    lemma_flow_total_from(Map::empty(), ps, k);
}

/// Law: recording is commutative — two decoded packets recorded in either
/// order, sharing a key or not, yield the same mapping.
pub proof fn lemma_apply_add_comm(m: Map<FlowKey, u64>, k1: FlowKey, s1: u64, k2: FlowKey, s2: u64)
    ensures
        apply_add(apply_add(m, k1, s1), k2, s2) == apply_add(apply_add(m, k2, s2), k1, s1),
{
    assert(apply_add(apply_add(m, k1, s1), k2, s2) =~= apply_add(apply_add(m, k2, s2), k1, s1));
}

/// Law: recording is associative in the sizes — recording `s1` and then
/// `s2` under one key is recording their (saturating) sum at once.
pub proof fn lemma_apply_add_fuse(m: Map<FlowKey, u64>, k: FlowKey, s1: u64, s2: u64)
    ensures
        apply_add(apply_add(m, k, s1), k, s2) == apply_add(m, k, sat_add(s1, s2)),
{
    assert(apply_add(apply_add(m, k, s1), k, s2) =~= apply_add(m, k, sat_add(s1, s2)));
}

proof fn lemma_apply_all_remove(m: Map<FlowKey, u64>, ps: Seq<(FlowKey, u64)>, j: int)
    requires
        0 <= j < ps.len(),
    ensures
        apply_all(m, ps) == apply_add(apply_all(m, ps.remove(j)), ps[j].0, ps[j].1),
    decreases ps.len(),
{
    if j == ps.len() - 1 {
        assert(ps.remove(j) =~= ps.drop_last());
    } else {
        let d = ps.drop_last();
        assert(d[j] == ps[j]);
        lemma_apply_all_remove(m, d, j);
        lemma_apply_add_comm(
            apply_all(m, d.remove(j)),
            d[j].0,
            d[j].1,
            ps.last().0,
            ps.last().1,
        );
        assert(ps.remove(j).drop_last() =~= d.remove(j));
        assert(ps.remove(j).last() == ps.last());
    }
}

/// Law: accumulation is order-independent. Permuting the arrival order of
/// a fixed set of decoded packets — any two sequences with the same
/// multiset of (key, size) pairs — yields the same final mapping, from any
/// starting mapping.
pub proof fn lemma_order_independent(
    m: Map<FlowKey, u64>,
    ps1: Seq<(FlowKey, u64)>,
    ps2: Seq<(FlowKey, u64)>,
)
    requires
        ps1.to_multiset() == ps2.to_multiset(),
    ensures
        apply_all(m, ps1) == apply_all(m, ps2),
    decreases ps1.len(),
{
    ps1.to_multiset_ensures();
    ps2.to_multiset_ensures();
    if ps1.len() == 0 {
        assert(ps2.len() == 0);
    } else {
        let x = ps1.last();
        assert(ps1[ps1.len() - 1] == x);
        assert(ps1.contains(x));
        assert(ps2.to_multiset().count(x) > 0);
        assert(ps2.contains(x));
        let j = choose|j: int| 0 <= j < ps2.len() && ps2[j] == x;
        assert(ps1.remove(ps1.len() - 1) =~= ps1.drop_last());
        assert(ps1.drop_last().to_multiset() == ps1.to_multiset().remove(x));
        assert(ps2.remove(j).to_multiset() == ps2.to_multiset().remove(x));
        lemma_order_independent(m, ps1.drop_last(), ps2.remove(j));
        lemma_apply_all_remove(m, ps2, j);
    }
}

/// Law: after a clear, counting starts again from zero — the first add on
/// any key, previously populated or not, records exactly its own size.
pub proof fn lemma_restart_from_zero(k: FlowKey, size: u64)
    ensures
        count_of(apply_add(Map::empty(), k, size), k) == size,
{
}

/// Whether a snapshot row list faithfully represents a mapping: each key
/// appears on exactly one row, paired with its count.
pub open spec fn represents(rows: Seq<(FlowKey, u64)>, m: Map<FlowKey, u64>) -> bool {
    &&& forall|i: int, j: int|
        0 <= i < j < rows.len() ==> (#[trigger] rows[i]).0 != (#[trigger] rows[j]).0
    &&& forall|i: int| 0 <= i < rows.len() ==> m.contains_pair((#[trigger] rows[i]).0, rows[i].1)
    &&& forall|k: FlowKey|
        m.dom().contains(k) ==> exists|i: int| 0 <= i < rows.len() && (#[trigger] rows[i]).0 == k
}

/// Per-flow byte counts for the current interval, keyed by the directional
/// 5-tuple. Entry order carries no meaning.
pub struct Accumulator {
    entries: Vec<(FlowKey, u64)>,
}

impl Accumulator {
    /// The mapping this accumulator holds.
    pub closed spec fn view(&self) -> Map<FlowKey, u64> {
        Self::map_of(self.entries@)
    }

    spec fn map_of(s: Seq<(FlowKey, u64)>) -> Map<FlowKey, u64>
        decreases s.len(),
    {
        if s.len() == 0 {
            Map::empty()
        } else {
            Self::map_of(s.drop_last()).insert(s.last().0, s.last().1)
        }
    }

    spec fn distinct_keys(s: Seq<(FlowKey, u64)>) -> bool {
        forall|i: int, j: int| 0 <= i < j < s.len() ==> (#[trigger] s[i]).0 != (#[trigger] s[j]).0
    }

    /// Internal well-formedness: no key occupies two entries.
    pub closed spec fn wf(&self) -> bool {
        Self::distinct_keys(self.entries@)
    }

    proof fn lemma_map_of_props(s: Seq<(FlowKey, u64)>)
        requires
            Self::distinct_keys(s),
        ensures
            forall|k: FlowKey|
                Self::map_of(s).dom().contains(k) <==> exists|i: int|
                    0 <= i < s.len() && (#[trigger] s[i]).0 == k,
            forall|i: int|
                0 <= i < s.len() ==> Self::map_of(s)[(#[trigger] s[i]).0] == s[i].1,
        decreases s.len(),
    {
        if s.len() > 0 {
            let d = s.drop_last();
            assert(Self::distinct_keys(d));
            Self::lemma_map_of_props(d);
            assert forall|i: int| 0 <= i < s.len() implies Self::map_of(s)[(#[trigger] s[i]).0]
                == s[i].1 by {
                if i < s.len() - 1 {
                    assert(s[i] == d[i]);
                    assert(s[i].0 != s.last().0);
                }
            }
            assert forall|k: FlowKey| Self::map_of(s).dom().contains(k) implies exists|i: int|
                0 <= i < s.len() && (#[trigger] s[i]).0 == k by {
                if k == s.last().0 {
                    assert(s[s.len() - 1].0 == k);
                } else {
                    assert(Self::map_of(d).dom().contains(k));
                    assert(exists|i: int| 0 <= i < d.len() && (#[trigger] d[i]).0 == k);
                    let i = choose|i: int| 0 <= i < d.len() && (#[trigger] d[i]).0 == k;
                    assert(d[i] == s[i]);
                    assert(s[i].0 == k);
                }
            }
            assert forall|k: FlowKey| (exists|i: int|
                0 <= i < s.len() && (#[trigger] s[i]).0 == k) implies Self::map_of(
                s,
            ).dom().contains(k) by {
                let i = choose|i: int| 0 <= i < s.len() && (#[trigger] s[i]).0 == k;
                if i < s.len() - 1 {
                    assert(d[i] == s[i]);
                    assert(d[i].0 == k);
                }
            }
        }
    }

    proof fn lemma_map_of_update(s: Seq<(FlowKey, u64)>, i: int, v: u64)
        requires
            Self::distinct_keys(s),
            0 <= i < s.len(),
        ensures
            Self::map_of(s.update(i, (s[i].0, v))) == Self::map_of(s).insert(s[i].0, v),
        decreases s.len(),
    {
        let t = s.update(i, (s[i].0, v));
        if i == s.len() - 1 {
            assert(t.drop_last() =~= s.drop_last());
            assert(Self::map_of(t) =~= Self::map_of(s).insert(s[i].0, v));
        } else {
            let d = s.drop_last();
            assert(Self::distinct_keys(d));
            assert(d[i] == s[i]);
            Self::lemma_map_of_update(d, i, v);
            assert(t.drop_last() =~= d.update(i, (d[i].0, v)));
            assert(t.last() == s.last());
            assert(s[i].0 != s.last().0);
            assert(Self::map_of(t) =~= Self::map_of(s).insert(s[i].0, v));
        }
    }

    /// Create an empty accumulator.
    pub fn new() -> (a: Accumulator)
        ensures
            a.wf(),
            a@ == Map::<FlowKey, u64>::empty(),
    {
        Accumulator { entries: Vec::new() }
    }

    /// Record `size` bytes under `key`: get-or-create a zero entry, then
    /// add (saturating at `u64::MAX`).
    pub fn add(&mut self, key: FlowKey, size: u64)
        requires
            old(self).wf(),
        ensures
            final(self).wf(),
            final(self)@ == apply_add(old(self)@, key, size),
    {
        let n = self.entries.len();
        let mut i: usize = 0;
        while i < n
            invariant
                n == self.entries.len(),
                i <= n,
                self == old(self),
                old(self).wf(),
                forall|j: int| 0 <= j < i ==> (#[trigger] self.entries@[j]).0 != key,
            decreases n - i,
        {
            if self.entries[i].0 == key {
                let cur = self.entries[i].1;
                let updated: u64 = if cur > u64::MAX - size {
                    u64::MAX
                } else {
                    cur + size
                };
                proof {
                    Self::lemma_map_of_props(self.entries@);
                    assert(self@.dom().contains(key));
                    assert(self@[key] == cur);
                    Self::lemma_map_of_update(self.entries@, i as int, updated);
                }
                self.entries.set(i, (key, updated));
                assert(Self::distinct_keys(self.entries@)) by {
                    assert(forall|j: int|
                        0 <= j < self.entries@.len() ==> (#[trigger] self.entries@[j]).0 == old(
                            self,
                        ).entries@[j].0);
                }
                return;
            }
            i += 1;
        }
        proof {
            Self::lemma_map_of_props(self.entries@);
            assert(!self@.dom().contains(key));
        }
        self.entries.push((key, size));
        proof {
            assert(self.entries@.drop_last() =~= old(self).entries@);
            assert(forall|j: int|
                0 <= j < old(self).entries@.len() ==> (#[trigger] self.entries@[j]) == old(
                    self,
                ).entries@[j]);
        }
    }

    /// The count currently recorded for `key`; zero when the key is absent.
    pub fn get(&self, key: FlowKey) -> (r: u64)
        requires
            self.wf(),
        ensures
            r == count_of(self@, key),
    {
        let n = self.entries.len();
        let mut i: usize = 0;
        while i < n
            invariant
                n == self.entries.len(),
                i <= n,
                self.wf(),
                forall|j: int| 0 <= j < i ==> (#[trigger] self.entries@[j]).0 != key,
            decreases n - i,
        {
            if self.entries[i].0 == key {
                proof {
                    Self::lemma_map_of_props(self.entries@);
                }
                return self.entries[i].1;
            }
            i += 1;
        }
        proof {
            Self::lemma_map_of_props(self.entries@);
        }
        0
    }

    /// The number of flows currently recorded.
    pub fn len(&self) -> (n: usize)
        requires
            self.wf(),
        ensures
            n == self@.dom().len(),
    {
        proof {
            Self::lemma_len_entries(self.entries@);
        }
        self.entries.len()
    }

    proof fn lemma_len_entries(s: Seq<(FlowKey, u64)>)
        requires
            Self::distinct_keys(s),
        ensures
            Self::map_of(s).dom().len() == s.len(),
            Self::map_of(s).dom().finite(),
        decreases s.len(),
    {
        if s.len() > 0 {
            let d = s.drop_last();
            assert(Self::distinct_keys(d));
            Self::lemma_len_entries(d);
            Self::lemma_map_of_props(d);
            assert(!Self::map_of(d).dom().contains(s.last().0));
        }
    }

    /// Empty the mapping entirely.
    pub fn clear(&mut self)
        ensures
            final(self).wf(),
            final(self)@ == Map::<FlowKey, u64>::empty(),
    {
        self.entries.clear();
    }

    /// A snapshot of the current mapping as rows, one per flow, in an
    /// unspecified order.
    pub fn snapshot(&self) -> (rows: Vec<(FlowKey, u64)>)
        requires
            self.wf(),
        ensures
            represents(rows@, self@),
    {
        let n = self.entries.len();
        let mut rows: Vec<(FlowKey, u64)> = Vec::new();
        let mut i: usize = 0;
        while i < n
            invariant
                n == self.entries.len(),
                i <= n,
                self.wf(),
                rows@ == self.entries@.subrange(0, i as int),
            decreases n - i,
        {
            let p = self.entries[i];
            rows.push(p);
            proof {
                assert(rows@ =~= self.entries@.subrange(0, i + 1));
            }
            i += 1;
        }
        proof {
            assert(rows@ =~= self.entries@);
            Self::lemma_map_of_props(self.entries@);
        }
        rows
    }
}

} // verus!
