//! The capture-loop state machine: one `Monitor` value carries the flow
//! accumulator and the interval scheduler state. The loop that owns the
//! capture channel feeds each read outcome to [`Monitor::step`], then asks
//! [`Monitor::should_flush`] whether the interval has elapsed and, if so,
//! takes the snapshot with [`Monitor::flush`].
//!
//! Capturing is the sole steady state: a frame or a timeout keeps the loop
//! running, a fatal read error aborts it, and neither a timeout nor an
//! undecodable frame touches the accumulator or the flush timer.
use vstd::prelude::*;

use crate::accum::{apply_add, apply_all, count_of, total_of, Accumulator, represents};
use crate::decode::{decode_frame, spec_decode};
use crate::flow::FlowKey;

verus! {

/// One outcome of a channel read, as the capture loop hands it in.
pub enum Event {
    /// A raw frame arrived.
    Frame(Vec<u8>),
    /// No frame arrived within the read timeout; not a failure.
    TimedOut,
    /// A fatal read error.
    ReadError,
}

/// What the capture loop must do after a step.
#[derive(Clone, Copy, Debug, PartialEq, Eq, Structural)]
pub enum Outcome {
    /// Keep capturing.
    Continue,
    /// Abort the loop: the read failed fatally.
    Abort,
}

/// The accumulator mapping after one read outcome is processed: a decoded
/// frame is recorded under its flow key, everything else leaves the
/// mapping untouched.
pub open spec fn counts_after(m: Map<FlowKey, u64>, e: Event) -> Map<FlowKey, u64> {
    match e {
        Event::Frame(f) => match spec_decode(f@) {
            Some((k, size)) => apply_add(m, k, size),
            None => m,
        },
        Event::TimedOut => m,
        Event::ReadError => m,
    }
}

/// The accumulator mapping after a whole sequence of read outcomes is
/// processed, in order.
pub open spec fn counts_after_all(m: Map<FlowKey, u64>, es: Seq<Event>) -> Map<FlowKey, u64>
    decreases es.len(),
{
    if es.len() == 0 {
        m
    } else {
        counts_after(counts_after_all(m, es.drop_last()), es.last())
    }
}

/// The (key, size) pairs that the decoder extracts from a sequence of
/// read outcomes, in order; timeouts, errors and dropped frames
/// contribute nothing.
pub open spec fn decoded_pairs(es: Seq<Event>) -> Seq<(FlowKey, u64)>
    decreases es.len(),
{
    if es.len() == 0 {
        Seq::empty()
    } else {
        decoded_pairs(es.drop_last()) + (match es.last() {
            Event::Frame(f) => match spec_decode(f@) {
                Some(p) => seq![p],
                None => Seq::empty(),
            },
            Event::TimedOut => Seq::empty(),
            Event::ReadError => Seq::empty(),
        })
    }
}

/// Law: processing a sequence of read outcomes accumulates exactly the
/// pairs the decoder extracts from it, in order — the capture loop adds
/// nothing and loses nothing.
pub proof fn lemma_counts_are_decoded_pairs(m: Map<FlowKey, u64>, es: Seq<Event>)
    ensures
        counts_after_all(m, es) == apply_all(m, decoded_pairs(es)),
    decreases es.len(),
{
    if es.len() > 0 {
        let d = es.drop_last();
        lemma_counts_are_decoded_pairs(m, d);
        let dp = decoded_pairs(d);
        match es.last() {
            Event::Frame(f) => {
                match spec_decode(f@) {
                    Some(p) => {
                        assert((dp + seq![p]).drop_last() =~= dp);
                        assert((dp + seq![p]).last() == p);
                    },
                    None => {
                        assert(dp + Seq::<(FlowKey, u64)>::empty() =~= dp);
                    },
                }
            },
            Event::TimedOut => {
                assert(dp + Seq::<(FlowKey, u64)>::empty() =~= dp);
            },
            Event::ReadError => {
                assert(dp + Seq::<(FlowKey, u64)>::empty() =~= dp);
            },
        }
    }
}

/// Law: for any sequence of read outcomes whose frames all decode to one
/// flow key — one interval of traffic of a single flow — the entry
/// recorded for that key after processing them from empty is the
/// (saturating) sum of the frames' IP total-length fields.
pub proof fn lemma_single_flow_interval(es: Seq<Event>, k: FlowKey)
    requires
        forall|i: int|
            0 <= i < es.len() ==> ((#[trigger] es[i]) matches Event::Frame(f) && spec_decode(f@)
                matches Some(p) && p.0 == k),
    ensures
        count_of(counts_after_all(Map::empty(), es), k) == total_of(decoded_pairs(es)),
{
    lemma_counts_are_decoded_pairs(Map::empty(), es);
    lemma_decoded_pairs_keys(es, k);
    crate::accum::lemma_single_flow_total(decoded_pairs(es), k);
}

proof fn lemma_decoded_pairs_keys(es: Seq<Event>, k: FlowKey)
    requires
        forall|i: int|
            0 <= i < es.len() ==> ((#[trigger] es[i]) matches Event::Frame(f) && spec_decode(f@)
                matches Some(p) && p.0 == k),
    ensures
        forall|i: int| 0 <= i < decoded_pairs(es).len() ==> (#[trigger] decoded_pairs(es)[i]).0
            == k,
    decreases es.len(),
{
    if es.len() > 0 {
        let d = es.drop_last();
        assert(forall|i: int| 0 <= i < d.len() ==> (#[trigger] d[i]) == es[i]);
        lemma_decoded_pairs_keys(d, k);
        assert(es[es.len() - 1] matches Event::Frame(f) && spec_decode(f@) matches Some(p)
            && p.0 == k);
    }
}

/// Law: a read outcome that carries no decodable IPv4/TCP or IPv4/UDP
/// frame — a timeout, a read error, or a frame the decoder drops — leaves
/// the accumulator mapping exactly as it was.
pub proof fn lemma_non_counting_event_ignored(m: Map<FlowKey, u64>, e: Event)
    requires
        match e {
            Event::Frame(f) => spec_decode(f@) == None::<(FlowKey, u64)>,
            Event::TimedOut => true,
            Event::ReadError => true,
        },
    ensures
        counts_after(m, e) == m,
{
}

/// The per-interval monitor state: flow counts, the time of the last
/// flush, and the configured interval, both in whole seconds of a
/// monotonic clock.
pub struct Monitor {
    accum: Accumulator,
    last_flush: u64,
    interval: u64,
}

impl Monitor {
    /// The flow counts of the current interval.
    pub closed spec fn counts(&self) -> Map<FlowKey, u64> {
        self.accum@
    }

    /// The monotonic timestamp of the last flush, in seconds.
    pub closed spec fn last_flush(&self) -> u64 {
        self.last_flush
    }

    /// The configured flush interval, in seconds.
    pub closed spec fn interval(&self) -> u64 {
        self.interval
    }

    /// Internal well-formedness, established by `new` and preserved by
    /// every transition.
    pub closed spec fn wf(&self) -> bool {
        self.accum.wf()
    }

    /// Start monitoring: empty counts, the flush timer set to `now`.
    pub fn new(interval: u64, now: u64) -> (m: Monitor)
        ensures
            m.wf(),
            m.counts() == Map::<FlowKey, u64>::empty(),
            m.last_flush() == now,
            m.interval() == interval,
    {
        Monitor { accum: Accumulator::new(), last_flush: now, interval }
    }

    /// Process one read outcome. A decodable IPv4/TCP or IPv4/UDP frame
    /// adds its IPv4 total length under its flow key; any other frame,
    /// and a timeout, changes nothing. Only a fatal read error asks the
    /// loop to abort. No step moves the flush timer.
    pub fn step(&mut self, event: Event) -> (o: Outcome)
        requires
            old(self).wf(),
        ensures
            final(self).wf(),
            final(self).counts() == counts_after(old(self).counts(), event),
            final(self).last_flush() == old(self).last_flush(),
            final(self).interval() == old(self).interval(),
            o == (match event {
                Event::ReadError => Outcome::Abort,
                _ => Outcome::Continue,
            }),
    {
        match event {
            Event::Frame(frame) => {
                match decode_frame(&frame) {
                    Some((key, size)) => {
                        self.accum.add(key, size);
                    },
                    None => {},
                }
                Outcome::Continue
            },
            Event::TimedOut => Outcome::Continue,
            Event::ReadError => Outcome::Abort,
        }
    }

    /// Whether the interval has elapsed: true exactly when `now` has
    /// reached or passed the last flush plus the configured interval.
    pub fn should_flush(&self, now: u64) -> (r: bool)
        ensures
            r == (now >= self.last_flush() && now - self.last_flush() >= self.interval()),
    {
        now >= self.last_flush && now - self.last_flush >= self.interval
    }

    /// Flush the interval: hand back a snapshot of the counts as rows,
    /// one per flow in an unspecified order, then clear the counts and
    /// restart the timer at `now`.
    pub fn flush(&mut self, now: u64) -> (rows: Vec<(FlowKey, u64)>)
        requires
            old(self).wf(),
        ensures
            final(self).wf(),
            represents(rows@, old(self).counts()),
            final(self).counts() == Map::<FlowKey, u64>::empty(),
            final(self).last_flush() == now,
            final(self).interval() == old(self).interval(),
    {
        let rows = self.accum.snapshot();
        self.accum.clear();
        self.last_flush = now;
        rows
    }

    /// The count currently recorded for `key`; zero when the key is
    /// absent.
    pub fn count_for(&self, key: FlowKey) -> (r: u64)
        requires
            self.wf(),
        ensures
            r == count_of(self.counts(), key),
    {
        self.accum.get(key)
    }

    /// The number of flows currently recorded.
    pub fn flow_count(&self) -> (n: usize)
        requires
            self.wf(),
        ensures
            n == self.counts().dom().len(),
    {
        self.accum.len()
    }
}

} // verus!
