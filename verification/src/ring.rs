//! The buffer of recent samples that the user interface draws from.

use crate::float::Single;
use std::collections::VecDeque;
use vstd::prelude::*;

verus! {

/// Samples that are kept: ten minutes at 100 kSps (about 240 MB).
pub const RING_CAP: usize = 60_000_000;

/// Samples per second.
pub const SAMPLES_PER_SECOND: usize = 100_000;

/// Samples that the longest rolling average looks back on: ten seconds.
pub const STATS_WINDOW: usize = 1_000_000;

/// The last `n` samples of a run, or all where there are fewer.
pub open spec fn newest(samples: Seq<Single>, n: int) -> Seq<Single> {
    if samples.len() <= n {
        samples
    } else {
        samples.skip(samples.len() - n)
    }
}

/// Samples in a time window.
pub open spec fn window_len(secs: u16) -> int {
    secs * SAMPLES_PER_SECOND
}

/// Samples that drawing a time window needs: the window itself, and enough for the
/// rolling statistics.
pub open spec fn snapshot_len(secs: u16) -> int {
    if window_len(secs) < STATS_WINDOW {
        STATS_WINDOW as int
    } else {
        window_len(secs)
    }
}

/// A bounded buffer: once it is full, each new sample displaces the oldest.
pub struct SampleRing {
    samples: VecDeque<Single>,
    cap: usize,
}

impl View for SampleRing {
    type V = Seq<Single>;

    closed spec fn view(&self) -> Seq<Single> {
        self.samples@
    }
}

impl SampleRing {
    /// How many samples it keeps.
    pub closed spec fn capacity(self) -> int {
        self.cap as int
    }

    #[verifier::type_invariant]
    closed spec fn bounded(self) -> bool {
        self.cap > 0 && self.samples@.len() <= self.cap
    }

    /// An empty buffer for `cap` samples.
    pub fn new(cap: usize) -> (ring: SampleRing)
        requires
            cap > 0,
        ensures
            ring@ == Seq::<Single>::empty(),
            ring.capacity() == cap,
    {
        SampleRing { samples: VecDeque::with_capacity(cap), cap }
    }

    pub fn len(&self) -> (n: usize)
        ensures
            n == self@.len(),
            n <= self.capacity(),
    {
        proof {
            use_type_invariant(self);
        }
        self.samples.len()
    }

    /// Takes samples in, and drops the oldest where there is no room.
    pub fn record(&mut self, samples: &[Single])
        ensures
            final(self)@ == newest(old(self)@ + samples@, old(self).capacity()),
            final(self).capacity() == old(self).capacity(),
    {
        proof {
            use_type_invariant(&*self);
        }
        let cap: usize = self.cap;
        let ghost before = self.samples@;
        let mut kept: VecDeque<Single> = VecDeque::new();
        std::mem::swap(&mut kept, &mut self.samples);
        let mut i: usize = 0;
        assert(newest(before + samples@.take(0), cap as int) =~= before);
        while i < samples.len()
            invariant
                0 <= i <= samples@.len(),
                cap > 0,
                kept@ == newest(before + samples@.take(i as int), cap as int),
                kept@.len() <= cap,
            decreases samples.len() - i,
        {
            let ghost all = before + samples@.take(i as int);
            if kept.len() == cap {
                kept.pop_front();
            }
            kept.push_back(samples[i]);
            assert(before + samples@.take(i + 1) =~= all.push(samples@[i as int]));
            assert(kept@ =~= newest(all.push(samples@[i as int]), cap as int));
            i += 1;
        }
        assert(samples@.take(i as int) =~= samples@);
        self.samples = kept;
    }

    /// The samples that drawing a time window needs.
    pub fn snapshot(&self, secs: u16) -> (r: Vec<Single>)
        ensures
            r@ == newest(self@, snapshot_len(secs)),
    {
        let window: u64 = secs as u64 * SAMPLES_PER_SECOND as u64;
        let wanted: u64 = if window < STATS_WINDOW as u64 {
            STATS_WINDOW as u64
        } else {
            window
        };
        let len: usize = self.samples.len();
        let skip: usize = if len as u64 <= wanted {
            0
        } else {
            len - wanted as usize
        };
        let mut r: Vec<Single> = Vec::with_capacity(len - skip);
        let mut i: usize = skip;
        while i < len
            invariant
                skip <= i <= len,
                len == self.samples@.len(),
                r@ == self.samples@.subrange(skip as int, i as int),
            decreases len - i,
        {
            r.push(self.samples[i]);
            i += 1;
            assert(r@ =~= self.samples@.subrange(skip as int, i as int));
        }
        assert(r@ =~= newest(self@, snapshot_len(secs)));
        r
    }
}

/// The buffer does not depend on how the samples were batched: recording one run
/// after another keeps what recording them as one run keeps.
pub proof fn law_ring_ignores_batches(
    before: Seq<Single>,
    first: Seq<Single>,
    second: Seq<Single>,
    cap: int,
)
    requires
        cap >= 0,
    ensures
        newest(newest(before + first, cap) + second, cap) == newest(before + (first + second), cap),
{
    assert(newest(newest(before + first, cap) + second, cap) =~= newest(
        before + (first + second),
        cap,
    ));
}

/// A snapshot is enough: the visible window, and what the rolling averages look
/// back on, are the same in it as in the buffer.
pub proof fn law_snapshot_is_enough(samples: Seq<Single>, secs: u16, n: int)
    requires
        0 <= n <= window_len(secs) || 0 <= n <= STATS_WINDOW,
    ensures
        newest(newest(samples, snapshot_len(secs)), n) == newest(samples, n),
{
    assert(newest(newest(samples, snapshot_len(secs)), n) =~= newest(samples, n));
}

} // verus!
