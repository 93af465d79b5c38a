//! The spike filter, which bridges measurement-range changes.

use crate::float::{plus_gives, times_gives, FloatUnit, Single};
use vstd::prelude::*;

verus! {

/// 0.18 in single precision: weight of a new sample in the rolling average.
pub const SPIKE_ALPHA: u32 = 0x3E38_51EC;

/// 1 - 0.18 in single precision.
pub const SPIKE_ALPHA_REST: u32 = 0x3F51_EB85;

/// 0.06 in single precision: weight of a new sample for range 4.
pub const SPIKE_ALPHA_RANGE4: u32 = 0x3D75_C28F;

/// 1 - 0.06 in single precision.
pub const SPIKE_ALPHA_RANGE4_REST: u32 = 0x3F70_A3D7;

/// Samples for which a range change affects the output.
pub const SPIKE_FILTER_SAMPLES: u8 = 3;

/// The two rolling averages of the spike filter.
#[derive(Clone, Copy, Debug, PartialEq, Eq, Structural)]
pub struct Averages {
    /// Average for ranges 0-3.
    pub avg: Single,
    /// Average for range 4.
    pub avg4: Single,
}

/// What the spike filter remembers between samples.
pub struct FilterState {
    pub prev_range: u8,
    /// Samples still to be smoothed.
    pub after_spike: u8,
    /// Samples since the last range change, while they are smoothed.
    pub consecutive: u8,
    /// `None` before the first sample.
    pub averages: Option<Averages>,
}

impl FilterState {
    /// The two counters run against each other: of the three samples of a range
    /// change, those seen and those to come always make up the same number.
    pub open spec fn valid(self) -> bool {
        &&& self.after_spike + self.consecutive == SPIKE_FILTER_SAMPLES - 1 || (self.after_spike
            == 0 && self.consecutive == 0)
        &&& self.averages is None ==> self.after_spike == 0
    }

    /// A sample in this range is the first after a range change.
    pub open spec fn changed(self, range: u8) -> bool {
        self.averages is Some && range != self.prev_range
    }

    /// A sample in this range is smoothed.
    pub open spec fn smooths(self, range: u8) -> bool {
        self.changed(range) || self.after_spike > 0
    }

    /// How many samples separate a smoothed sample from its range change.
    pub open spec fn since_change(self, range: u8) -> int {
        if self.changed(range) {
            0
        } else {
            self.consecutive + 1
        }
    }

    /// A sample in this range straddles a switch into the high-current range:
    /// it does not count towards the averages.
    pub open spec fn discards(self, range: u8) -> bool {
        self.smooths(range) && range >= 4 && self.since_change(range) < 2
    }

    /// The averages once the sample is in, where `next` has it counted.
    pub open spec fn settled(self, range: u8, next: Averages) -> Averages {
        match self.averages {
            Some(prior) => if self.discards(range) {
                prior
            } else {
                next
            },
            None => next,
        }
    }

    /// The value to record for a sample.
    pub open spec fn output(self, ua: Single, range: u8, next: Averages) -> Single {
        if !self.smooths(range) {
            ua
        } else if range >= 4 {
            self.settled(range, next).avg4
        } else {
            self.settled(range, next).avg
        }
    }

    /// The state after a sample. The first sample seeds both averages; `next`
    /// holds the averages with any later sample counted.
    pub open spec fn after(self, ua: Single, range: u8, next: Averages) -> FilterState {
        if self.averages is None {
            FilterState {
                prev_range: range,
                after_spike: self.after_spike,
                consecutive: self.consecutive,
                averages: Some(Averages { avg: ua, avg4: ua }),
            }
        } else {
            FilterState {
                prev_range: range,
                after_spike: if self.changed(range) {
                    (SPIKE_FILTER_SAMPLES - 1) as u8
                } else if self.after_spike > 0 {
                    (self.after_spike - 1) as u8
                } else {
                    0
                },
                consecutive: if self.smooths(range) {
                    self.since_change(range) as u8
                } else {
                    self.consecutive
                },
                averages: Some(self.settled(range, next)),
            }
        }
    }
}

/// `r` is the weighted sum of a sample and an average.
pub open spec fn blend_gives<F: FloatUnit>(
    fpu: &F,
    weight: u32,
    rest: u32,
    ua: Single,
    average: Single,
    r: Single,
) -> bool {
    exists|p: Single, q: Single|
        #[trigger] times_gives(fpu, Single::from_bits(weight), ua, p) && #[trigger] times_gives(
            fpu,
            Single::from_bits(rest),
            average,
            q,
        ) && plus_gives(fpu, p, q, r)
}

/// `next` has the sample counted in both averages, at 0.18 and at 0.06.
pub open spec fn advance_gives<F: FloatUnit>(
    fpu: &F,
    prior: Averages,
    ua: Single,
    next: Averages,
) -> bool {
    &&& blend_gives(fpu, SPIKE_ALPHA, SPIKE_ALPHA_REST, ua, prior.avg, next.avg)
    &&& blend_gives(fpu, SPIKE_ALPHA_RANGE4, SPIKE_ALPHA_RANGE4_REST, ua, prior.avg4, next.avg4)
}

/// Spike filter applied around measurement-range changes.
///
/// Two rolling averages are maintained on every sample, but a smoothed value is
/// only substituted for the output during, and for the two samples after, a
/// range change. Steady-state samples pass through raw, so genuine transients
/// are not attenuated.
pub struct SpikeFilter {
    prev_range: u8,
    after_spike: u8,
    consecutive: u8,
    averages: Option<Averages>,
}

impl View for SpikeFilter {
    type V = FilterState;

    closed spec fn view(&self) -> FilterState {
        FilterState {
            prev_range: self.prev_range,
            after_spike: self.after_spike,
            consecutive: self.consecutive,
            averages: self.averages,
        }
    }
}

fn blend<F: FloatUnit>(fpu: &F, weight: u32, rest: u32, ua: Single, average: Single) -> (r: Single)
    ensures
        blend_gives(fpu, weight, rest, ua, average, r),
{
    let p = fpu.times(Single::from_bits(weight), ua);
    let q = fpu.times(Single::from_bits(rest), average);
    proof {
        assert(times_gives(fpu, Single::from_bits(weight), ua, p));
        assert(times_gives(fpu, Single::from_bits(rest), average, q));
    }
    fpu.plus(p, q)
}

impl SpikeFilter {
    #[verifier::type_invariant]
    closed spec fn counters_agree(self) -> bool {
        self@.valid()
    }

    pub fn new() -> (filter: SpikeFilter)
        ensures
            filter@ == (FilterState {
                prev_range: 0,
                after_spike: 0,
                consecutive: 0,
                averages: None,
            }),
    {
        SpikeFilter { prev_range: 0, after_spike: 0, consecutive: 0, averages: None }
    }

    /// The rolling averages: none before the first sample.
    pub fn averages(&self) -> (r: Option<Averages>)
        ensures
            r == self@.averages,
    {
        self.averages
    }

    /// Takes one sample, with the averages that have it counted, and returns the
    /// value to record. For the first sample `next` is not looked at.
    pub fn step(&mut self, ua: Single, range: u8, next: Averages) -> (out: Single)
        ensures
            final(self)@ == old(self)@.after(ua, range, next),
            out == old(self)@.output(ua, range, next),
            old(self)@.valid(),
            final(self)@.valid(),
    {
        proof {
            use_type_invariant(&*self);
        }
        let prior = match self.averages {
            Some(prior) => prior,
            None => {
                *self = SpikeFilter {
                    prev_range: range,
                    after_spike: self.after_spike,
                    consecutive: self.consecutive,
                    averages: Some(Averages { avg: ua, avg4: ua }),
                };
                return ua;
            },
        };
        let changed = range != self.prev_range;
        if changed || self.after_spike > 0 {
            // A range change is accepted immediately.
            let consecutive: u8 = if changed {
                0
            } else {
                self.consecutive + 1
            };
            let after_spike: u8 = if changed {
                SPIKE_FILTER_SAMPLES
            } else {
                self.after_spike
            };
            // Ranges above 4 are calibrated as range 4.
            let settled = if range >= 4 && consecutive < 2 {
                prior
            } else {
                next
            };
            *self = SpikeFilter {
                prev_range: range,
                after_spike: after_spike - 1,
                consecutive,
                averages: Some(settled),
            };
            if range >= 4 {
                settled.avg4
            } else {
                settled.avg
            }
        } else {
            *self = SpikeFilter {
                prev_range: range,
                after_spike: self.after_spike,
                consecutive: self.consecutive,
                averages: Some(next),
            };
            ua
        }
    }

    /// Applies the filter to one sample. Returns the value to record, in
    /// microamps. Both averages advance on every sample but the first.
    pub fn apply<F: FloatUnit>(&mut self, fpu: &F, ua: Single, range: u8) -> (out: Single)
        ensures
            old(self)@.valid(),
            final(self)@.valid(),
            filter_gives(fpu, old(self)@, ua, range, final(self)@, out),
    {
        proof {
            use_type_invariant(&*self);
        }
        let next = match self.averages {
            Some(prior) => Averages {
                avg: blend(fpu, SPIKE_ALPHA, SPIKE_ALPHA_REST, ua, prior.avg),
                avg4: blend(fpu, SPIKE_ALPHA_RANGE4, SPIKE_ALPHA_RANGE4_REST, ua, prior.avg4),
            },
            None => Averages { avg: ua, avg4: ua },
        };
        proof {
            assert(counted(fpu, self@, ua, next));
        }
        self.step(ua, range, next)
    }
}

/// `next` has a sample counted that is not the first.
pub open spec fn counted<F: FloatUnit>(
    fpu: &F,
    state: FilterState,
    ua: Single,
    next: Averages,
) -> bool {
    state.averages matches Some(prior) ==> advance_gives(fpu, prior, ua, next)
}

/// One application of the filter leads from `before` to `after` and `out`.
pub open spec fn filter_gives<F: FloatUnit>(
    fpu: &F,
    before: FilterState,
    ua: Single,
    range: u8,
    after: FilterState,
    out: Single,
) -> bool {
    exists|next: Averages| #[trigger]
        counted(fpu, before, ua, next) && after == before.after(ua, range, next) && out
            == before.output(ua, range, next)
}

impl Default for SpikeFilter {
    fn default() -> (filter: SpikeFilter)
        ensures
            filter@ == (FilterState {
                prev_range: 0,
                after_spike: 0,
                consecutive: 0,
                averages: None,
            }),
    {
        SpikeFilter::new()
    }
}

/// A sample with the averages that have it counted.
pub struct Step {
    pub ua: Single,
    pub next: Averages,
}

/// The state after a run of samples in one range.
pub open spec fn state_after(state: FilterState, range: u8, steps: Seq<Step>) -> FilterState
    decreases steps.len(),
{
    if steps.len() == 0 {
        state
    } else {
        state_after(state, range, steps.drop_last()).after(
            steps.last().ua,
            range,
            steps.last().next,
        )
    }
}

/// What is recorded for the sample at `k` of a run in one range.
pub open spec fn output_at(state: FilterState, range: u8, steps: Seq<Step>, k: int) -> Single {
    state_after(state, range, steps.take(k)).output(steps[k].ua, range, steps[k].next)
}

/// Steady-state samples pass through raw, whatever the averages do.
pub proof fn law_steady_state_is_raw(state: FilterState, range: u8, steps: Seq<Step>, k: int)
    requires
        state.valid(),
        state.after_spike == 0,
        state.averages is Some ==> state.prev_range == range,
        0 <= k < steps.len(),
    ensures
        output_at(state, range, steps, k) == steps[k].ua,
{
    lemma_steady_state(state, range, steps.take(k));
}

proof fn lemma_steady_state(state: FilterState, range: u8, steps: Seq<Step>)
    requires
        state.after_spike == 0,
        state.averages is Some ==> state.prev_range == range,
    ensures
        state_after(state, range, steps).after_spike == 0,
        state_after(state, range, steps).averages is Some ==> state_after(
            state,
            range,
            steps,
        ).prev_range == range,
    decreases steps.len(),
{
    if steps.len() > 0 {
        lemma_steady_state(state, range, steps.drop_last());
    }
}

proof fn lemma_after_change(state: FilterState, range: u8, steps: Seq<Step>)
    requires
        state.valid(),
        state.changed(range),
        steps.len() > 0,
    ensures
        ({
            let s = state_after(state, range, steps);
            let n = steps.len();
            &&& s.prev_range == range
            &&& s.after_spike == if n < 3 {
                3 - n
            } else {
                0
            }
            &&& s.consecutive == if n < 3 {
                n - 1
            } else {
                2
            }
            &&& s.averages == if range >= 4 && n < 3 {
                state.averages
            } else {
                Some(steps.last().next)
            }
        }),
    decreases steps.len(),
{
    reveal_with_fuel(state_after, 2);
    if steps.len() > 1 {
        lemma_after_change(state, range, steps.drop_last());
    } else {
        assert(steps.drop_last() =~= Seq::empty());
    }
}

/// After a range change exactly three samples are smoothed, and then samples are
/// raw again. Below range 4 the smoothed value is the faster average. From range
/// 4 on it is the slower one, and the first two samples leave both averages as
/// they were before the change.
pub proof fn law_three_samples_are_smoothed(
    state: FilterState,
    range: u8,
    steps: Seq<Step>,
    k: int,
)
    requires
        state.valid(),
        state.changed(range),
        0 <= k < steps.len(),
    ensures
        k >= 3 ==> output_at(state, range, steps, k) == steps[k].ua,
        k < 3 && range < 4 ==> output_at(state, range, steps, k) == steps[k].next.avg,
        k < 2 && range >= 4 ==> output_at(state, range, steps, k) == state.averages.unwrap().avg4,
        k == 2 && range >= 4 ==> output_at(state, range, steps, k) == steps[k].next.avg4,
        k < 2 && range >= 4 ==> state_after(state, range, steps.take(k + 1)).averages
            == state.averages,
{
    reveal_with_fuel(state_after, 1);
    if k > 0 {
        lemma_after_change(state, range, steps.take(k));
    } else {
        assert(steps.take(k) =~= Seq::empty());
    }
    lemma_after_change(state, range, steps.take(k + 1));
}

/// Below range 4 no sample is lost: whatever ranges came before, the averages
/// take every sample in.
pub proof fn law_low_ranges_always_count(
    state: FilterState,
    ua: Single,
    range: u8,
    next: Averages,
)
    requires
        state.averages is Some,
        range < 4,
    ensures
        state.after(ua, range, next).averages == Some(next),
        state.changed(range) ==> state.output(ua, range, next) == next.avg,
{
}

/// The counters agree initially and after every sample.
pub proof fn law_filter_counters_stay_valid(
    state: FilterState,
    ua: Single,
    range: u8,
    next: Averages,
)
    requires
        state.valid(),
    ensures
        state.after(ua, range, next).valid(),
        state.after(ua, range, next).averages is Some,
{
}

} // verus!
