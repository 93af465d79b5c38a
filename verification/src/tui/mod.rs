//! Display settings and the state behind the user interface.

pub mod chart;
pub mod console;
pub mod events;
pub mod nice;
pub mod ui;

use crate::float::{
    add_to_total, average, average_gives, greatest, least, lemma_empty_total, lemma_total_grows,
    narrow_gives, run_total_gives, total_gives, Double, FloatUnit, Single,
};
use crate::tui::events::{
    handle_key, key_command, power_after, quit_key, voltage_after, KeyCode, KeyEvent, KeyOutcome,
    KeyState, Mode, VOLTAGE_STEP_MV,
};
use vstd::prelude::*;

verus! {

#[derive(Clone, Copy, Debug, PartialEq, Eq, Structural)]
pub enum UnitScale {
    /// Picks nA, µA or mA by signal magnitude.
    Auto,
    Micro,
    Milli,
}

/// What the user interface calls a unit scale.
pub open spec fn unit_scale_label(scale: UnitScale) -> Seq<char> {
    match scale {
        UnitScale::Auto => "Auto"@,
        UnitScale::Micro => "µA"@,
        UnitScale::Milli => "mA"@,
    }
}

/// The unit scale that follows in the cycle.
pub open spec fn next_unit_scale(scale: UnitScale) -> UnitScale {
    match scale {
        UnitScale::Auto => UnitScale::Micro,
        UnitScale::Micro => UnitScale::Milli,
        UnitScale::Milli => UnitScale::Auto,
    }
}

/// The time scales that the user can cycle through, in seconds.
pub open spec fn time_scales() -> Seq<u16> {
    seq![1, 5, 10, 30, 60, 300, 600]
}

/// The time scale that follows in the cycle: the first after the last, and after
/// anything that is no time scale.
pub open spec fn next_time_scale(secs: u16) -> u16 {
    if time_scales().contains(secs) && secs != time_scales().last() {
        time_scales()[time_scales().index_of(secs) + 1]
    } else {
        time_scales()[0]
    }
}

impl UnitScale {
    pub fn label(self) -> (r: &'static str)
        ensures
            r@ == unit_scale_label(self),
    {
        match self {
            UnitScale::Auto => "Auto",
            UnitScale::Micro => "µA",
            UnitScale::Milli => "mA",
        }
    }
}

/// Running min/max/avg accumulator for the current power-on session of the device
/// under test. Reset whenever its power is switched on.
#[derive(Clone, Copy, Debug)]
pub struct SessionStats {
    pub sum: Double,
    pub min: Single,
    pub max: Single,
    pub count: u64,
}

/// The statistics of a session without samples.
pub open spec fn no_session() -> SessionStats {
    SessionStats {
        sum: Double::zero(),
        min: Single::infinity(),
        max: Single::negative_infinity(),
        count: 0,
    }
}

/// Adding a sample leads from one state of the statistics to another.
pub open spec fn update_gives<F: FloatUnit>(
    fpu: &F,
    before: SessionStats,
    ua: Single,
    after: SessionStats,
) -> bool {
    &&& total_gives(fpu, before.sum, ua, after.sum)
    &&& after.min == before.min.smaller(ua)
    &&& after.max == before.max.larger(ua)
    &&& after.count == before.count + 1
}

/// `r` is the average current; zero for a session without samples.
pub open spec fn avg_gives<F: FloatUnit>(fpu: &F, stats: SessionStats, r: Single) -> bool {
    if stats.count == 0 {
        r == Single::zero()
    } else {
        exists|mean: Double| #[trigger]
            average_gives(fpu, stats.sum, stats.count, mean) && narrow_gives(fpu, mean, r)
    }
}

/// `states` are the statistics before, between and after a run of samples.
pub open spec fn session_passes<F: FloatUnit>(
    fpu: &F,
    states: Seq<SessionStats>,
    samples: Seq<Single>,
) -> bool {
    &&& states.len() == samples.len() + 1
    &&& forall|k: int|
        #![trigger samples[k]]
        0 <= k < samples.len() ==> update_gives(fpu, states[k], samples[k], states[k + 1])
}

/// A run of samples leads from one state of the statistics to another.
pub open spec fn session_gives<F: FloatUnit>(
    fpu: &F,
    before: SessionStats,
    samples: Seq<Single>,
    after: SessionStats,
) -> bool {
    exists|states: Seq<SessionStats>| #[trigger]
        session_passes(fpu, states, samples) && states.first() == before && states.last() == after
}

impl SessionStats {
    pub fn new() -> (stats: SessionStats)
        ensures
            stats == no_session(),
    {
        SessionStats {
            sum: Double::zero(),
            min: Single::infinity(),
            max: Single::negative_infinity(),
            count: 0,
        }
    }

    pub fn update<F: FloatUnit>(&mut self, fpu: &F, ua: Single)
        requires
            old(self).count < u64::MAX,
        ensures
            update_gives(fpu, *old(self), ua, *final(self)),
    {
        self.sum = add_to_total(fpu, self.sum, ua);
        self.count += 1;
        self.min = self.min.min(ua);
        self.max = self.max.max(ua);
    }

    /// Adds samples one after the other.
    pub fn update_all<F: FloatUnit>(&mut self, fpu: &F, samples: &[Single])
        requires
            old(self).count + samples@.len() <= u64::MAX,
        ensures
            session_gives(fpu, *old(self), samples@, *final(self)),
            final(self).count == old(self).count + samples@.len(),
    {
        let ghost mut states: Seq<SessionStats> = seq![*self];
        let mut i: usize = 0;
        while i < samples.len()
            invariant
                0 <= i <= samples@.len(),
                old(self).count + samples@.len() <= u64::MAX,
                self.count == old(self).count + i,
                session_passes(fpu, states, samples@.take(i as int)),
                states.first() == *old(self),
                states.last() == *self,
            decreases samples.len() - i,
        {
            let ghost passed = states;
            self.update(fpu, samples[i]);
            proof {
                states = passed.push(*self);
                let done = samples@.take(i + 1);
                assert forall|k: int| #![trigger done[k]] 0 <= k < done.len() implies update_gives(
                    fpu,
                    states[k],
                    done[k],
                    states[k + 1],
                ) by {
                    if k < i {
                        assert(samples@.take(i as int)[k] == done[k]);
                    }
                }
            }
            i += 1;
        }
        assert(samples@.take(i as int) =~= samples@);
    }

    /// The average current; zero for a session without samples.
    pub fn avg<F: FloatUnit>(&self, fpu: &F) -> (r: Single)
        ensures
            avg_gives(fpu, *self, r),
    {
        if self.count == 0 {
            Single::zero()
        } else {
            let mean = average(fpu, self.sum, self.count);
            fpu.narrow(mean)
        }
    }

    /// The average, least and greatest current, and the number of samples.
    pub fn summary<F: FloatUnit>(&self, fpu: &F) -> (r: (Single, Single, Single, u64))
        ensures
            avg_gives(fpu, *self, r.0),
            r.1 == self.min,
            r.2 == self.max,
            r.3 == self.count,
    {
        (self.avg(fpu), self.min, self.max, self.count)
    }

    pub fn reset(&mut self)
        ensures
            *final(self) == no_session(),
    {
        *self = SessionStats::new();
    }
}

proof fn lemma_session<F: FloatUnit>(
    fpu: &F,
    states: Seq<SessionStats>,
    samples: Seq<Single>,
    k: int,
)
    requires
        session_passes(fpu, states, samples),
        states.first() == no_session(),
        0 <= k < states.len(),
    ensures
        states[k].count == k,
        run_total_gives(fpu, samples.take(k), states[k].sum),
        states[k].min == least(Single::infinity(), samples.take(k)),
        states[k].max == greatest(Single::negative_infinity(), samples.take(k)),
    decreases k,
{
    if k == 0 {
        lemma_empty_total(fpu);
        assert(samples.take(0) =~= Seq::<Single>::empty());
    } else {
        lemma_session(fpu, states, samples, k - 1);
        assert(update_gives(fpu, states[k - 1], samples[k - 1], states[k - 1 + 1]));
        lemma_total_grows(
            fpu,
            samples.take(k - 1),
            states[k - 1].sum,
            samples[k - 1],
            states[k].sum,
        );
        assert(samples.take(k) =~= samples.take(k - 1).push(samples[k - 1]));
        assert(samples.take(k).drop_last() =~= samples.take(k - 1));
        assert(samples.take(k).last() == samples[k - 1]);
    }
}

/// The statistics since a reset count every sample since then, add up exactly these,
/// and hold the least and the greatest of them.
pub proof fn law_session_covers_its_samples<F: FloatUnit>(
    fpu: &F,
    samples: Seq<Single>,
    after: SessionStats,
)
    requires
        session_gives(fpu, no_session(), samples, after),
    ensures
        after.count == samples.len(),
        run_total_gives(fpu, samples, after.sum),
        after.min == least(Single::infinity(), samples),
        after.max == greatest(Single::negative_infinity(), samples),
{
    let states = choose|states: Seq<SessionStats>| #[trigger]
        session_passes(fpu, states, samples) && states.first() == no_session() && states.last()
            == after;
    lemma_session(fpu, states, samples, samples.len() as int);
    assert(samples.take(samples.len() as int) =~= samples);
}

/// The session does not depend on how the samples were batched: adding one run after
/// another leads to where adding them as one run leads.
pub proof fn law_session_ignores_batches<F: FloatUnit>(
    fpu: &F,
    before: SessionStats,
    first: Seq<Single>,
    between: SessionStats,
    second: Seq<Single>,
    after: SessionStats,
)
    requires
        session_gives(fpu, before, first, between),
        session_gives(fpu, between, second, after),
    ensures
        session_gives(fpu, before, first + second, after),
{
    let s = choose|states: Seq<SessionStats>| #[trigger]
        session_passes(fpu, states, first) && states.first() == before && states.last() == between;
    let t = choose|states: Seq<SessionStats>| #[trigger]
        session_passes(fpu, states, second) && states.first() == between && states.last() == after;
    let states = s.drop_last() + t;
    let samples = first + second;
    assert forall|k: int| #![trigger samples[k]] 0 <= k < samples.len() implies update_gives(
        fpu,
        states[k],
        samples[k],
        states[k + 1],
    ) by {
        if k < first.len() {
            assert(samples[k] == first[k]);
        } else {
            assert(samples[k] == second[k - first.len()]);
        }
    }
    assert(session_passes(fpu, states, samples));
    assert(states.first() == before);
    assert(states.last() == after);
}

/// The time scale after a key press.
pub open spec fn time_scale_after(key: KeyEvent, secs: u16) -> u16 {
    if key.code == KeyCode::Char('s') {
        next_time_scale(secs)
    } else {
        secs
    }
}

/// The unit scale after a key press.
pub open spec fn unit_scale_after(key: KeyEvent, scale: UnitScale) -> UnitScale {
    if key.code == KeyCode::Char('u') {
        next_unit_scale(scale)
    } else {
        scale
    }
}

pub struct AppState {
    pub port: String,
    pub mode: Mode,
    pub vdd_mv: u16,
    pub dut_on: bool,
    pub time_scale_secs: u16,
    pub unit_scale: UnitScale,
    pub log_path: Option<String>,
}

/// The state after a key press.
pub open spec fn app_after(app: AppState, key: KeyEvent) -> AppState {
    AppState {
        dut_on: power_after(key, app.dut_on),
        vdd_mv: voltage_after(key, app.mode, app.vdd_mv) as u16,
        time_scale_secs: time_scale_after(key, app.time_scale_secs),
        unit_scale: unit_scale_after(key, app.unit_scale),
        ..app
    }
}

pub proof fn lemma_next_time_scale(secs: u16)
    ensures
        secs == 1 ==> next_time_scale(secs) == 5,
        secs == 5 ==> next_time_scale(secs) == 10,
        secs == 10 ==> next_time_scale(secs) == 30,
        secs == 30 ==> next_time_scale(secs) == 60,
        secs == 60 ==> next_time_scale(secs) == 300,
        secs == 300 ==> next_time_scale(secs) == 600,
        (secs != 1 && secs != 5 && secs != 10 && secs != 30 && secs != 60 && secs != 300)
            ==> next_time_scale(secs) == 1,
{
    let t = time_scales();
    assert(t[0] == 1 && t[1] == 5 && t[2] == 10 && t[3] == 30 && t[4] == 60 && t[5] == 300 && t[6]
        == 600);
    if t.contains(secs) {
        let k = t.index_of(secs);
        assert(0 <= k < t.len() && t[k] == secs);
    }
}

impl AppState {
    /// The state at the start: power off, five seconds, automatic unit.
    pub fn new(port: String, mode: Mode, vdd_mv: u16, log_path: Option<String>) -> (state: AppState)
        ensures
            state == (AppState {
                port,
                mode,
                vdd_mv,
                dut_on: false,
                time_scale_secs: 5,
                unit_scale: UnitScale::Auto,
                log_path,
            }),
    {
        AppState {
            port,
            mode,
            vdd_mv,
            dut_on: false,
            time_scale_secs: 5,
            unit_scale: UnitScale::Auto,
            log_path,
        }
    }

    pub fn cycle_time_scale(&mut self)
        ensures
            *final(self) == (AppState {
                time_scale_secs: next_time_scale(old(self).time_scale_secs),
                ..*old(self)
            }),
    {
        proof {
            lemma_next_time_scale(self.time_scale_secs);
        }
        let secs: u16 = self.time_scale_secs;
        self.time_scale_secs = if secs == 1 {
            5
        } else if secs == 5 {
            10
        } else if secs == 10 {
            30
        } else if secs == 30 {
            60
        } else if secs == 60 {
            300
        } else if secs == 300 {
            600
        } else {
            1
        };
    }

    pub fn cycle_unit_scale(&mut self)
        ensures
            *final(self) == (AppState {
                unit_scale: next_unit_scale(old(self).unit_scale),
                ..*old(self)
            }),
    {
        self.unit_scale = match self.unit_scale {
            UnitScale::Auto => UnitScale::Micro,
            UnitScale::Micro => UnitScale::Milli,
            UnitScale::Milli => UnitScale::Auto,
        };
    }

    /// Handles a key press: updates the state, and says which command to send and
    /// whether the application should quit.
    pub fn on_key(&mut self, key: KeyEvent) -> (r: KeyOutcome)
        requires
            old(self).mode == Mode::Source && key.code == KeyCode::Up ==> old(self).vdd_mv
                + VOLTAGE_STEP_MV <= u16::MAX,
        ensures
            *final(self) == app_after(*old(self), key),
            r.quit == quit_key(key),
            r.command == key_command(
                key,
                old(self).mode,
                final(self).dut_on,
                final(self).vdd_mv as int,
            ),
    {
        let mut key_state = KeyState { dut_on: self.dut_on, mode: self.mode, vdd_mv: self.vdd_mv };
        let outcome = handle_key(key, &mut key_state);
        if outcome.quit {
            return outcome;
        }
        self.dut_on = key_state.dut_on;
        self.vdd_mv = key_state.vdd_mv;
        match key.code {
            KeyCode::Char(c) => {
                if c == 's' {
                    self.cycle_time_scale();
                }
                if c == 'u' {
                    self.cycle_unit_scale();
                }
            },
            _ => {},
        }
        outcome
    }
}

/// Cycling through the unit scales comes back after three steps.
pub proof fn law_unit_scales_cycle(scale: UnitScale)
    ensures
        next_unit_scale(scale) != scale,
        next_unit_scale(next_unit_scale(next_unit_scale(scale))) == scale,
{
}

/// The time scale after some steps of the cycle.
pub open spec fn time_scale_steps(secs: u16, steps: nat) -> u16
    decreases steps,
{
    if steps == 0 {
        secs
    } else {
        next_time_scale(time_scale_steps(secs, (steps - 1) as nat))
    }
}

/// The unit scale after some steps of the cycle.
pub open spec fn unit_scale_steps(scale: UnitScale, steps: nat) -> UnitScale
    decreases steps,
{
    if steps == 0 {
        scale
    } else {
        next_unit_scale(unit_scale_steps(scale, (steps - 1) as nat))
    }
}

/// From any time scale the cycle passes through every time scale, and comes back
/// to where it began after as many steps as there are time scales.
pub proof fn law_time_scales_cycle(secs: u16, goal: u16)
    requires
        time_scales().contains(secs),
        time_scales().contains(goal),
    ensures
        time_scale_steps(secs, time_scales().len()) == secs,
        exists|steps: nat| steps < time_scales().len() && #[trigger] time_scale_steps(secs, steps)
            == goal,
{
    let t = time_scales();
    assert(t[0] == 1 && t[1] == 5 && t[2] == 10 && t[3] == 30 && t[4] == 60 && t[5] == 300 && t[6]
        == 600);
    lemma_next_time_scale(1);
    lemma_next_time_scale(5);
    lemma_next_time_scale(10);
    lemma_next_time_scale(30);
    lemma_next_time_scale(60);
    lemma_next_time_scale(300);
    lemma_next_time_scale(600);
    assert(time_scale_steps(secs, 0) == secs);
    let s1 = time_scale_steps(secs, 1);
    let s2 = time_scale_steps(secs, 2);
    let s3 = time_scale_steps(secs, 3);
    let s4 = time_scale_steps(secs, 4);
    let s5 = time_scale_steps(secs, 5);
    let s6 = time_scale_steps(secs, 6);
    assert(s1 == next_time_scale(secs));
    assert(s2 == next_time_scale(s1));
    assert(s3 == next_time_scale(s2));
    assert(s4 == next_time_scale(s3));
    assert(s5 == next_time_scale(s4));
    assert(s6 == next_time_scale(s5));
    assert(time_scale_steps(secs, 7) == next_time_scale(s6));
    assert(t.len() == 7);
}

/// Whatever the time scale, the cycle leads to one of the time scales.
pub proof fn law_the_cycle_stays_among_the_time_scales(secs: u16)
    ensures
        time_scales().contains(next_time_scale(secs)),
{
    let t = time_scales();
    assert(t[0] == 1 && t[1] == 5 && t[2] == 10 && t[3] == 30 && t[4] == 60 && t[5] == 300 && t[6]
        == 600);
    lemma_next_time_scale(secs);
}

} // verus!
