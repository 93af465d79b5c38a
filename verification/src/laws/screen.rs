//! Laws on the screen: what stands behind each label, and in which unit.

use crate::float::{
    double_from_count_gives, fixed_gives, times_gives, wide_fixed_gives, wide_over_gives,
    wide_times_gives, widen_gives, Double, FloatUnit, Single,
};
use crate::laws::chart::{
    chart_drawn, column_among, greatest_at, lemma_chart_drawn, lemma_greatest_drawn, lemma_mean,
    lemma_rounded_up, mean_of_run, rounded_up, slot_of, ColumnParts,
};
use crate::laws::numbers::{
    greatest_magnitude_of_run, greatest_of_run, higher_of, higher_single, least_of_run,
    lemma_greatest_magnitude, lemma_greatest_of_run, lemma_least_of_run, smaller_number,
};
use crate::laws::text::{lemma_decimal_is_a_numeral, numeral_of};
use crate::ring::newest;
use crate::text::decimal;
use crate::tui::chart::{compute_stats, points_give, stats_give, Stats};
use crate::tui::events::Mode;
use crate::tui::ui::{
    best_unit, chart_gives, chart_rows, chart_unit, current_gives, display_gives, draw, draw_chart,
    draw_rows, duration_text, fmt_current, fmt_display, fmt_duration, fmt_quantity, quantity_gives,
    resolve_unit, resolved, rolling_gives, rolling_line, rows_divide, screen_gives, session_line,
    session_line_gives, shown, status_line, status_pieces, unit_color, unit_for, value_gives,
    value_span, visible_peak, y_step_gives, Area, ChartPanel, Piece, Rows, Screen, SessionSummary,
    Tone, UnitView,
};
use crate::tui::{AppState, UnitScale};
use vstd::prelude::*;

verus! {

/// The unit for a current by the bits of its magnitude in µA: µA for zero, nA below 1,
/// µA below 1000, mA from there on. The factor leads to it from µA.
pub open spec fn magnitude_unit(bits: int, label: Seq<char>, factor: Single) -> bool {
    if bits == 0 {
        label == "µA"@ && factor.bits == 0x3F80_0000
    } else if bits < 0x3F80_0000 {
        label == "nA"@ && factor.bits == 0x447A_0000
    } else if bits < 0x447A_0000 {
        label == "µA"@ && factor.bits == 0x3F80_0000
    } else {
        label == "mA"@ && factor.bits == 0x3A83_126F
    }
}

/// The value without its sign.
pub open spec fn unsigned(v: Single) -> Single {
    Single { bits: (v.bits as int % 0x8000_0000) as u32 }
}

/// The unit that a scale selects; the automatic one goes by the greater of the two
/// magnitudes.
pub open spec fn scale_unit(
    scale: UnitScale,
    avg: Single,
    peak: Single,
    label: Seq<char>,
    factor: Single,
) -> bool {
    match scale {
        UnitScale::Auto => exists|m: Single| #[trigger]
            higher_single(unsigned(avg), unsigned(peak), m) && magnitude_unit(
                m.bits as int,
                label,
                factor,
            ),
        UnitScale::Micro => label == "µA"@ && factor.bits == 0x3F80_0000,
        UnitScale::Milli => label == "mA"@ && factor.bits == 0x3A83_126F,
    }
}

proof fn lemma_unit_for(m: Single)
    requires
        m.bits < 0x8000_0000,
    ensures
        magnitude_unit(m.bits as int, unit_for(m).label, unit_for(m).factor),
{
}

proof fn lemma_resolved(scale: UnitScale, avg: Single, peak: Single)
    ensures
        scale_unit(
            scale,
            avg,
            peak,
            resolved(scale, avg, peak).label,
            resolved(scale, avg, peak).factor,
        ),
{
    if scale is Auto {
        assert(avg.absolute() == unsigned(avg));
        assert(peak.absolute() == unsigned(peak));
        let m = unsigned(avg).larger(unsigned(peak));
        assert(higher_single(unsigned(avg), unsigned(peak), m));
        lemma_unit_for(m);
    }
}

proof fn lemma_unit_labels()
    ensures
        "nA"@ != "µA"@,
        "nA"@ != "mA"@,
        "µA"@ != "mA"@,
{
    reveal_strlit("nA");
    reveal_strlit("µA");
    reveal_strlit("mA");
    assert("nA"@[0] == 'n' && "µA"@[0] == 'µ' && "mA"@[0] == 'm');
}

/// Currents are shown in the unit that their magnitude asks for, and each unit has its
/// own color.
pub proof fn law_units_go_by_magnitude(
    ua: Single,
    own: (&'static str, Single),
    scale: UnitScale,
    avg: Single,
    peak: Single,
    selected: (&'static str, Single),
    name: &'static str,
    unit: &str,
    tone: Tone,
)
    requires
        call_ensures(best_unit, (ua,), own),
        call_ensures(resolve_unit, (scale, avg, peak), selected),
        call_ensures(UnitScale::label, (scale,), name),
        call_ensures(unit_color, (unit,), tone),
    ensures
        magnitude_unit(ua.bits as int % 0x8000_0000, own.0@, own.1),
        scale_unit(scale, avg, peak, selected.0@, selected.1),
        scale == UnitScale::Auto ==> name@ == "Auto"@,
        scale == UnitScale::Micro ==> name@ == "µA"@,
        scale == UnitScale::Milli ==> name@ == "mA"@,
        unit@ == "nA"@ ==> tone == Tone::Yellow,
        unit@ == "µA"@ ==> tone == Tone::Cyan,
        unit@ == "mA"@ ==> tone == Tone::Green,
{
    assert(ua.absolute() == unsigned(ua));
    lemma_unit_for(ua.absolute());
    lemma_resolved(scale, avg, peak);
    lemma_unit_labels();
}

/// The text is a converted current: whole nA, never below zero, µA with two decimal
/// places, mA with three.
pub open spec fn quantity_reads<F: FloatUnit>(
    fpu: &F,
    value: Single,
    unit: Seq<char>,
    text: Seq<char>,
) -> bool {
    &&& unit == "nA"@ ==> exists|lifted: Single, digits: Seq<char>|
        #[trigger] higher_single(value, Single { bits: 0 }, lifted) && #[trigger] fixed_gives(
            fpu,
            lifted,
            0,
            digits,
        ) && text == digits + " nA"@
    &&& unit == "µA"@ ==> exists|digits: Seq<char>|
        #[trigger] fixed_gives(fpu, value, 2, digits) && text == digits + " µA"@
    &&& unit == "mA"@ ==> exists|digits: Seq<char>|
        #[trigger] fixed_gives(fpu, value, 3, digits) && text == digits + " mA"@
}

proof fn lemma_quantity<F: FloatUnit>(fpu: &F, value: Single, unit: Seq<char>, text: Seq<char>)
    requires
        quantity_gives(fpu, value, unit, text),
    ensures
        quantity_reads(fpu, value, unit, text),
{
    lemma_unit_labels();
    if unit == "nA"@ {
        assert(higher_single(value, Single { bits: 0 }, value.larger(Single::zero())));
    }
}

/// The text is a current, converted by a factor.
pub open spec fn current_reads<F: FloatUnit>(
    fpu: &F,
    ua: Single,
    factor: Single,
    unit: Seq<char>,
    text: Seq<char>,
) -> bool {
    exists|value: Single|
        #[trigger] call_ensures(F::times, (fpu, ua, factor), value) && quantity_reads(
            fpu,
            value,
            unit,
            text,
        )
}

proof fn lemma_current<F: FloatUnit>(
    fpu: &F,
    ua: Single,
    factor: Single,
    unit: Seq<char>,
    text: Seq<char>,
)
    requires
        current_gives(fpu, ua, factor, unit, text),
    ensures
        current_reads(fpu, ua, factor, unit, text),
{
    let value = choose|value: Single| #[trigger]
        times_gives(fpu, ua, factor, value) && quantity_gives(fpu, value, unit, text);
    assert(call_ensures(F::times, (fpu, ua, factor), value));
    lemma_quantity(fpu, value, unit, text);
}

/// The piece shows a current in its own unit, in the color of that unit.
pub open spec fn shows<F: FloatUnit>(fpu: &F, ua: Single, piece: Piece) -> bool {
    exists|label: Seq<char>, factor: Single|
        #[trigger] magnitude_unit(ua.bits as int % 0x8000_0000, label, factor) && current_reads(
            fpu,
            ua,
            factor,
            label,
            piece.text@,
        ) && (label == "nA"@ ==> piece.tone == Some(Tone::Yellow)) && (label == "µA"@
            ==> piece.tone == Some(Tone::Cyan)) && (label == "mA"@ ==> piece.tone == Some(
            Tone::Green,
        ))
}

proof fn lemma_shows<F: FloatUnit>(fpu: &F, ua: Single, piece: Piece)
    requires
        value_gives(fpu, ua, piece@),
    ensures
        shows(fpu, ua, piece),
{
    let unit = unit_for(ua.absolute());
    assert(ua.absolute() == unsigned(ua));
    lemma_unit_for(ua.absolute());
    lemma_unit_labels();
    lemma_current(fpu, ua, unit.factor, unit.label, piece.text@);
    assert(magnitude_unit(ua.bits as int % 0x8000_0000, unit.label, unit.factor));
}

/// The text is a label of the current axis: whole nA, never below zero, µA with one
/// decimal place, mA with three.
pub open spec fn axis_reads<F: FloatUnit>(
    fpu: &F,
    value: Double,
    unit: Seq<char>,
    text: Seq<char>,
) -> bool {
    &&& unit == "nA"@ ==> exists|lifted: Double, digits: Seq<char>|
        #[trigger] higher_of(value, Double { bits: 0 }, lifted) && #[trigger] wide_fixed_gives(
            fpu,
            lifted,
            0,
            digits,
        ) && text == digits + seq![' '] + unit
    &&& unit == "µA"@ ==> exists|digits: Seq<char>|
        #[trigger] wide_fixed_gives(fpu, value, 1, digits) && text == digits + seq![' '] + unit
    &&& unit == "mA"@ ==> exists|digits: Seq<char>|
        #[trigger] wide_fixed_gives(fpu, value, 3, digits) && text == digits + seq![' '] + unit
}

proof fn lemma_axis<F: FloatUnit>(fpu: &F, value: Double, unit: Seq<char>, text: Seq<char>)
    requires
        display_gives(fpu, value, unit, text),
    ensures
        axis_reads(fpu, value, unit, text),
{
    lemma_unit_labels();
    reveal_strlit(" ");
    assert(" "@ =~= seq![' ']);
    if unit == "nA"@ {
        assert(higher_of(value, Double { bits: 0 }, value.larger(Double::zero())));
    }
}

/// Currents are converted by the factor and shown with the places of their unit.
pub proof fn law_currents_are_shown_in_their_unit<F: FloatUnit>(
    fpu: &F,
    ua: Single,
    factor: Single,
    unit: &str,
    current: String,
    value: Single,
    quantity: String,
    height: Double,
    axis: String,
    span: Piece,
)
    requires
        call_ensures(fmt_current::<F>, (fpu, ua, factor, unit), current),
        call_ensures(fmt_quantity::<F>, (fpu, value, unit), quantity),
        call_ensures(fmt_display::<F>, (fpu, height, unit), axis),
        call_ensures(value_span::<F>, (fpu, ua), span),
    ensures
        current_reads(fpu, ua, factor, unit@, current@),
        quantity_reads(fpu, value, unit@, quantity@),
        axis_reads(fpu, height, unit@, axis@),
        shows(fpu, ua, span),
{
    lemma_current(fpu, ua, factor, unit@, current@);
    lemma_quantity(fpu, value, unit@, quantity@);
    lemma_axis(fpu, height, unit@, axis@);
    lemma_shows(fpu, ua, span);
}

/// The text is a duration: seconds below a minute, or else minutes, with the seconds
/// left over if there are any.
pub open spec fn duration_reads(secs: int, text: Seq<char>) -> bool {
    if secs < 60 {
        exists|s: Seq<char>| #[trigger] numeral_of(s, secs as nat) && text == s + seq!['s']
    } else if secs % 60 == 0 {
        exists|m: Seq<char>| #[trigger] numeral_of(m, (secs / 60) as nat) && text == m + seq!['m']
    } else {
        exists|m: Seq<char>, s: Seq<char>|
            #[trigger] numeral_of(m, (secs / 60) as nat) && #[trigger] numeral_of(
                s,
                (secs % 60) as nat,
            ) && text == m + seq!['m'] + s + seq!['s']
    }
}

proof fn lemma_duration(secs: nat)
    ensures
        duration_reads(secs as int, duration_text(secs)),
{
    reveal_strlit("s");
    reveal_strlit("m");
    assert("s"@ =~= seq!['s']);
    assert("m"@ =~= seq!['m']);
    lemma_decimal_is_a_numeral(secs);
    lemma_decimal_is_a_numeral(secs / 60);
    lemma_decimal_is_a_numeral(secs % 60);
    let i = secs as int;
    assert(numeral_of(decimal(secs / 60), (i / 60) as nat));
    assert(numeral_of(decimal(secs % 60), (i % 60) as nat));
}

/// Durations are shown in minutes and seconds.
pub proof fn law_durations_are_minutes_and_seconds(secs: u16, text: String)
    requires
        call_ensures(fmt_duration, (secs,), text),
    ensures
        duration_reads(secs as int, text@),
{
    lemma_duration(secs as nat);
}

/// The last sample; zero where there is none.
pub open spec fn last_of(samples: Seq<Single>, v: Single) -> bool {
    if samples.len() == 0 {
        v.bits == 0
    } else {
        v == samples[samples.len() - 1]
    }
}

/// The mean of the last `n` samples, or of all where there are fewer.
pub open spec fn mean_of_last<F: FloatUnit>(
    fpu: &F,
    samples: Seq<Single>,
    n: int,
    v: Single,
) -> bool {
    if samples.len() <= n {
        mean_of_run(fpu, samples, v)
    } else {
        mean_of_run(fpu, samples.subrange(samples.len() - n, samples.len() as int), v)
    }
}

/// The least of the samples; zero where there is none.
pub open spec fn least_of_all(samples: Seq<Single>, v: Single) -> bool {
    if samples.len() == 0 {
        v.bits == 0
    } else {
        least_of_run(samples, v)
    }
}

/// The greatest of the samples; zero where there is none.
pub open spec fn greatest_of_all(samples: Seq<Single>, v: Single) -> bool {
    if samples.len() == 0 {
        v.bits == 0
    } else {
        greatest_of_run(Single { bits: 0xFF80_0000 }, samples, v)
    }
}

/// The statistics are those of the samples: the last one, the means of the last second
/// and of the last ten, at 100000 samples a second, the least and the greatest.
pub open spec fn stats_of<F: FloatUnit>(fpu: &F, samples: Seq<Single>, stats: Stats) -> bool {
    &&& last_of(samples, stats.inst)
    &&& mean_of_last(fpu, samples, 100_000, stats.avg1)
    &&& mean_of_last(fpu, samples, 1_000_000, stats.avg10)
    &&& least_of_all(samples, stats.min)
    &&& greatest_of_all(samples, stats.max)
}

proof fn lemma_stats<F: FloatUnit>(fpu: &F, samples: Seq<Single>, stats: Stats)
    requires
        stats_give(fpu, samples, stats),
    ensures
        stats_of(fpu, samples, stats),
{
    if samples.len() > 0 {
        lemma_mean(fpu, newest(samples, 100_000), stats.avg1);
        lemma_mean(fpu, newest(samples, 1_000_000), stats.avg10);
        if samples.len() > 100_000 {
            assert(newest(samples, 100_000) =~= samples.subrange(
                samples.len() - 100_000,
                samples.len() as int,
            ));
        }
        if samples.len() > 1_000_000 {
            assert(newest(samples, 1_000_000) =~= samples.subrange(
                samples.len() - 1_000_000,
                samples.len() as int,
            ));
        }
        lemma_least_of_run(samples);
        lemma_greatest_of_run(Single { bits: 0xFF80_0000 }, samples);
    }
}

/// Rolling statistics are those of the samples.
pub proof fn law_rolling_statistics_are_those_of_the_samples<F: FloatUnit>(
    fpu: &F,
    samples: &[Single],
    stats: Stats,
)
    requires
        call_ensures(compute_stats::<F>, (fpu, samples), stats),
    ensures
        stats_of(fpu, samples@, stats),
{
    lemma_stats(fpu, samples@, stats);
}

/// The piece is plain text.
pub open spec fn says(piece: Piece, text: Seq<char>) -> bool {
    piece.text@ == text && piece.tone is None
}

/// The line of rolling statistics has each label before its own quantity, and the count
/// of samples at the end.
pub open spec fn rolling_reads<F: FloatUnit>(
    fpu: &F,
    stats: Stats,
    n: nat,
    pieces: Seq<Piece>,
) -> bool {
    &&& pieces.len() == 11
    &&& says(pieces[0], "  Now: "@) && shows(fpu, stats.inst, pieces[1])
    &&& says(pieces[2], "  |  Avg 1s: "@) && shows(fpu, stats.avg1, pieces[3])
    &&& says(pieces[4], "  |  Avg 10s: "@) && shows(fpu, stats.avg10, pieces[5])
    &&& says(pieces[6], "  |  Min: "@) && shows(fpu, stats.min, pieces[7])
    &&& says(pieces[8], "  |  Max: "@) && shows(fpu, stats.max, pieces[9])
    &&& exists|count: Seq<char>|
        #[trigger] numeral_of(count, n) && says(pieces[10], "  |  n: "@ + count)
}

proof fn lemma_rolling<F: FloatUnit>(fpu: &F, stats: Stats, n: nat, pieces: Seq<Piece>)
    requires
        rolling_gives(fpu, stats, n, shown(pieces)),
    ensures
        rolling_reads(fpu, stats, n, pieces),
{
    let line = shown(pieces);
    assert(pieces.len() == 11);
    assert forall|k: int| 0 <= k < 11 implies #[trigger] line[k] == pieces[k]@ by {}
    assert(line[0] == pieces[0]@ && line[2] == pieces[2]@ && line[4] == pieces[4]@ && line[6]
        == pieces[6]@ && line[8] == pieces[8]@ && line[10] == pieces[10]@);
    lemma_shows(fpu, stats.inst, pieces[1]);
    lemma_shows(fpu, stats.avg1, pieces[3]);
    lemma_shows(fpu, stats.avg10, pieces[5]);
    lemma_shows(fpu, stats.min, pieces[7]);
    lemma_shows(fpu, stats.max, pieces[9]);
    lemma_decimal_is_a_numeral(n);
}

/// The line of rolling statistics shows each of them behind its label.
pub proof fn law_labels_stand_before_their_quantities<F: FloatUnit>(
    fpu: &F,
    stats: Stats,
    n: u64,
    pieces: Vec<Piece>,
)
    requires
        call_ensures(rolling_line::<F>, (fpu, stats, n), pieces),
    ensures
        rolling_reads(fpu, stats, n as nat, pieces@),
{
    lemma_rolling(fpu, stats, n as nat, pieces@);
}

/// The line of session statistics: average, least and greatest behind their labels, the
/// count, and whether the session is running. Without power and samples it says so.
pub open spec fn session_reads<F: FloatUnit>(
    fpu: &F,
    dut_on: bool,
    avg: Single,
    min: Single,
    max: Single,
    n: u64,
    pieces: Seq<Piece>,
) -> bool {
    if !dut_on && n == 0 {
        pieces.len() == 1 && says(pieces[0], "  DUT off — no session data"@)
    } else {
        &&& pieces.len() == 7
        &&& says(pieces[0], "  Avg: "@) && shows(fpu, avg, pieces[1])
        &&& says(pieces[2], "  |  Min: "@) && shows(fpu, min, pieces[3])
        &&& says(pieces[4], "  |  Max: "@) && shows(fpu, max, pieces[5])
        &&& exists|count: Seq<char>|
            #[trigger] numeral_of(count, n as nat) && (dut_on ==> says(
                pieces[6],
                "  |  n: "@ + count + "  "@ + "(running)"@,
            )) && (!dut_on ==> says(pieces[6], "  |  n: "@ + count + "  "@ + "(last session)"@))
    }
}

proof fn lemma_session_line<F: FloatUnit>(
    fpu: &F,
    dut_on: bool,
    session: SessionSummary,
    pieces: Seq<Piece>,
)
    requires
        session_line_gives(fpu, dut_on, session, shown(pieces)),
    ensures
        session_reads(fpu, dut_on, session.0, session.1, session.2, session.3, pieces),
{
    let line = shown(pieces);
    assert(pieces.len() == line.len());
    if !dut_on && session.3 == 0 {
        assert(line.len() == 1);
        assert(line[0] == pieces[0]@);
    } else {
        assert(line[0] == pieces[0]@ && line[2] == pieces[2]@ && line[4] == pieces[4]@ && line[6]
            == pieces[6]@);
        assert(line[1] == pieces[1]@ && line[3] == pieces[3]@ && line[5] == pieces[5]@);
        lemma_shows(fpu, session.0, pieces[1]);
        lemma_shows(fpu, session.1, pieces[3]);
        lemma_shows(fpu, session.2, pieces[5]);
        lemma_decimal_is_a_numeral(session.3 as nat);
    }
}

/// The line of session statistics shows each of them behind its label.
pub proof fn law_session_labels_stand_before_their_quantities<F: FloatUnit>(
    fpu: &F,
    dut_on: bool,
    session: SessionSummary,
    pieces: Vec<Piece>,
)
    requires
        call_ensures(session_line::<F>, (fpu, dut_on, session), pieces),
    ensures
        session_reads(fpu, dut_on, session.0, session.1, session.2, session.3, pieces@),
{
    lemma_session_line(fpu, dut_on, session, pieces@);
}

/// The status bar names the port, the mode, with the voltage in source mode, whether
/// power is on, the unit scale, and the log if there is one.
pub open spec fn status_reads(state: AppState, pieces: Seq<Piece>) -> bool {
    &&& pieces.len() == 2
    &&& pieces[0].tone == Some(Tone::Green)
    &&& says(pieces[1], "  [q] Quit  [p] DUT  [s] Scale  [u] Unit  [↑↓] Voltage"@)
    &&& exists|mode: Seq<char>, power: Seq<char>, scale: Seq<char>, log: Seq<char>|
        pieces[0].text@ == #[trigger] status_text(state.port@, mode, power, scale, log) && (
        state.mode == Mode::Ampere ==> mode == "Ampere"@) && (state.mode == Mode::Source
            ==> exists|mv: Seq<char>|
            #[trigger] numeral_of(mv, state.vdd_mv as nat) && mode == "Source "@ + mv + "mV"@) && (
        state.dut_on ==> power == "DUT: ON"@) && (!state.dut_on ==> power == "DUT: OFF"@) && (
        state.unit_scale == UnitScale::Auto ==> scale == "Auto"@) && (state.unit_scale
            == UnitScale::Micro ==> scale == "µA"@) && (state.unit_scale == UnitScale::Milli
            ==> scale == "mA"@) && (state.log_path is None ==> log.len() == 0) && (
        state.log_path is Some ==> log == " ● LOG:"@ + state.log_path->0@)
}

/// The parts of the status text, with bars between them.
pub open spec fn status_text(
    port: Seq<char>,
    mode: Seq<char>,
    power: Seq<char>,
    scale: Seq<char>,
    log: Seq<char>,
) -> Seq<char> {
    " "@ + port + " | "@ + mode + " | "@ + power + " | "@ + ("unit: "@ + scale) + log + " "@
}

proof fn lemma_status(state: AppState, pieces: Seq<Piece>)
    requires
        shown(pieces) == status_pieces(state),
    ensures
        status_reads(state, pieces),
{
    let line = shown(pieces);
    assert(line.len() == 2);
    assert(line[0] == pieces[0]@ && line[1] == pieces[1]@);
    lemma_decimal_is_a_numeral(state.vdd_mv as nat);
    let mode = match state.mode {
        Mode::Ampere => "Ampere"@,
        Mode::Source => "Source "@ + decimal(state.vdd_mv as nat) + "mV"@,
    };
    let power = if state.dut_on {
        "DUT: ON"@
    } else {
        "DUT: OFF"@
    };
    let scale = match state.unit_scale {
        UnitScale::Auto => "Auto"@,
        UnitScale::Micro => "µA"@,
        UnitScale::Milli => "mA"@,
    };
    let log = match state.log_path {
        Some(path) => " ● LOG:"@ + path@,
        None => Seq::empty(),
    };
    assert(pieces[0].text@ == status_text(state.port@, mode, power, scale, log));
}

/// The status bar tells the state.
pub proof fn law_the_status_bar_tells_the_state(state: &AppState, pieces: Vec<Piece>)
    requires
        call_ensures(status_line, (state,), pieces),
    ensures
        status_reads(*state, pieces@),
{
    lemma_status(*state, pieces@);
}

/// What the current axis is made of.
pub struct AxisParts {
    pub peak: Single,
    pub wide_peak: Double,
    pub wide_factor: Double,
    pub display: Double,
    pub at_least: Double,
    pub count: Double,
    pub step: Double,
    pub y_step: Double,
    pub width: Double,
    pub middle: Double,
}

/// The axis reaches up to the greatest visible sample, or zero, times the factor, at
/// least 1, rounded up. A row is that over the number of rows.
pub open spec fn axis_steps<F: FloatUnit>(
    fpu: &F,
    visible: Seq<Single>,
    factor: Single,
    rows: int,
    parts: AxisParts,
    y_max: Double,
) -> bool {
    &&& greatest_of_run(Single { bits: 0 }, visible, parts.peak)
    &&& call_ensures(F::widen, (fpu, parts.peak), parts.wide_peak)
    &&& call_ensures(F::widen, (fpu, factor), parts.wide_factor)
    &&& call_ensures(F::wide_times, (fpu, parts.wide_peak, parts.wide_factor), parts.display)
    &&& higher_of(parts.display, Double { bits: 0x3FF0_0000_0000_0000 }, parts.at_least)
    &&& rounded_up(fpu, parts.at_least, y_max)
    &&& call_ensures(F::double_from_count, (fpu, rows as u64), parts.count)
    &&& call_ensures(F::wide_over, (fpu, y_max, parts.count), parts.step)
    &&& higher_of(parts.step, Double { bits: 0x3CB0_0000_0000_0000 }, parts.y_step)
}

/// The rows of a chart, inside its borders and above the labels; at least one.
pub open spec fn rows_inside(height: u16) -> int {
    if height <= 5 {
        1
    } else {
        height - 4
    }
}

/// The axes and the points of the chart, all with one factor.
pub open spec fn axes_drawn<F: FloatUnit>(
    fpu: &F,
    secs: u16,
    unit: Seq<char>,
    factor: Single,
    visible: Seq<Single>,
    parts: AxisParts,
    chart: ChartPanel,
) -> bool {
    let rows = rows_inside(chart.area.height);
    &&& axis_steps(fpu, visible, factor, rows, parts, chart.y_max)
    &&& chart_drawn(fpu, secs, factor, visible, parts.y_step, rows, chart.points@)
    &&& call_ensures(F::double_from_count, (fpu, secs as u64), parts.width)
    &&& chart.x_min.bits != parts.width.bits
    &&& chart.x_min.bits as int % 0x8000_0000_0000_0000 == parts.width.bits as int
        % 0x8000_0000_0000_0000
    &&& call_ensures(
        F::wide_over,
        (fpu, chart.y_max, Double { bits: 0x4000_0000_0000_0000 }),
        parts.middle,
    )
    &&& axis_reads(fpu, parts.middle, unit, chart.y_labels@[1]@)
}

/// The title and the time axis name the window, and half of it in the middle.
pub open spec fn window_named(
    secs: u16,
    all: Seq<char>,
    half: Seq<char>,
    chart: ChartPanel,
) -> bool {
    &&& duration_reads(secs as int, all)
    &&& duration_reads(secs as int / 2, half)
    &&& chart.title@ == " Current Draw — "@ + all + " window "@
    &&& chart.x_labels@[0]@ == "-"@ + all
    &&& chart.x_labels@[1]@ == "-"@ + half
}

/// The chart panel shows the visible samples of a window in a unit. One factor converts
/// both the samples of the columns and the sample that the axis is scaled for.
pub open spec fn panel_drawn<F: FloatUnit>(
    fpu: &F,
    secs: u16,
    unit: Seq<char>,
    factor: Single,
    visible: Seq<Single>,
    label: Seq<char>,
    chart: ChartPanel,
) -> bool {
    &&& exists|parts: AxisParts| #[trigger]
        axes_drawn(fpu, secs, unit, factor, visible, parts, chart)
    &&& exists|all: Seq<char>, half: Seq<char>| #[trigger] window_named(secs, all, half, chart)
    &&& chart.build@ == " "@ + label + " "@
    &&& chart.x_labels@.len() == 3
    &&& chart.x_labels@[2]@ == "now"@
    &&& chart.y_labels@.len() == 3
    &&& chart.y_labels@[0]@ == "0"@
    &&& axis_reads(fpu, chart.y_max, unit, chart.y_labels@[2]@)
}

proof fn lemma_visible_peak(visible: Seq<Single>)
    ensures
        greatest_of_run(Single { bits: 0 }, visible, visible_peak(visible)),
{
    lemma_greatest_of_run(Single { bits: 0 }, visible);
}

#[verifier::rlimit(40)]
proof fn lemma_panel<F: FloatUnit>(
    fpu: &F,
    secs: u16,
    unit: UnitView,
    visible: Seq<Single>,
    label: Seq<char>,
    chart: ChartPanel,
)
    requires
        visible.len() <= 100_000 * secs,
        chart_gives(fpu, secs, unit, visible, label, chart),
    ensures
        panel_drawn(fpu, secs, unit.label, unit.factor, visible, label, chart),
{
    let y_max = chart.y_max;
    let rows = chart_rows(chart.area.height);
    let peak = visible_peak(visible);
    lemma_visible_peak(visible);
    let (wide_peak, wide_factor, display) = choose|
        wide_peak: Double,
        wide_factor: Double,
        display: Double,
    |
        #[trigger] widen_gives(fpu, peak, wide_peak) && #[trigger] widen_gives(
            fpu,
            unit.factor,
            wide_factor,
        ) && #[trigger] wide_times_gives(fpu, wide_peak, wide_factor, display)
            && crate::tui::chart::nice_gives(
            fpu,
            display.larger(Double { bits: 0x3FF0_0000_0000_0000 }),
            y_max,
        );
    let at_least = display.larger(Double { bits: 0x3FF0_0000_0000_0000 });
    lemma_rounded_up(fpu, at_least, y_max);
    let y_step = choose|y_step: Double| #[trigger]
        y_step_gives(fpu, y_max, rows, y_step) && points_give(
            fpu,
            secs,
            unit.factor,
            visible,
            y_step,
            rows,
            chart.points@,
        );
    let (count, step) = choose|count: Double, step: Double|
        #[trigger] double_from_count_gives(fpu, rows as u64, count) && #[trigger] wide_over_gives(
            fpu,
            y_max,
            count,
            step,
        ) && y_step == step.larger(Double { bits: 0x3CB0_0000_0000_0000 });
    lemma_chart_drawn(fpu, secs, unit.factor, visible, y_step, rows, chart.points@);
    let width = choose|width: Double| #[trigger]
        double_from_count_gives(fpu, secs as u64, width) && chart.x_min == width.opposite();
    let middle = choose|middle: Double| #[trigger]
        wide_over_gives(fpu, y_max, Double { bits: 0x4000_0000_0000_0000 }, middle)
            && display_gives(fpu, middle, unit.label, chart.y_labels@[1]@);
    lemma_axis(fpu, middle, unit.label, chart.y_labels@[1]@);
    lemma_axis(fpu, y_max, unit.label, chart.y_labels@[2]@);
    let parts = AxisParts {
        peak,
        wide_peak,
        wide_factor,
        display,
        at_least,
        count,
        step,
        y_step,
        width,
        middle,
    };
    assert(axis_steps(fpu, visible, unit.factor, rows, parts, y_max));
    lemma_duration(secs as nat);
    lemma_duration(secs as nat / 2);
    assert(axes_drawn(fpu, secs, unit.label, unit.factor, visible, parts, chart));
    assert(window_named(
        secs,
        duration_text(secs as nat),
        duration_text(secs as nat / 2),
        chart,
    ));
}

/// The chart panel shows what it was given: columns and axis are scaled by the same
/// factor.
pub proof fn law_columns_and_axis_share_the_factor<F: FloatUnit>(
    fpu: &F,
    area: Area,
    secs: u16,
    unit: &str,
    factor: Single,
    visible: &[Single],
    label: &str,
    chart: ChartPanel,
)
    requires
        visible@.len() <= 100_000 * secs,
        call_ensures(draw_chart::<F>, (fpu, area, secs, unit, factor, visible, label), chart),
    ensures
        chart.area == area,
        panel_drawn(fpu, secs, unit@, factor, visible@, label@, chart),
{
    lemma_panel(fpu, secs, UnitView { label: unit@, factor }, visible@, label@, chart);
}

/// The greatest visible sample sets both the column and the axis: the column of its slot
/// is as high as the sample times the factor, and the axis is scaled for the sample
/// times that same factor.
pub proof fn law_the_greatest_sample_sets_column_and_axis<F: FloatUnit>(
    fpu: &F,
    area: Area,
    secs: u16,
    unit: &str,
    factor: Single,
    visible: &[Single],
    label: &str,
    chart: ChartPanel,
    k: int,
)
    requires
        visible@.len() <= 100_000 * secs,
        call_ensures(draw_chart::<F>, (fpu, area, secs, unit, factor, visible, label), chart),
        greatest_at(visible@, k),
    ensures
        exists|axis: AxisParts, column: ColumnParts|
            #[trigger] axis_steps(
                fpu,
                visible@,
                factor,
                rows_inside(area.height),
                axis,
                chart.y_max,
            ) && #[trigger] column_among(
                fpu,
                secs,
                factor,
                axis.y_step,
                rows_inside(area.height),
                slot_of(secs, visible@.len(), k),
                visible@[k],
                column,
                chart.points@,
            ) && axis.peak == visible@[k] && call_ensures(
                F::times,
                (fpu, visible@[k], factor),
                column.scaled,
            ) && call_ensures(F::widen, (fpu, column.scaled), column.top),
{
    lemma_panel(fpu, secs, UnitView { label: unit@, factor }, visible@, label@, chart);
    let axis = choose|axis: AxisParts| #[trigger]
        axes_drawn(fpu, secs, unit@, factor, visible@, axis, chart);
    if axis.peak.bits != 0 {
        let j = choose|j: int| 0 <= j < visible@.len() && visible@[j] == axis.peak;
        assert(!smaller_number(visible@[k], visible@[j]));
    }
    assert(!smaller_number(axis.peak, visible@[k]));
    let column = lemma_greatest_drawn(
        fpu,
        secs,
        factor,
        visible@,
        axis.y_step,
        rows_inside(area.height),
        chart.points@,
        k,
    );
}

/// The samples of the last `secs` seconds, at 100000 a second.
pub open spec fn window_of(samples: Seq<Single>, secs: u16) -> Seq<Single> {
    if samples.len() <= 100_000 * secs {
        samples
    } else {
        samples.subrange(samples.len() - 100_000 * secs, samples.len() as int)
    }
}

/// The unit of the chart: the selected one, or else by the mean of the last second and
/// the greatest magnitude in the window.
pub open spec fn chart_unit_is<F: FloatUnit>(
    fpu: &F,
    state: AppState,
    samples: Seq<Single>,
    label: Seq<char>,
    factor: Single,
) -> bool {
    exists|avg: Single, peak: Single|
        #[trigger] mean_of_last(fpu, samples, 100_000, avg)
            && #[trigger] greatest_magnitude_of_run(
            window_of(samples, state.time_scale_secs),
            peak,
        ) && scale_unit(state.unit_scale, avg, peak, label, factor)
}

/// What the screen shows of a state, of samples and of a session.
pub open spec fn screen_reads<F: FloatUnit>(
    fpu: &F,
    state: AppState,
    samples: Seq<Single>,
    session: SessionSummary,
    label: Seq<char>,
    screen: Screen,
) -> bool {
    &&& exists|unit: Seq<char>, factor: Single|
        #[trigger] chart_unit_is(fpu, state, samples, unit, factor) && panel_drawn(
            fpu,
            state.time_scale_secs,
            unit,
            factor,
            window_of(samples, state.time_scale_secs),
            label,
            screen.chart,
        )
    &&& screen.rolling.title@ == " Rolling "@
    &&& screen.rolling.tone is None
    &&& exists|stats: Stats|
        #[trigger] stats_of(fpu, samples, stats) && rolling_reads(
            fpu,
            stats,
            samples.len(),
            screen.rolling.pieces@,
        )
    &&& state.dut_on ==> screen.session.title@ == " DUT Session ● "@ && screen.session.tone
        == Some(Tone::Green)
    &&& !state.dut_on ==> screen.session.title@ == " DUT Session "@ && screen.session.tone is None
    &&& session_reads(
        fpu,
        state.dut_on,
        session.0,
        session.1,
        session.2,
        session.3,
        screen.session.pieces@,
    )
    &&& status_reads(state, screen.status@)
}

#[verifier::rlimit(30)]
proof fn lemma_screen<F: FloatUnit>(
    fpu: &F,
    rows: Rows,
    state: AppState,
    samples: Seq<Single>,
    session: SessionSummary,
    label: Seq<char>,
    screen: Screen,
)
    requires
        screen_gives(fpu, rows, state, samples, session, label, screen),
    ensures
        screen_reads(fpu, state, samples, session, label, screen),
        screen.chart.area == rows.chart,
        screen.rolling.area == rows.rolling,
        screen.session.area == rows.session,
        screen.status_area == rows.status,
{
    let secs = state.time_scale_secs;
    let visible = newest(samples, crate::ring::window_len(secs));
    assert(visible =~= window_of(samples, secs));
    let stats = choose|stats: Stats| #[trigger]
        stats_give(fpu, samples, stats) && {
            &&& screen.chart.area == rows.chart
            &&& chart_gives(
                fpu,
                secs,
                chart_unit(state, visible, stats),
                visible,
                label,
                screen.chart,
            )
            &&& rolling_gives(fpu, stats, samples.len(), shown(screen.rolling.pieces@))
            &&& session_line_gives(fpu, state.dut_on, session, shown(screen.session.pieces@))
            &&& shown(screen.status@) == status_pieces(state)
        };
    let unit = chart_unit(state, visible, stats);
    lemma_stats(fpu, samples, stats);
    lemma_rolling(fpu, stats, samples.len(), screen.rolling.pieces@);
    lemma_session_line(fpu, state.dut_on, session, screen.session.pieces@);
    lemma_status(state, screen.status@);
    lemma_panel(fpu, secs, unit, visible, label, screen.chart);
    lemma_greatest_magnitude(visible);
    let peak = crate::float::greatest(
        Single::zero(),
        crate::tui::chart::magnitudes(visible),
    );
    lemma_resolved(state.unit_scale, stats.avg1, peak);
    assert(mean_of_last(fpu, samples, 100_000, stats.avg1));
    assert(greatest_magnitude_of_run(window_of(samples, secs), peak));
    assert(chart_unit_is(fpu, state, samples, unit.label, unit.factor));
}

/// The screen shows the samples given: in the chart those of the window, and behind
/// each label of the rolling statistics its own quantity of all of them.
pub proof fn law_the_screen_shows_the_samples<F: FloatUnit>(
    fpu: &F,
    rows: Rows,
    state: &AppState,
    samples: &[Single],
    session: SessionSummary,
    label: &str,
    screen: Screen,
)
    requires
        call_ensures(draw_rows::<F>, (fpu, rows, state, samples, session, label), screen),
    ensures
        screen_reads(fpu, *state, samples@, session, label@, screen),
        screen.chart.area == rows.chart,
        screen.rolling.area == rows.rolling,
        screen.session.area == rows.session,
        screen.status_area == rows.status,
{
    lemma_screen(fpu, rows, *state, samples@, session, label@, screen);
}

/// Drawing shows the samples given, and puts the parts below each other: the status bar
/// takes the lowest line, the session and the rolling statistics three lines each above
/// it, and the chart the rest; where there are fewer than fifteen lines the chart keeps
/// eight.
pub proof fn law_drawing_shows_the_samples<F: FloatUnit>(
    fpu: &F,
    area: Area,
    state: &AppState,
    samples: &[Single],
    session: SessionSummary,
    label: &str,
    screen: Screen,
)
    requires
        call_ensures(draw::<F>, (fpu, area, state, samples, session, label), screen),
    ensures
        screen_reads(fpu, *state, samples@, session, label@, screen),
        area.height >= 15 && area.y + area.height <= u16::MAX ==> {
            let bottom = area.y + area.height;
            let (x, width) = (area.x, area.width);
            &&& screen.chart.area == Area { x, width, y: area.y, height: (area.height - 7) as u16 }
            &&& screen.rolling.area == Area { x, width, y: (bottom - 7) as u16, height: 3 }
            &&& screen.session.area == Area { x, width, y: (bottom - 4) as u16, height: 3 }
            &&& screen.status_area == Area { x, width, y: (bottom - 1) as u16, height: 1 }
        },
        area.height < 15 && area.y + area.height <= u16::MAX ==> {
            let chart = screen.chart.area;
            let rolling = screen.rolling.area;
            let session_area = screen.session.area;
            let status = screen.status_area;
            &&& chart.y == area.y
            &&& chart.height == if area.height < 8 {
                area.height
            } else {
                8
            }
            &&& rolling.y == chart.y + chart.height && rolling.height <= 3
            &&& session_area.y == rolling.y + rolling.height && session_area.height <= 3
            &&& status.y == session_area.y + session_area.height && status.height <= 1
            &&& status.y + status.height == area.y + area.height
        },
{
    let rows = choose|rows: Rows| #[trigger]
        rows_divide(area, rows) && screen_gives(
            fpu,
            rows,
            *state,
            samples@,
            session,
            label@,
            screen,
        );
    lemma_screen(fpu, rows, *state, samples@, session, label@, screen);
    let parts = seq![rows.chart, rows.rolling, rows.session, rows.status];
    assert(parts[0] == rows.chart && parts[1] == rows.rolling && parts[2] == rows.session
        && parts[3] == rows.status);
}

} // verus!
