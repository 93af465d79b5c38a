//! What the user interface shows.

use crate::float::{
    double_from_count_gives, fixed_gives, greatest, law_greatest_bounds_the_run, times_gives,
    wide_fixed_gives, wide_over_gives, wide_times_gives, widen_gives, Double, FloatUnit, Single,
    SINGLE_ONE, SINGLE_THOUSAND,
};
use crate::ring::{newest, window_len, SAMPLES_PER_SECOND};
use crate::text::{decimal, push_decimal, same_text};
use crate::tui::chart::{
    chart_points, compute_stats, greatest_magnitude, greatest_of, magnitudes, newest_from,
    nice_ceil, nice_gives, points_give, stats_give, Point, Stats, DOUBLE_EPSILON, DOUBLE_ONE,
    DOUBLE_TWO, SINGLE_NEGATIVE_ZERO,
};
use crate::tui::events::Mode;
use crate::tui::{unit_scale_label, AppState, UnitScale};
use vstd::prelude::*;
use vstd::slice::slice_subrange;

verus! {

/// 0.001 in single precision.
pub const SINGLE_THOUSANDTH: u32 = 0x3A83_126F;

/// A unit of current: its label, and the factor that leads to it from µA.
pub struct UnitView {
    pub label: Seq<char>,
    pub factor: Single,
}

pub open spec fn nano() -> UnitView {
    UnitView { label: "nA"@, factor: Single { bits: SINGLE_THOUSAND } }
}

pub open spec fn micro() -> UnitView {
    UnitView { label: "µA"@, factor: Single { bits: SINGLE_ONE } }
}

pub open spec fn milli() -> UnitView {
    UnitView { label: "mA"@, factor: Single { bits: SINGLE_THOUSANDTH } }
}

/// The unit for a current by its magnitude in µA: nA below 1, µA below 1000, mA
/// above, and µA for no current at all.
pub open spec fn unit_for(magnitude: Single) -> UnitView {
    if magnitude.magnitude() == 0 {
        micro()
    } else if magnitude.below(Single { bits: SINGLE_ONE }) {
        nano()
    } else if magnitude.below(Single { bits: SINGLE_THOUSAND }) {
        micro()
    } else {
        milli()
    }
}

/// The unit that a scale selects. The automatic scale goes by the larger of the
/// average and the peak, so that it neither under-scales an empty buffer nor
/// misses a transient.
pub open spec fn resolved(scale: UnitScale, avg_ua: Single, max_ua: Single) -> UnitView {
    match scale {
        UnitScale::Auto => unit_for(avg_ua.absolute().larger(max_ua.absolute())),
        UnitScale::Micro => micro(),
        UnitScale::Milli => milli(),
    }
}

fn pick_unit(magnitude: Single) -> (r: (&'static str, Single))
    ensures
        r.0@ == unit_for(magnitude).label,
        r.1 == unit_for(magnitude).factor,
{
    if magnitude.bits == 0 || magnitude.bits == SINGLE_NEGATIVE_ZERO {
        ("µA", Single::from_bits(SINGLE_ONE))
    } else if magnitude.less_than(Single::from_bits(SINGLE_ONE)) {
        ("nA", Single::from_bits(SINGLE_THOUSAND))
    } else if magnitude.less_than(Single::from_bits(SINGLE_THOUSAND)) {
        ("µA", Single::from_bits(SINGLE_ONE))
    } else {
        ("mA", Single::from_bits(SINGLE_THOUSANDTH))
    }
}

/// The unit that a scale selects: its label, and the factor that leads to it from
/// µA.
pub fn resolve_unit(scale: UnitScale, avg_ua: Single, max_ua: Single) -> (r: (
    &'static str,
    Single,
))
    ensures
        r.0@ == resolved(scale, avg_ua, max_ua).label,
        r.1 == resolved(scale, avg_ua, max_ua).factor,
{
    match scale {
        UnitScale::Auto => pick_unit(avg_ua.abs().max(max_ua.abs())),
        UnitScale::Micro => ("µA", Single::from_bits(SINGLE_ONE)),
        UnitScale::Milli => ("mA", Single::from_bits(SINGLE_THOUSANDTH)),
    }
}

/// The best unit for a single value.
pub fn best_unit(ua: Single) -> (r: (&'static str, Single))
    ensures
        r.0@ == unit_for(ua.absolute()).label,
        r.1 == unit_for(ua.absolute()).factor,
{
    pick_unit(ua.abs())
}

/// `text` is a converted value with its unit: whole nA, never below zero; µA with
/// two decimal places; mA with three.
pub open spec fn quantity_gives<F: FloatUnit>(
    fpu: &F,
    value: Single,
    unit: Seq<char>,
    text: Seq<char>,
) -> bool {
    if unit == "nA"@ {
        exists|digits: Seq<char>| #[trigger]
            fixed_gives(fpu, value.larger(Single::zero()), 0, digits) && text == digits + " nA"@
    } else if unit == "mA"@ {
        exists|digits: Seq<char>| #[trigger]
            fixed_gives(fpu, value, 3, digits) && text == digits + " mA"@
    } else {
        exists|digits: Seq<char>| #[trigger]
            fixed_gives(fpu, value, 2, digits) && text == digits + " µA"@
    }
}

/// `text` is a current, in µA, converted by `factor` and shown in a unit.
pub open spec fn current_gives<F: FloatUnit>(
    fpu: &F,
    ua: Single,
    factor: Single,
    unit: Seq<char>,
    text: Seq<char>,
) -> bool {
    exists|value: Single| #[trigger]
        times_gives(fpu, ua, factor, value) && quantity_gives(fpu, value, unit, text)
}

/// Formats a converted value with its unit.
pub fn fmt_quantity<F: FloatUnit>(fpu: &F, value: Single, unit: &str) -> (text: String)
    ensures
        quantity_gives(fpu, value, unit@, text@),
{
    if same_text(unit, "nA") {
        let mut text = fpu.fixed(value.max(Single::zero()), 0);
        assert(fixed_gives(fpu, value.larger(Single::zero()), 0, text@));
        text.append(" nA");
        text
    } else if same_text(unit, "mA") {
        let mut text = fpu.fixed(value, 3);
        assert(fixed_gives(fpu, value, 3, text@));
        text.append(" mA");
        text
    } else {
        let mut text = fpu.fixed(value, 2);
        assert(fixed_gives(fpu, value, 2, text@));
        text.append(" µA");
        text
    }
}

/// Formats a µA value in the given display unit.
pub fn fmt_current<F: FloatUnit>(fpu: &F, ua: Single, multiplier: Single, unit: &str) -> (text:
    String)
    ensures
        current_gives(fpu, ua, multiplier, unit@, text@),
{
    let value = fpu.times(ua, multiplier);
    assert(times_gives(fpu, ua, multiplier, value));
    fmt_quantity(fpu, value, unit)
}

#[derive(Clone, Copy, Debug, PartialEq, Eq, Structural)]
pub enum Tone {
    Yellow,
    Green,
    Cyan,
}

/// The color of a unit: makes lines of mixed units easy to scan.
pub open spec fn unit_tone(unit: Seq<char>) -> Tone {
    if unit == "nA"@ {
        Tone::Yellow
    } else if unit == "mA"@ {
        Tone::Green
    } else {
        Tone::Cyan
    }
}

pub fn unit_color(unit: &str) -> (tone: Tone)
    ensures
        tone == unit_tone(unit@),
{
    if same_text(unit, "nA") {
        Tone::Yellow
    } else if same_text(unit, "mA") {
        Tone::Green
    } else {
        Tone::Cyan
    }
}

/// A stretch of text on one line, plain or colored.
pub struct Piece {
    pub text: String,
    pub tone: Option<Tone>,
}

pub struct PieceView {
    pub text: Seq<char>,
    pub tone: Option<Tone>,
}

impl View for Piece {
    type V = PieceView;

    open spec fn view(&self) -> PieceView {
        PieceView { text: self.text@, tone: self.tone }
    }
}

pub open spec fn plain(text: Seq<char>) -> PieceView {
    PieceView { text, tone: None }
}

/// What a line of pieces shows.
pub open spec fn shown(pieces: Seq<Piece>) -> Seq<PieceView> {
    Seq::new(pieces.len(), |k: int| pieces[k]@)
}

fn raw(text: &str) -> (piece: Piece)
    ensures
        piece@ == plain(text@),
{
    Piece { text: text.to_owned(), tone: None }
}

/// The piece shows a current in its own best unit and that unit's color.
pub open spec fn value_gives<F: FloatUnit>(fpu: &F, ua: Single, piece: PieceView) -> bool {
    let unit = unit_for(ua.absolute());
    &&& current_gives(fpu, ua, unit.factor, unit.label, piece.text)
    &&& piece.tone == Some(unit_tone(unit.label))
}

/// A colored piece for a single µA value, scaled to its own best unit.
pub fn value_span<F: FloatUnit>(fpu: &F, ua: Single) -> (piece: Piece)
    ensures
        value_gives(fpu, ua, piece@),
{
    let (unit, multiplier) = best_unit(ua);
    Piece { text: fmt_current(fpu, ua, multiplier, unit), tone: Some(unit_color(unit)) }
}

/// `text` is an axis label: whole nA, never below zero; mA with three decimal
/// places; others with one.
pub open spec fn display_gives<F: FloatUnit>(
    fpu: &F,
    value: Double,
    unit: Seq<char>,
    text: Seq<char>,
) -> bool {
    if unit == "nA"@ {
        exists|digits: Seq<char>| #[trigger]
            wide_fixed_gives(fpu, value.larger(Double::zero()), 0, digits) && text == digits + " "@
                + unit
    } else if unit == "mA"@ {
        exists|digits: Seq<char>| #[trigger]
            wide_fixed_gives(fpu, value, 3, digits) && text == digits + " "@ + unit
    } else {
        exists|digits: Seq<char>| #[trigger]
            wide_fixed_gives(fpu, value, 1, digits) && text == digits + " "@ + unit
    }
}

/// Formats an already converted value with the right precision.
pub fn fmt_display<F: FloatUnit>(fpu: &F, value: Double, unit: &str) -> (text: String)
    ensures
        display_gives(fpu, value, unit@, text@),
{
    let mut text: String;
    if same_text(unit, "nA") {
        text = fpu.wide_fixed(value.max(Double::zero()), 0);
        assert(wide_fixed_gives(fpu, value.larger(Double::zero()), 0, text@));
    } else if same_text(unit, "mA") {
        text = fpu.wide_fixed(value, 3);
        assert(wide_fixed_gives(fpu, value, 3, text@));
    } else {
        text = fpu.wide_fixed(value, 1);
        assert(wide_fixed_gives(fpu, value, 1, text@));
    }
    text.append(" ");
    text.append(unit);
    text
}

/// A duration: seconds below a minute, or else minutes, with the seconds left over
/// if there are any.
pub open spec fn duration_text(secs: nat) -> Seq<char> {
    if secs < 60 {
        decimal(secs) + "s"@
    } else if secs % 60 == 0 {
        decimal(secs / 60) + "m"@
    } else {
        decimal(secs / 60) + "m"@ + decimal(secs % 60) + "s"@
    }
}

fn push_duration(out: &mut String, secs: u16)
    ensures
        final(out)@ == old(out)@ + duration_text(secs as nat),
{
    if secs < 60 {
        push_decimal(out, secs as u64);
        out.append("s");
    } else {
        push_decimal(out, (secs / 60) as u64);
        out.append("m");
        if secs % 60 != 0 {
            push_decimal(out, (secs % 60) as u64);
            out.append("s");
        }
    }
    assert(out@ =~= old(out)@ + duration_text(secs as nat));
}

pub fn fmt_duration(secs: u16) -> (text: String)
    ensures
        text@ == duration_text(secs as nat),
{
    let mut text = String::new();
    push_duration(&mut text, secs);
    assert(text@ =~= duration_text(secs as nat));
    text
}

/// A rectangle of character cells.
#[derive(Clone, Copy, Debug, PartialEq, Eq, Structural)]
pub struct Area {
    pub x: u16,
    pub y: u16,
    pub width: u16,
    pub height: u16,
}

/// Where the parts of the screen go.
#[derive(Clone, Copy, Debug, PartialEq, Eq, Structural)]
pub struct Rows {
    pub chart: Area,
    pub rolling: Area,
    pub session: Area,
    pub status: Area,
}

/// The least height of the chart.
pub const CHART_HEIGHT: u16 = 8;

/// The height of the rolling statistics.
pub const ROLLING_HEIGHT: u16 = 3;

/// The height of the session statistics.
pub const SESSION_HEIGHT: u16 = 3;

/// The height of the status bar.
pub const STATUS_HEIGHT: u16 = 1;

/// The rectangle spans the width of `area`.
pub open spec fn spans(area: Area, row: Area) -> bool {
    row.x == area.x && row.width == area.width
}

/// The rectangle begins where the one above it ends.
pub open spec fn follows(above: Area, row: Area) -> bool {
    row.y == above.y + above.height
}

/// Four rectangles, as wide as `area`, divide it from top to bottom without a gap.
/// Where a height of `first` and the other three fit, the three are met and the
/// first rectangle takes the rest. Where they do not, the first has the height
/// `first` if there is that much, the others share what is left, and none is higher
/// than asked for.
pub open spec fn stacked(
    area: Area,
    first: u16,
    second: u16,
    third: u16,
    fourth: u16,
    rows: Seq<Area>,
) -> bool {
    &&& rows.len() == 4
    &&& spans(area, rows[0]) && spans(area, rows[1]) && spans(area, rows[2]) && spans(area, rows[3])
    &&& area.y + area.height <= u16::MAX ==> {
        &&& rows[0].y == area.y
        &&& follows(rows[0], rows[1]) && follows(rows[1], rows[2]) && follows(rows[2], rows[3])
        &&& rows[3].y + rows[3].height <= area.y + area.height
        &&& first + second + third + fourth <= area.height ==> {
            &&& rows[0].height == area.height - second - third - fourth
            &&& rows[1].height == second
            &&& rows[2].height == third
            &&& rows[3].height == fourth
        }
        &&& first <= 0x7FFF && first + second + third + fourth > area.height ==> {
            &&& rows[0].height == if first < area.height {
                first
            } else {
                area.height
            }
            &&& rows[3].y + rows[3].height == area.y + area.height
            &&& rows[1].height <= second
            &&& rows[2].height <= third
            &&& rows[3].height <= fourth
        }
    }
}

/// `ratatui::layout::Layout::split`, vertical, with one minimum and three lengths as
/// constraints. It gives a rectangle for each, as wide as the area, one below the
/// other from the top, and none below the bottom. Where all fit, each length is met
/// and the first rectangle takes the rest. Where they do not, the minimum goes before
/// the lengths, as long as it is no more than 32767; no length is exceeded, and all
/// of the area is used. How the lengths then share the rest is left open.
#[verifier::external_body]
fn split(area: Area, first: u16, second: u16, third: u16, fourth: u16) -> (rows: Vec<Area>)
    ensures
        stacked(area, first, second, third, fourth, rows@),
{
    let (x, y, width, height) = (area.x, area.y, area.width, area.height);
    ratatui::layout::Layout::default().direction(ratatui::layout::Direction::Vertical).constraints(
        [
            ratatui::layout::Constraint::Min(first),
            ratatui::layout::Constraint::Length(second),
            ratatui::layout::Constraint::Length(third),
            ratatui::layout::Constraint::Length(fourth),
        ],
    ).split(ratatui::layout::Rect { x, y, width, height }).iter().map(
        |r| Area { x: r.x, y: r.y, width: r.width, height: r.height },
    ).collect()
}

/// The parts divide the screen.
pub open spec fn rows_divide(area: Area, rows: Rows) -> bool {
    stacked(
        area,
        CHART_HEIGHT,
        ROLLING_HEIGHT,
        SESSION_HEIGHT,
        STATUS_HEIGHT,
        seq![rows.chart, rows.rolling, rows.session, rows.status],
    )
}

/// The chart: a solid area under the current, with its axes.
pub struct ChartPanel {
    pub area: Area,
    pub title: String,
    /// Which build is running, at the right of the title.
    pub build: String,
    pub points: Vec<Point>,
    /// The left end of the time axis; the right end is zero.
    pub x_min: Double,
    pub x_labels: Vec<String>,
    /// The upper end of the current axis; the lower end is zero.
    pub y_max: Double,
    pub y_labels: Vec<String>,
}

/// A framed line.
pub struct Panel {
    pub area: Area,
    pub title: &'static str,
    pub tone: Option<Tone>,
    pub pieces: Vec<Piece>,
}

pub struct Screen {
    pub chart: ChartPanel,
    pub rolling: Panel,
    pub session: Panel,
    pub status_area: Area,
    pub status: Vec<Piece>,
}

/// The greatest visible current, and at least zero.
pub open spec fn visible_peak(visible: Seq<Single>) -> Single {
    greatest(Single::zero(), visible).larger(Single::zero())
}

/// `y_max` is the upper end of the current axis: the greatest visible current in
/// display units, at least 1, rounded up.
pub open spec fn y_max_gives<F: FloatUnit>(
    fpu: &F,
    visible: Seq<Single>,
    factor: Single,
    y_max: Double,
) -> bool {
    exists|peak: Double, wide_factor: Double, display: Double| #[trigger]
        widen_gives(fpu, visible_peak(visible), peak) && #[trigger] widen_gives(
            fpu,
            factor,
            wide_factor,
        ) && #[trigger] wide_times_gives(fpu, peak, wide_factor, display) && nice_gives(
            fpu,
            display.larger(Double { bits: DOUBLE_ONE }),
            y_max,
        )
}

/// Rows of the chart that points can fall in, inside the borders and above the axis
/// labels.
pub open spec fn chart_rows(height: u16) -> int {
    if height < 5 {
        1
    } else {
        height - 4
    }
}

/// `y_step` is the height of a row.
pub open spec fn y_step_gives<F: FloatUnit>(
    fpu: &F,
    y_max: Double,
    rows: int,
    y_step: Double,
) -> bool {
    exists|count: Double, step: Double| #[trigger]
        double_from_count_gives(fpu, rows as u64, count) && #[trigger] wide_over_gives(
            fpu,
            y_max,
            count,
            step,
        ) && y_step == step.larger(Double { bits: DOUBLE_EPSILON })
}

/// The points fill the chart.
pub open spec fn filled<F: FloatUnit>(
    fpu: &F,
    secs: u16,
    factor: Single,
    visible: Seq<Single>,
    y_max: Double,
    rows: int,
    points: Seq<Point>,
) -> bool {
    exists|y_step: Double| #[trigger]
        y_step_gives(fpu, y_max, rows, y_step) && points_give(
            fpu,
            secs,
            factor,
            visible,
            y_step,
            rows,
            points,
        )
}

/// The left end of the time axis.
pub open spec fn x_min_gives<F: FloatUnit>(fpu: &F, secs: u16, x_min: Double) -> bool {
    exists|width: Double| #[trigger]
        double_from_count_gives(fpu, secs as u64, width) && x_min == width.opposite()
}

/// The label half way up the current axis.
pub open spec fn middle_label_gives<F: FloatUnit>(
    fpu: &F,
    y_max: Double,
    unit: Seq<char>,
    text: Seq<char>,
) -> bool {
    exists|middle: Double| #[trigger]
        wide_over_gives(fpu, y_max, Double { bits: DOUBLE_TWO }, middle) && display_gives(
            fpu,
            middle,
            unit,
            text,
        )
}

/// The chart shows the visible samples of a time window in a unit.
pub open spec fn chart_gives<F: FloatUnit>(
    fpu: &F,
    secs: u16,
    unit: UnitView,
    visible: Seq<Single>,
    label: Seq<char>,
    chart: ChartPanel,
) -> bool {
    &&& chart.title@ == " Current Draw — "@ + duration_text(secs as nat) + " window "@
    &&& chart.build@ == " "@ + label + " "@
    &&& y_max_gives(fpu, visible, unit.factor, chart.y_max)
    &&& filled(
        fpu,
        secs,
        unit.factor,
        visible,
        chart.y_max,
        chart_rows(chart.area.height),
        chart.points@,
    )
    &&& x_min_gives(fpu, secs, chart.x_min)
    &&& chart.x_labels@.len() == 3
    &&& chart.x_labels@[0]@ == "-"@ + duration_text(secs as nat)
    &&& chart.x_labels@[1]@ == "-"@ + duration_text(secs as nat / 2)
    &&& chart.x_labels@[2]@ == "now"@
    &&& chart.y_labels@.len() == 3
    &&& chart.y_labels@[0]@ == "0"@
    &&& middle_label_gives(fpu, chart.y_max, unit.label, chart.y_labels@[1]@)
    &&& display_gives(fpu, chart.y_max, unit.label, chart.y_labels@[2]@)
}

fn minus_duration(secs: u16) -> (text: String)
    ensures
        text@ == "-"@ + duration_text(secs as nat),
{
    let mut text = "-".to_owned();
    push_duration(&mut text, secs);
    text
}

/// Draws the chart of the visible samples of a time window.
pub fn draw_chart<F: FloatUnit>(
    fpu: &F,
    area: Area,
    secs: u16,
    unit: &str,
    factor: Single,
    visible: &[Single],
    label: &str,
) -> (chart: ChartPanel)
    requires
        visible@.len() <= window_len(secs),
    ensures
        chart.area == area,
        chart_gives(fpu, secs, UnitView { label: unit@, factor }, visible@, label@, chart),
{
    let highest = greatest_of(Single::zero(), visible, 0, visible.len()).max(Single::zero());
    assert(visible@.subrange(0, visible@.len() as int) =~= visible@);
    let peak = fpu.widen(highest);
    assert(widen_gives(fpu, visible_peak(visible@), peak));
    let wide_factor = fpu.widen(factor);
    assert(widen_gives(fpu, factor, wide_factor));
    let display = fpu.wide_times(peak, wide_factor);
    assert(wide_times_gives(fpu, peak, wide_factor, display));
    let y_max = nice_ceil(fpu, display.max(Double::from_bits(DOUBLE_ONE)));
    let middle = fpu.wide_over(y_max, Double::from_bits(DOUBLE_TWO));
    assert(wide_over_gives(fpu, y_max, Double { bits: DOUBLE_TWO }, middle));

    let rows: u16 = if area.height < 5 {
        1
    } else {
        area.height - 4
    };
    let count = fpu.double_from_count(rows as u64);
    assert(double_from_count_gives(fpu, rows as int as u64, count));
    let step = fpu.wide_over(y_max, count);
    assert(wide_over_gives(fpu, y_max, count, step));
    let y_step = step.max(Double::from_bits(DOUBLE_EPSILON));
    assert(y_step_gives(fpu, y_max, chart_rows(area.height), y_step));
    let points = chart_points(fpu, secs, factor, visible, y_step, rows as usize);

    let width = fpu.double_from_count(secs as u64);
    assert(double_from_count_gives(fpu, secs as u64, width));

    let mut title = " Current Draw — ".to_owned();
    push_duration(&mut title, secs);
    title.append(" window ");
    let mut build = " ".to_owned();
    build.append(label);
    build.append(" ");

    let mut x_labels: Vec<String> = Vec::new();
    x_labels.push(minus_duration(secs));
    x_labels.push(minus_duration(secs / 2));
    x_labels.push("now".to_owned());
    let mut y_labels: Vec<String> = Vec::new();
    y_labels.push("0".to_owned());
    y_labels.push(fmt_display(fpu, middle, unit));
    y_labels.push(fmt_display(fpu, y_max, unit));

    ChartPanel { area, title, build, points, x_min: width.negated(), x_labels, y_max, y_labels }
}

/// The line of rolling statistics.
pub open spec fn rolling_gives<F: FloatUnit>(
    fpu: &F,
    stats: Stats,
    n: nat,
    pieces: Seq<PieceView>,
) -> bool {
    &&& pieces.len() == 11
    &&& pieces[0] == plain("  Now: "@)
    &&& value_gives(fpu, stats.inst, pieces[1])
    &&& pieces[2] == plain("  |  Avg 1s: "@)
    &&& value_gives(fpu, stats.avg1, pieces[3])
    &&& pieces[4] == plain("  |  Avg 10s: "@)
    &&& value_gives(fpu, stats.avg10, pieces[5])
    &&& pieces[6] == plain("  |  Min: "@)
    &&& value_gives(fpu, stats.min, pieces[7])
    &&& pieces[8] == plain("  |  Max: "@)
    &&& value_gives(fpu, stats.max, pieces[9])
    &&& pieces[10] == plain("  |  n: "@ + decimal(n))
}

pub fn rolling_line<F: FloatUnit>(fpu: &F, stats: Stats, n: u64) -> (pieces: Vec<Piece>)
    ensures
        rolling_gives(fpu, stats, n as nat, shown(pieces@)),
{
    let mut count = "  |  n: ".to_owned();
    push_decimal(&mut count, n);
    let mut pieces: Vec<Piece> = Vec::new();
    pieces.push(raw("  Now: "));
    pieces.push(value_span(fpu, stats.inst));
    pieces.push(raw("  |  Avg 1s: "));
    pieces.push(value_span(fpu, stats.avg1));
    pieces.push(raw("  |  Avg 10s: "));
    pieces.push(value_span(fpu, stats.avg10));
    pieces.push(raw("  |  Min: "));
    pieces.push(value_span(fpu, stats.min));
    pieces.push(raw("  |  Max: "));
    pieces.push(value_span(fpu, stats.max));
    pieces.push(Piece { text: count, tone: None });
    pieces
}

/// Average, least and greatest current of a session, and its number of samples.
pub type SessionSummary = (Single, Single, Single, u64);

/// The line of session statistics.
pub open spec fn session_line_gives<F: FloatUnit>(
    fpu: &F,
    dut_on: bool,
    session: SessionSummary,
    pieces: Seq<PieceView>,
) -> bool {
    if !dut_on && session.3 == 0 {
        pieces == seq![plain("  DUT off — no session data"@)]
    } else {
        &&& pieces.len() == 7
        &&& pieces[0] == plain("  Avg: "@)
        &&& value_gives(fpu, session.0, pieces[1])
        &&& pieces[2] == plain("  |  Min: "@)
        &&& value_gives(fpu, session.1, pieces[3])
        &&& pieces[4] == plain("  |  Max: "@)
        &&& value_gives(fpu, session.2, pieces[5])
        &&& pieces[6] == plain(
            "  |  n: "@ + decimal(session.3 as nat) + "  "@ + if dut_on {
                "(running)"@
            } else {
                "(last session)"@
            },
        )
    }
}

pub fn session_line<F: FloatUnit>(fpu: &F, dut_on: bool, session: SessionSummary) -> (pieces: Vec<
    Piece,
>)
    ensures
        session_line_gives(fpu, dut_on, session, shown(pieces@)),
{
    let (avg, min, max, n) = session;
    let mut pieces: Vec<Piece> = Vec::new();
    if !dut_on && n == 0 {
        pieces.push(raw("  DUT off — no session data"));
        assert(shown(pieces@) =~= seq![plain("  DUT off — no session data"@)]);
        return pieces;
    }
    let mut count = "  |  n: ".to_owned();
    push_decimal(&mut count, n);
    count.append("  ");
    count.append(
        if dut_on {
            "(running)"
        } else {
            "(last session)"
        },
    );
    pieces.push(raw("  Avg: "));
    pieces.push(value_span(fpu, avg));
    pieces.push(raw("  |  Min: "));
    pieces.push(value_span(fpu, min));
    pieces.push(raw("  |  Max: "));
    pieces.push(value_span(fpu, max));
    pieces.push(Piece { text: count, tone: None });
    pieces
}

/// What the status bar says of the mode.
pub open spec fn mode_text(mode: Mode, vdd_mv: u16) -> Seq<char> {
    match mode {
        Mode::Ampere => "Ampere"@,
        Mode::Source => "Source "@ + decimal(vdd_mv as nat) + "mV"@,
    }
}

/// What the status bar says of the log.
pub open spec fn log_text(log_path: Option<String>) -> Seq<char> {
    match log_path {
        Some(path) => " ● LOG:"@ + path@,
        None => Seq::empty(),
    }
}

/// The state that the status bar shows.
pub open spec fn state_text(state: AppState) -> Seq<char> {
    " "@ + state.port@ + " | "@ + mode_text(state.mode, state.vdd_mv) + " | "@ + (if state.dut_on {
        "DUT: ON"@
    } else {
        "DUT: OFF"@
    }) + " | "@ + ("unit: "@ + unit_scale_label(state.unit_scale)) + log_text(state.log_path)
        + " "@
}

/// The status bar: the state, and the key bindings.
pub open spec fn status_pieces(state: AppState) -> Seq<PieceView> {
    seq![
        PieceView { text: state_text(state), tone: Some(Tone::Green) },
        plain("  [q] Quit  [p] DUT  [s] Scale  [u] Unit  [↑↓] Voltage"@),
    ]
}

pub fn status_line(state: &AppState) -> (pieces: Vec<Piece>)
    ensures
        shown(pieces@) == status_pieces(*state),
{
    let mut text = " ".to_owned();
    text.append(state.port.as_str());
    text.append(" | ");
    match state.mode {
        Mode::Ampere => {
            text.append("Ampere");
        },
        Mode::Source => {
            text.append("Source ");
            push_decimal(&mut text, state.vdd_mv as u64);
            text.append("mV");
        },
    }
    text.append(" | ");
    text.append(
        if state.dut_on {
            "DUT: ON"
        } else {
            "DUT: OFF"
        },
    );
    text.append(" | ");
    text.append("unit: ");
    text.append(state.unit_scale.label());
    match &state.log_path {
        Some(path) => {
            text.append(" ● LOG:");
            text.append(path.as_str());
        },
        None => {},
    }
    text.append(" ");
    assert(text@ =~= state_text(*state));
    let mut pieces: Vec<Piece> = Vec::new();
    pieces.push(Piece { text, tone: Some(Tone::Green) });
    pieces.push(raw("  [q] Quit  [p] DUT  [s] Scale  [u] Unit  [↑↓] Voltage"));
    assert(shown(pieces@) =~= status_pieces(*state));
    pieces
}

/// The unit of the chart: that of the scale, where the automatic one goes by the
/// mean over the last second and the greatest visible magnitude.
pub open spec fn chart_unit(state: AppState, visible: Seq<Single>, stats: Stats) -> UnitView {
    resolved(state.unit_scale, stats.avg1, greatest(Single::zero(), magnitudes(visible)))
}

/// The screen shows a state, samples and a session in the given parts.
pub open spec fn screen_gives<F: FloatUnit>(
    fpu: &F,
    rows: Rows,
    state: AppState,
    samples: Seq<Single>,
    session: SessionSummary,
    label: Seq<char>,
    screen: Screen,
) -> bool {
    let visible = newest(samples, window_len(state.time_scale_secs));
    exists|stats: Stats| #[trigger]
        stats_give(fpu, samples, stats) && {
            &&& screen.chart.area == rows.chart
            &&& chart_gives(
                fpu,
                state.time_scale_secs,
                chart_unit(state, visible, stats),
                visible,
                label,
                screen.chart,
            )
            &&& screen.rolling.area == rows.rolling
            &&& screen.rolling.title@ == " Rolling "@
            &&& screen.rolling.tone is None
            &&& rolling_gives(fpu, stats, samples.len(), shown(screen.rolling.pieces@))
            &&& screen.session.area == rows.session
            &&& screen.session.title@ == if state.dut_on {
                " DUT Session ● "@
            } else {
                " DUT Session "@
            }
            &&& screen.session.tone == if state.dut_on {
                Some(Tone::Green)
            } else {
                None
            }
            &&& session_line_gives(fpu, state.dut_on, session, shown(screen.session.pieces@))
            &&& screen.status_area == rows.status
            &&& shown(screen.status@) == status_pieces(state)
        }
}

/// Draws the screen into the given parts.
pub fn draw_rows<F: FloatUnit>(
    fpu: &F,
    rows: Rows,
    state: &AppState,
    samples: &[Single],
    sess: SessionSummary,
    label: &str,
) -> (screen: Screen)
    ensures
        screen_gives(fpu, rows, *state, samples@, sess, label@, screen),
{
    let stats = compute_stats(fpu, samples);
    let window: u64 = state.time_scale_secs as u64 * SAMPLES_PER_SECOND as u64;
    let from: usize = newest_from(samples, window);
    let ghost seen = newest(samples@, window_len(state.time_scale_secs));
    let visible_abs_max = greatest_magnitude(samples, from);
    let (unit, multiplier) = resolve_unit(state.unit_scale, stats.avg1, visible_abs_max);
    let visible = slice_subrange(samples, from, samples.len());
    assert(visible@ =~= seen);
    let chart = draw_chart(
        fpu,
        rows.chart,
        state.time_scale_secs,
        unit,
        multiplier,
        visible,
        label,
    );
    assert(chart_unit(*state, seen, stats) == (UnitView { label: unit@, factor: multiplier }));
    let rolling = Panel {
        area: rows.rolling,
        title: " Rolling ",
        tone: None,
        pieces: rolling_line(fpu, stats, samples.len() as u64),
    };
    let session = Panel {
        area: rows.session,
        title: if state.dut_on {
            " DUT Session ● "
        } else {
            " DUT Session "
        },
        tone: if state.dut_on {
            Some(Tone::Green)
        } else {
            None
        },
        pieces: session_line(fpu, state.dut_on, sess),
    };
    Screen { chart, rolling, session, status_area: rows.status, status: status_line(state) }
}

/// Draws the screen. `sess` holds the session since the device under test was last
/// powered on, `label` names the running build.
pub fn draw<F: FloatUnit>(
    fpu: &F,
    area: Area,
    state: &AppState,
    samples: &[Single],
    sess: SessionSummary,
    label: &str,
) -> (screen: Screen)
    ensures
        exists|rows: Rows| #[trigger]
            rows_divide(area, rows) && screen_gives(
                fpu,
                rows,
                *state,
                samples@,
                sess,
                label@,
                screen,
            ),
{
    let parts = split(area, CHART_HEIGHT, ROLLING_HEIGHT, SESSION_HEIGHT, STATUS_HEIGHT);
    let rows = Rows { chart: parts[0], rolling: parts[1], session: parts[2], status: parts[3] };
    assert(seq![rows.chart, rows.rolling, rows.session, rows.status] =~= parts@);
    assert(rows_divide(area, rows));
    draw_rows(fpu, rows, state, samples, sess, label)
}

/// The automatic unit does not hide a large current: with a visible sample of 1 µA
/// or more in magnitude, negative or not, the chart is never in nA.
pub proof fn law_auto_unit_fits_every_visible_sample(
    visible: Seq<Single>,
    avg_ua: Single,
    k: int,
)
    requires
        0 <= k < visible.len(),
        !visible[k].nan(),
        !visible[k].absolute().below(Single { bits: SINGLE_ONE }),
    ensures
        resolved(
            UnitScale::Auto,
            avg_ua,
            greatest(Single::zero(), magnitudes(visible)),
        ) != nano(),
{
    let peak = greatest(Single::zero(), magnitudes(visible));
    law_greatest_bounds_the_run(Single::zero(), magnitudes(visible));
    assert(magnitudes(visible)[k] == visible[k].absolute());
    let r = avg_ua.absolute().larger(peak.absolute());
    assert(peak.ordinal() >= SINGLE_ONE);
    assert(!r.below(Single { bits: SINGLE_ONE }));
    reveal_strlit("nA");
    reveal_strlit("µA");
    reveal_strlit("mA");
    assert("nA"@[0] == 'n' && "µA"@[0] == 'µ' && "mA"@[0] == 'm');
}

/// A value's own unit is the one that the automatic scale picks for that value
/// alone.
pub proof fn law_own_unit_is_the_automatic_unit(ua: Single)
    ensures
        resolved(UnitScale::Auto, ua, ua) == unit_for(ua.absolute()),
        resolved(UnitScale::Auto, Single::zero(), Single::zero()) == micro(),
{
}

} // verus!
