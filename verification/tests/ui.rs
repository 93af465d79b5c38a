use ppk2tui::build_info::tui_label;
use ppk2tui::float::{Double, FloatUnit, Single};
use ppk2tui::tui::chart::{chart_points, compute_stats, mean, nice_ceil, round_up_fraction, Point};
use ppk2tui::tui::events::Mode;
use ppk2tui::tui::ui::{
    best_unit, draw, draw_rows, fmt_current, fmt_display, fmt_duration, resolve_unit,
    session_line, status_line, unit_color, value_span, Area, Piece, Rows, Screen, Tone,
};
use ppk2tui::tui::{AppState, UnitScale};
use ratatui::backend::TestBackend;
use ratatui::layout::Rect;
use ratatui::style::{Color, Style};
use ratatui::text::{Line, Span};
use ratatui::widgets::{Axis, Block, Borders, Chart, Dataset, Paragraph};
use ratatui::{Frame, Terminal};

struct Native;

fn single(v: f32) -> Single {
    Single { bits: v.to_bits() }
}

fn value(v: Single) -> f32 {
    f32::from_bits(v.bits)
}

fn double(v: f64) -> Double {
    Double { bits: v.to_bits() }
}

fn wide(v: Double) -> f64 {
    f64::from_bits(v.bits)
}

impl FloatUnit for Native {
    fn single_from_count(&self, n: u64) -> Single {
        single(n as f32)
    }
    fn plus(&self, a: Single, b: Single) -> Single {
        single(value(a) + value(b))
    }
    fn minus(&self, a: Single, b: Single) -> Single {
        single(value(a) - value(b))
    }
    fn times(&self, a: Single, b: Single) -> Single {
        single(value(a) * value(b))
    }
    fn over(&self, a: Single, b: Single) -> Single {
        single(value(a) / value(b))
    }
    fn parse(&self, text: &str) -> Result<Single, String> {
        match text.parse::<f32>() {
            Ok(v) => Ok(single(v)),
            Err(e) => Err(e.to_string()),
        }
    }
    fn fixed(&self, v: Single, places: u8) -> String {
        format!("{:.*}", places as usize, value(v))
    }
    fn widen(&self, v: Single) -> Double {
        double(value(v) as f64)
    }
    fn narrow(&self, v: Double) -> Single {
        single(wide(v) as f32)
    }
    fn double_from_count(&self, n: u64) -> Double {
        double(n as f64)
    }
    fn wide_plus(&self, a: Double, b: Double) -> Double {
        double(wide(a) + wide(b))
    }
    fn wide_minus(&self, a: Double, b: Double) -> Double {
        double(wide(a) - wide(b))
    }
    fn wide_times(&self, a: Double, b: Double) -> Double {
        double(wide(a) * wide(b))
    }
    fn wide_over(&self, a: Double, b: Double) -> Double {
        double(wide(a) / wide(b))
    }
    fn decade(&self, v: Double) -> i32 {
        wide(v).log10().floor() as i32
    }
    fn power_of_ten(&self, exponent: i32) -> Double {
        double(10f64.powi(exponent))
    }
    fn ceiling(&self, v: Double) -> usize {
        wide(v).ceil() as usize
    }
    fn wide_fixed(&self, v: Double, places: u8) -> String {
        format!("{:.*}", places as usize, wide(v))
    }
}

const LABEL: &str = "v0.1.0 · abc1234 · 2026-05-13";

fn rect(a: Area) -> Rect {
    Rect { x: a.x, y: a.y, width: a.width, height: a.height }
}

fn color(tone: Tone) -> Color {
    match tone {
        Tone::Yellow => Color::Yellow,
        Tone::Green => Color::Green,
        Tone::Cyan => Color::Cyan,
    }
}

fn line(pieces: &[Piece]) -> Line<'static> {
    let spans: Vec<Span<'static>> = pieces
        .iter()
        .map(|p| match p.tone {
            Some(tone) => Span::styled(p.text.clone(), Style::default().fg(color(tone))),
            None => Span::raw(p.text.clone()),
        })
        .collect();
    Line::from(spans)
}

/// Puts a screen on a frame.
fn render(frame: &mut Frame, screen: &Screen) {
    let chart = &screen.chart;
    let data: Vec<(f64, f64)> = chart.points.iter().map(|p| (wide(p.x), wide(p.y))).collect();
    let dataset = Dataset::default()
        .marker(ratatui::symbols::Marker::Block)
        .style(Style::default().fg(Color::Cyan))
        .data(&data);
    let widget = Chart::new(vec![dataset])
        .block(
            Block::default()
                .borders(Borders::ALL)
                .title(chart.title.clone())
                .title(Line::from(Span::raw(chart.build.clone())).right_aligned()),
        )
        .x_axis(Axis::default().bounds([wide(chart.x_min), 0.0]).labels(chart.x_labels.clone()))
        .y_axis(Axis::default().bounds([0.0, wide(chart.y_max)]).labels(chart.y_labels.clone()));
    frame.render_widget(widget, rect(chart.area));
    for panel in [&screen.rolling, &screen.session] {
        frame.render_widget(
            Paragraph::new(line(&panel.pieces))
                .block(Block::default().borders(Borders::ALL).title(panel.title)),
            rect(panel.area),
        );
    }
    frame.render_widget(Paragraph::new(line(&screen.status)), rect(screen.status_area));
}

fn app_state() -> AppState {
    AppState {
        port: "/dev/ttyACM0".to_string(),
        mode: Mode::Ampere,
        vdd_mv: 3300,
        dut_on: false,
        time_scale_secs: 5,
        unit_scale: UnitScale::Auto,
        log_path: None,
    }
}

fn singles(values: &[f32]) -> Vec<Single> {
    values.iter().map(|v| single(*v)).collect()
}

fn no_session() -> (Single, Single, Single, u64) {
    (single(0.0), single(0.0), single(0.0), 0)
}

/// Draws a state and three samples into a terminal of the given size.
fn drawn(state: &AppState, width: u16, height: u16) -> Terminal<TestBackend> {
    let samples = singles(&[1.0, 2.0, 3.0]);
    let mut terminal = Terminal::new(TestBackend::new(width, height)).unwrap();
    terminal
        .draw(|f| {
            let a = f.area();
            let area = Area { x: a.x, y: a.y, width: a.width, height: a.height };
            let screen = draw(&Native, area, state, &samples, no_session(), LABEL);
            render(f, &screen);
        })
        .unwrap();
    terminal
}

#[test]
fn build_label_renders_in_chart_header() {
    let terminal = drawn(&app_state(), 120, 24);
    let rendered: String = terminal
        .backend()
        .buffer()
        .content()
        .iter()
        .map(|c| c.symbol())
        .collect();

    assert!(
        rendered.contains(LABEL),
        "build label {:?} missing from rendered TUI",
        LABEL
    );
    assert!(rendered.contains("Current Draw — 5s window"));
    assert!(rendered.contains("Now: 3.00 µA  |  Avg 1s: 2.00 µA  |  Avg 10s: 2.00 µA"));
    assert!(rendered.contains("DUT off — no session data"));
}

#[test]
fn narrow_terminal_does_not_panic() {
    // The chart title plus the build label is ~57 columns; narrower
    // terminals must truncate rather than panic.
    for width in [40u16, 60, 80] {
        drawn(&app_state(), width, 20);
    }
    for height in 0..20u16 {
        drawn(&app_state(), 40, height);
    }
}

#[test]
fn auto_no_data_defaults_to_ua() {
    let (unit, _) = resolve_unit(UnitScale::Auto, single(0.0), single(0.0));
    assert_eq!(unit, "µA");
}

#[test]
fn auto_picks_na_for_sub_ua() {
    let (unit, mult) = resolve_unit(UnitScale::Auto, single(0.5), single(0.8));
    assert_eq!(unit, "nA");
    assert!((value(mult) - 1_000.0).abs() < 1e-6);
}

#[test]
fn auto_picks_ua_for_mid_range() {
    let (unit, mult) = resolve_unit(UnitScale::Auto, single(250.0), single(400.0));
    assert_eq!(unit, "µA");
    assert!((value(mult) - 1.0).abs() < 1e-6);
}

#[test]
fn auto_picks_ma_above_1000ua() {
    let (unit, mult) = resolve_unit(UnitScale::Auto, single(1500.0), single(2000.0));
    assert_eq!(unit, "mA");
    assert!((value(mult) - 0.001).abs() < 1e-9);
}

#[test]
fn auto_uses_visible_max_not_just_avg() {
    let (unit, _) = resolve_unit(UnitScale::Auto, single(0.0), single(5000.0));
    assert_eq!(unit, "mA");
}

#[test]
fn explicit_milli_overrides_auto() {
    let (unit, _) = resolve_unit(UnitScale::Milli, single(0.001), single(0.001));
    assert_eq!(unit, "mA");
}

#[test]
fn fmt_na_is_integer() {
    assert_eq!(fmt_current(&Native, single(0.5), single(1_000.0), "nA"), "500 nA");
}

#[test]
fn fmt_na_clamps_negative_to_zero() {
    assert_eq!(fmt_current(&Native, single(-5.0), single(1_000.0), "nA"), "0 nA");
}

#[test]
fn fmt_ma_three_dp() {
    assert_eq!(fmt_current(&Native, single(1500.0), single(0.001), "mA"), "1.500 mA");
}

#[test]
fn fmt_ua_two_dp() {
    assert_eq!(fmt_current(&Native, single(123.456), single(1.0), "µA"), "123.46 µA");
}

#[test]
fn nice_ceil_rounds_to_1_2_5_multiples() {
    let nice = |v: f64| wide(nice_ceil(&Native, double(v)));
    assert_eq!(nice(347.0), 500.0); // 3.47 × 100 → 5 × 100
    assert_eq!(nice(85.0), 100.0); // 8.5  × 10  → 10 × 10
    assert_eq!(nice(12.0), 20.0); // 1.2  × 10  → 2  × 10
    assert_eq!(nice(2.3), 5.0); // 2.3  × 1   → 5  × 1
    assert_eq!(nice(0.85), 1.0); // 8.5  × 0.1 → 10 × 0.1
    assert_eq!(nice(1.0), 1.0); // exact
    assert_eq!(nice(500.0), 500.0); // exact
    assert_eq!(nice(501.0), 1000.0); // just over 500
}

#[test]
fn nice_ceil_of_what_is_not_positive_is_one() {
    for v in [0.0, -0.0, -3.0, f64::NEG_INFINITY] {
        assert_eq!(nice_ceil(&Native, double(v)), double(1.0));
    }
}

#[test]
fn fractions_round_up_to_the_next_step() {
    for (fraction, step) in [(0.3, 1.0), (1.0, 1.0), (1.5, 2.0), (2.0, 2.0), (4.9, 5.0), (5.0, 5.0), (5.1, 10.0), (12.0, 10.0)] {
        assert_eq!(round_up_fraction(double(fraction)), double(step));
    }
    assert_eq!(round_up_fraction(double(f64::NAN)), double(10.0));
}

#[test]
fn units_change_at_one_and_at_a_thousand() {
    for (ua, unit) in [
        (0.0f32, "µA"),
        (-0.0, "µA"),
        (0.999, "nA"),
        (-0.5, "nA"),
        (1.0, "µA"),
        (-999.0, "µA"),
        (1000.0, "mA"),
        (f32::INFINITY, "mA"),
        (f32::NAN, "mA"),
    ] {
        assert_eq!(best_unit(single(ua)).0, unit, "{ua}");
        assert_eq!(resolve_unit(UnitScale::Auto, single(ua), single(ua)).0, unit);
    }
    assert_eq!(best_unit(single(5.0)).1, single(1.0));
    assert_eq!(best_unit(single(0.5)).1, single(1000.0));
    assert_eq!(best_unit(single(5e3)).1, single(0.001));
    assert_eq!(resolve_unit(UnitScale::Micro, single(1e6), single(1e6)).0, "µA");
}

#[test]
fn a_large_negative_sample_keeps_the_chart_out_of_nanoamps() {
    let rows = rows_of_height(20);
    let screen = draw_rows(
        &Native,
        rows,
        &app_state(),
        &singles(&[-0.1, -2.0, -0.1]),
        no_session(),
        LABEL,
    );
    assert_eq!(screen.chart.y_labels[2], "1.0 µA");
    let quiet = draw_rows(
        &Native,
        rows,
        &app_state(),
        &singles(&[-0.1, 0.4, -0.1]),
        no_session(),
        LABEL,
    );
    assert_eq!(quiet.chart.y_labels, vec!["0", "250 nA", "500 nA"]);
}

#[test]
fn values_take_the_color_of_their_unit() {
    assert_eq!(unit_color("nA"), Tone::Yellow);
    assert_eq!(unit_color("mA"), Tone::Green);
    assert_eq!(unit_color("µA"), Tone::Cyan);
    let piece = value_span(&Native, single(2500.0));
    assert_eq!(piece.text, "2.500 mA");
    assert_eq!(piece.tone, Some(Tone::Green));
    assert_eq!(value_span(&Native, single(0.25)).text, "250 nA");
    assert_eq!(value_span(&Native, single(-12.5)).text, "-12.50 µA");
}

#[test]
fn axis_labels_have_the_precision_of_their_unit() {
    assert_eq!(fmt_display(&Native, double(12.34), "nA"), "12 nA");
    assert_eq!(fmt_display(&Native, double(-12.34), "nA"), "0 nA");
    assert_eq!(fmt_display(&Native, double(12.34), "µA"), "12.3 µA");
    assert_eq!(fmt_display(&Native, double(12.34), "mA"), "12.340 mA");
}

#[test]
fn durations_are_minutes_and_seconds() {
    for (secs, text) in [(0, "0s"), (5, "5s"), (59, "59s"), (60, "1m"), (61, "1m1s"), (150, "2m30s"), (600, "10m"), (65535, "1092m15s")] {
        assert_eq!(fmt_duration(secs), text);
    }
}

#[test]
fn statistics_look_back_one_and_ten_seconds() {
    let mut samples = vec![single(9.0); 1_000_000];
    samples.extend(vec![single(1.0); 900_000]);
    samples.extend(vec![single(3.0); 100_000]);
    samples.push(single(-2.0));
    let stats = compute_stats(&Native, &samples);
    assert_eq!(stats.inst, single(-2.0));
    assert_eq!(stats.min, single(-2.0));
    assert_eq!(stats.max, single(9.0));
    let expected = |run: &[Single]| run.iter().map(|v| value(*v)).sum::<f32>() / run.len() as f32;
    assert_eq!(value(stats.avg1), expected(&samples[samples.len() - 100_000..]));
    assert_eq!(value(stats.avg10), expected(&samples[samples.len() - 1_000_000..]));
    assert!((value(stats.avg1) - 2.99995).abs() < 1e-3);
}

#[test]
fn statistics_of_nothing_are_zero() {
    let stats = compute_stats(&Native, &[]);
    for v in [stats.inst, stats.avg1, stats.avg10, stats.min, stats.max] {
        assert_eq!(v, single(0.0));
    }
    assert_eq!(mean(&Native, &singles(&[1.0, 2.0]), 2), single(0.0));
    assert_eq!(mean(&Native, &singles(&[7.0, 1.0, 2.0]), 1), single(1.5));
}

fn rows_of_height(height: u16) -> Rows {
    let area = Area { x: 0, y: 0, width: 100, height };
    Rows { chart: area, rolling: area, session: area, status: area }
}

#[test]
fn rows_share_the_screen_where_they_fit() {
    for height in (15..200u16).chain([1000, 65535]) {
        for y in [0u16, 3] {
            if height as u32 + y as u32 > 65535 {
                continue;
            }
            let area = Area { x: 2, y, width: 90, height };
            let screen = draw(&Native, area, &app_state(), &[], no_session(), LABEL);
            let rest = height - 7;
            assert_eq!(screen.chart.area, Area { x: 2, y, width: 90, height: rest });
            assert_eq!(screen.rolling.area, Area { x: 2, y: y + rest, width: 90, height: 3 });
            assert_eq!(screen.session.area, Area { x: 2, y: y + rest + 3, width: 90, height: 3 });
            assert_eq!(screen.status_area, Area { x: 2, y: y + rest + 6, width: 90, height: 1 });
        }
    }
}

#[test]
fn rows_keep_their_order_on_a_low_screen() {
    for height in 0..15u16 {
        // A different place each time, so that each layout is worked out afresh.
        for y in (0..60u16).chain([65_520]) {
            let area = Area { x: 1, y, width: 33, height };
            let screen = draw(&Native, area, &app_state(), &[], no_session(), LABEL);
            let mut end = y;
            for a in [screen.chart.area, screen.rolling.area, screen.session.area, screen.status_area] {
                assert_eq!((a.x, a.width), (1, 33));
                assert_eq!(a.y, end, "from top to bottom without a gap");
                end = a.y + a.height;
            }
            assert_eq!(end, y + height, "down to the bottom");
            // The chart goes before the panels, and no panel is higher than asked for.
            assert_eq!(screen.chart.area.height, height.min(8));
            assert!(screen.rolling.area.height <= 3);
            assert!(screen.session.area.height <= 3);
            assert!(screen.status_area.height <= 1);
        }
    }
}

/// The points of a chart in ordinary arithmetic.
fn expected_points(secs: u16, factor: f32, visible: &[f32], y_step: f64, rows: usize) -> Vec<(f64, f64)> {
    let window = secs as usize * 100_000;
    let bucket_size = (window / 500).max(1);
    let offset = window - visible.len();
    let mut points = Vec::new();
    for i in 0..500 {
        let from = i * bucket_size;
        let to = ((i + 1) * bucket_size).min(window);
        if to <= offset {
            continue;
        }
        let s = from.saturating_sub(offset);
        let e = to.saturating_sub(offset).min(visible.len());
        let peak = visible[s..e].iter().copied().fold(f32::NEG_INFINITY, f32::max);
        if !peak.is_finite() {
            continue;
        }
        let t = (to as f64 - window as f64) / 100_000.0;
        let top = (peak.max(0.0) * factor) as f64;
        let reach = ((top / y_step).ceil() as usize).min(rows);
        for row in 0..=reach {
            points.push((t, (row as f64 * y_step).min(top)));
        }
    }
    points
}

fn pairs(points: &[Point]) -> Vec<(f64, f64)> {
    points.iter().map(|p| (wide(p.x), wide(p.y))).collect()
}

#[test]
fn columns_are_filled_up_to_their_peaks() {
    for secs in [1u16, 5] {
        for n in [0usize, 1, 199, 200, 201, 999, 1000, 1001, 12_345, 100_000] {
            let visible: Vec<f32> = (0..n).map(|k| ((k * 37) % 1000) as f32 - 100.0).collect();
            let got = chart_points(&Native, secs, single(1.0), &singles(&visible), double(45.0), 20);
            assert_eq!(pairs(&got), expected_points(secs, 1.0, &visible, 45.0, 20));
        }
    }
}

#[test]
fn a_column_without_a_finite_peak_is_left_out() {
    let mut visible = vec![5.0f32; 400];
    for v in &mut visible[..200] {
        *v = f32::NAN;
    }
    let got = chart_points(&Native, 1, single(1.0), &singles(&visible), double(10.0), 20);
    assert_eq!(pairs(&got), vec![(0.0, 0.0), (0.0, 5.0)]);
}

#[test]
fn a_window_of_no_seconds_has_no_columns() {
    assert!(chart_points(&Native, 0, single(1.0), &[], double(1.0), 20).is_empty());
}

#[test]
fn a_sample_is_drawn_by_its_age() {
    // A spike 300 samples ago lies in the same column however many came before it.
    for n in [301usize, 5_000, 100_000] {
        let mut visible = vec![0.0f32; n];
        visible[n - 301] = 50.0;
        let points = chart_points(&Native, 1, single(1.0), &singles(&visible), double(10.0), 20);
        let high: Vec<f64> = pairs(&points)
            .iter()
            .filter(|p| p.1 == 50.0)
            .map(|p| p.0)
            .collect();
        assert_eq!(high, vec![-0.002]);
    }
}

#[test]
fn the_chart_is_scaled_to_the_visible_window() {
    let mut state = app_state();
    state.time_scale_secs = 1;
    // The large sample has left the window.
    let mut samples = singles(&[90_000.0]);
    samples.extend(vec![single(340.0); 100_000]);
    let screen = draw_rows(&Native, rows_of_height(24), &state, &samples, no_session(), LABEL);
    assert_eq!(wide(screen.chart.y_max), 500.0);
    assert_eq!(wide(screen.chart.x_min), -1.0);
    assert_eq!(screen.chart.y_labels, vec!["0", "250.0 µA", "500.0 µA"]);
    assert_eq!(screen.chart.x_labels, vec!["-1s", "-0s", "now"]);
    assert_eq!(screen.chart.title, " Current Draw — 1s window ");
    assert_eq!(screen.chart.build, " v0.1.0 · abc1234 · 2026-05-13 ");
    let visible = vec![340.0f32; 100_000];
    assert_eq!(
        pairs(&screen.chart.points),
        expected_points(1, 1.0, &visible, 500.0 / 20.0, 20)
    );
    assert_eq!(screen.rolling.pieces[9].text, "90.000 mA");
    assert_eq!(screen.rolling.pieces[10].text, "  |  n: 100001");
}

#[test]
fn a_low_chart_still_has_one_row() {
    let screen = draw_rows(
        &Native,
        rows_of_height(2),
        &app_state(),
        &singles(&[3.0]),
        no_session(),
        LABEL,
    );
    assert_eq!(pairs(&screen.chart.points), vec![(0.0, 0.0), (0.0, 3.0)]);
}

fn text_of(pieces: &[Piece]) -> String {
    pieces.iter().map(|p| p.text.as_str()).collect()
}

#[test]
fn session_line_tells_whether_the_session_runs() {
    let session = (single(1.5), single(-0.5), single(2500.0), 12);
    assert_eq!(
        text_of(&session_line(&Native, true, session)),
        "  Avg: 1.50 µA  |  Min: 0 nA  |  Max: 2.500 mA  |  n: 12  (running)"
    );
    assert_eq!(
        text_of(&session_line(&Native, false, session)),
        "  Avg: 1.50 µA  |  Min: 0 nA  |  Max: 2.500 mA  |  n: 12  (last session)"
    );
    assert_eq!(
        text_of(&session_line(&Native, false, no_session())),
        "  DUT off — no session data"
    );
    assert!(text_of(&session_line(&Native, true, no_session())).ends_with("n: 0  (running)"));
}

#[test]
fn session_panel_shows_the_power_state() {
    let mut state = app_state();
    let off = draw_rows(&Native, rows_of_height(9), &state, &[], no_session(), LABEL);
    assert_eq!((off.session.title, off.session.tone), (" DUT Session ", None));
    assert_eq!((off.rolling.title, off.rolling.tone), (" Rolling ", None));
    state.dut_on = true;
    let on = draw_rows(&Native, rows_of_height(9), &state, &[], no_session(), LABEL);
    assert_eq!((on.session.title, on.session.tone), (" DUT Session ● ", Some(Tone::Green)));
}

#[test]
fn status_line_shows_the_state() {
    let mut state = app_state();
    let keys = "  [q] Quit  [p] DUT  [s] Scale  [u] Unit  [↑↓] Voltage";
    let pieces = status_line(&state);
    assert_eq!(pieces[0].text, " /dev/ttyACM0 | Ampere | DUT: OFF | unit: Auto ");
    assert_eq!(pieces[0].tone, Some(Tone::Green));
    assert_eq!(pieces[1].text, keys);
    assert_eq!(pieces[1].tone, None);
    state.mode = Mode::Source;
    state.dut_on = true;
    state.unit_scale = UnitScale::Milli;
    state.log_path = Some("out.csv".to_string());
    assert_eq!(
        status_line(&state)[0].text,
        " /dev/ttyACM0 | Source 3300mV | DUT: ON | unit: mA ● LOG:out.csv "
    );
}

#[test]
fn the_running_build_is_on_the_screen() {
    let label = tui_label("1.2.3", "f00ba4", "2026-01-02");
    let area = Area { x: 0, y: 0, width: 120, height: 24 };
    let screen = draw(&Native, area, &app_state(), &[], no_session(), &label);
    assert_eq!(screen.chart.build, " v1.2.3 · f00ba4 · 2026-01-02 ");
}

/// The least of 1, 2 and 5 times a power of ten that is not below `v`.
fn least_nice(v: u64) -> u64 {
    let mut unit: u64 = 1;
    loop {
        for digit in [1, 2, 5] {
            if digit * unit >= v {
                return digit * unit;
            }
        }
        unit *= 10;
    }
}

#[test]
fn whole_numbers_round_up_to_the_least_nice_number() {
    let mut values: Vec<u64> = (1..20_000).collect();
    let mut unit: u64 = 1;
    while unit <= 100_000_000 {
        for digit in [1, 2, 5, 10] {
            values.extend([digit * unit, digit * unit + 1]);
            if digit * unit > 1 {
                values.push(digit * unit - 1);
            }
        }
        unit *= 10;
    }
    values.extend((0..2_000).map(|k| 1 + (k * 7_368_787) % 1_000_000_000));
    values.retain(|v| *v <= 1_000_000_000);
    values.sort();
    let mut before = 0.0;
    for v in values {
        let nice = nice_ceil(&Native, double(v as f64));
        assert_eq!(wide(nice), least_nice(v) as f64, "{v}");
        assert_eq!(nice_ceil(&Native, nice), nice);
        assert!(wide(nice) >= before);
        before = wide(nice);
    }
}
