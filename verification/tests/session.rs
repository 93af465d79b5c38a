use ppk2tui::acquisition::Acquisition;
use ppk2tui::command::Command;
use ppk2tui::float::{Double, FloatUnit, Single};
use ppk2tui::ppk2::device::{PPK2Device, VoltageOutOfRange};
use ppk2tui::ring::SampleRing;
use ppk2tui::tui::console::{Console, TerminalEvent};
use ppk2tui::tui::events::{KeyCode, KeyEvent, Mode};
use ppk2tui::tui::{AppState, SessionStats, UnitScale};

struct Native;

fn single(v: f32) -> Single {
    Single { bits: v.to_bits() }
}

fn value(v: Single) -> f32 {
    f32::from_bits(v.bits)
}

fn double(v: f64) -> Double {
    Double { bits: v.to_bits() }
}

fn wide(v: Double) -> f64 {
    f64::from_bits(v.bits)
}

impl FloatUnit for Native {
    fn single_from_count(&self, n: u64) -> Single {
        single(n as f32)
    }
    fn plus(&self, a: Single, b: Single) -> Single {
        single(value(a) + value(b))
    }
    fn minus(&self, a: Single, b: Single) -> Single {
        single(value(a) - value(b))
    }
    fn times(&self, a: Single, b: Single) -> Single {
        single(value(a) * value(b))
    }
    fn over(&self, a: Single, b: Single) -> Single {
        single(value(a) / value(b))
    }
    fn parse(&self, text: &str) -> Result<Single, String> {
        match text.parse::<f32>() {
            Ok(v) => Ok(single(v)),
            Err(e) => Err(e.to_string()),
        }
    }
    fn fixed(&self, v: Single, places: u8) -> String {
        format!("{:.*}", places as usize, value(v))
    }
    fn widen(&self, v: Single) -> Double {
        double(value(v) as f64)
    }
    fn narrow(&self, v: Double) -> Single {
        single(wide(v) as f32)
    }
    fn double_from_count(&self, n: u64) -> Double {
        double(n as f64)
    }
    fn wide_plus(&self, a: Double, b: Double) -> Double {
        double(wide(a) + wide(b))
    }
    fn wide_minus(&self, a: Double, b: Double) -> Double {
        double(wide(a) - wide(b))
    }
    fn wide_times(&self, a: Double, b: Double) -> Double {
        double(wide(a) * wide(b))
    }
    fn wide_over(&self, a: Double, b: Double) -> Double {
        double(wide(a) / wide(b))
    }
    fn decade(&self, v: Double) -> i32 {
        wide(v).log10().floor() as i32
    }
    fn power_of_ten(&self, exponent: i32) -> Double {
        double(10f64.powi(exponent))
    }
    fn ceiling(&self, v: Double) -> usize {
        wide(v).ceil() as usize
    }
    fn wide_fixed(&self, v: Double, places: u8) -> String {
        format!("{:.*}", places as usize, wide(v))
    }
}

fn singles(values: &[f32]) -> Vec<Single> {
    values.iter().map(|v| single(*v)).collect()
}

#[test]
fn session_statistics_cover_every_sample() {
    let mut stats = SessionStats::new();
    assert_eq!(stats.avg(&Native), single(0.0));
    assert_eq!(stats.min, single(f32::INFINITY));
    assert_eq!(stats.max, single(f32::NEG_INFINITY));
    stats.update(&Native, single(3.0));
    stats.update_all(&Native, &singles(&[-1.0, 7.0]));
    assert_eq!(
        stats.summary(&Native),
        (single(3.0), single(-1.0), single(7.0), 3)
    );
    assert_eq!(stats.sum, double(9.0));
    stats.reset();
    assert_eq!(stats.count, 0);
    assert_eq!(stats.sum, double(0.0));
    assert_eq!(stats.summary(&Native).0, single(0.0));
}

#[test]
fn session_extremes_skip_what_is_no_number() {
    let mut stats = SessionStats::new();
    stats.update_all(&Native, &singles(&[2.0, f32::NAN, 1.0]));
    assert_eq!(stats.min, single(1.0));
    assert_eq!(stats.max, single(2.0));
    assert_eq!(stats.count, 3);
}

fn state() -> AppState {
    AppState::new("/dev/ttyACM0".to_string(), Mode::Source, 3300, None)
}

fn press(state: &mut AppState, code: KeyCode) -> Option<Command> {
    state.on_key(KeyEvent { code, modifiers: 0 }).command
}

#[test]
fn the_state_starts_with_the_power_off() {
    let s = state();
    assert!(!s.dut_on);
    assert_eq!(s.time_scale_secs, 5);
    assert_eq!(s.unit_scale, UnitScale::Auto);
    assert_eq!(s.vdd_mv, 3300);
}

#[test]
fn time_scales_cycle() {
    let mut s = state();
    let mut seen = vec![s.time_scale_secs];
    for _ in 0..7 {
        assert_eq!(press(&mut s, KeyCode::Char('s')), Some(Command::CycleTimeScale));
        seen.push(s.time_scale_secs);
    }
    assert_eq!(seen, vec![5, 10, 30, 60, 300, 600, 1, 5]);
    s.time_scale_secs = 17;
    s.cycle_time_scale();
    assert_eq!(s.time_scale_secs, 1);
}

#[test]
fn unit_scales_cycle() {
    let mut s = state();
    let mut labels = Vec::new();
    for _ in 0..4 {
        labels.push(s.unit_scale.label());
        assert_eq!(press(&mut s, KeyCode::Char('u')), None);
    }
    assert_eq!(labels, vec!["Auto", "µA", "mA", "Auto"]);
}

#[test]
fn keys_change_the_state_that_they_report() {
    let mut s = state();
    assert_eq!(press(&mut s, KeyCode::Char('p')), Some(Command::SetDutPower(true)));
    assert!(s.dut_on);
    assert_eq!(press(&mut s, KeyCode::Up), Some(Command::SetVoltage(3400)));
    assert_eq!(s.vdd_mv, 3400);
    let outcome = s.on_key(KeyEvent { code: KeyCode::Char('q'), modifiers: 0 });
    assert!(outcome.quit);
    assert_eq!(outcome.command, Some(Command::Quit));
    assert_eq!((s.dut_on, s.vdd_mv, s.time_scale_secs), (true, 3400, 5));
}

#[test]
fn a_full_ring_drops_the_oldest() {
    let mut ring = SampleRing::new(5);
    ring.record(&singles(&[1.0, 2.0, 3.0]));
    assert_eq!(ring.len(), 3);
    ring.record(&singles(&[4.0, 5.0, 6.0, 7.0]));
    assert_eq!(ring.len(), 5);
    assert_eq!(ring.snapshot(1), singles(&[3.0, 4.0, 5.0, 6.0, 7.0]));
    ring.record(&singles(&[]));
    assert_eq!(ring.len(), 5);
}

#[test]
fn a_ring_does_not_show_batches() {
    let samples: Vec<Single> = (0..20).map(|k| single(k as f32)).collect();
    let mut whole = SampleRing::new(6);
    whole.record(&samples);
    for cut in 0..=samples.len() {
        let mut ring = SampleRing::new(6);
        ring.record(&samples[..cut]);
        ring.record(&samples[cut..]);
        assert_eq!(ring.snapshot(5), whole.snapshot(5));
    }
}

#[test]
fn a_snapshot_holds_the_window_and_ten_seconds() {
    let mut ring = SampleRing::new(4_000_000);
    let samples: Vec<Single> = (0..2_500_000u32).map(|k| Single { bits: k }).collect();
    ring.record(&samples);
    for (secs, n) in [(0u16, 1_000_000usize), (1, 1_000_000), (10, 1_000_000), (12, 1_200_000), (60, 2_500_000)] {
        let snapshot = ring.snapshot(secs);
        assert_eq!(snapshot.len(), n);
        assert_eq!(snapshot[0].bits as usize, 2_500_000 - n);
        assert_eq!(snapshot[n - 1].bits, 2_499_999);
    }
}

fn start(mode: Mode) -> Acquisition {
    Acquisition::start(PPK2Device::new(), mode, 3300).unwrap().0
}

#[test]
fn a_session_starts_by_switching_the_power_off() {
    let (a, frames) = Acquisition::start(PPK2Device::new(), Mode::Ampere, 9999).unwrap();
    assert_eq!(frames, vec![vec![0x11, 0x01], vec![0x0c, 0x00], vec![0x06]]);
    assert!(!a.dut_on);
    assert_eq!(a.device.vdd_mv, 3300);
    let (a, frames) = Acquisition::start(PPK2Device::new(), Mode::Source, 5000).unwrap();
    assert_eq!(
        frames,
        vec![vec![0x0d, 19, 136], vec![0x11, 0x02], vec![0x0c, 0x00], vec![0x06]]
    );
    assert_eq!(a.device.vdd_mv, 5000);
    assert!(a.log.is_none());
}

#[test]
fn a_session_does_not_start_out_of_range() {
    let e = Acquisition::start(PPK2Device::new(), Mode::Source, 700).err().unwrap();
    assert_eq!(e, VoltageOutOfRange { mv: 700 });
}

#[test]
fn commands_become_frames() {
    let mut a = start(Mode::Source);
    let mut stats = SessionStats::new();
    for (command, frames) in [
        (Command::SetDutPower(true), vec![vec![0x0c, 0x06]]),
        (Command::SetDutPower(false), vec![vec![0x0c, 0x00]]),
        (Command::SetVoltage(800), vec![vec![0x0d, 3, 32], vec![0x11, 0x02]]),
        (Command::Reset, vec![vec![0x20]]),
        (Command::CycleTimeScale, vec![]),
        (Command::Quit, vec![vec![0x07], vec![0x20]]),
    ] {
        let outcome = a.on_command(&Native, command, &mut stats).unwrap();
        assert_eq!(outcome.frames, frames);
        assert_eq!(outcome.quit, command == Command::Quit);
        assert!(outcome.row.is_none());
    }
    assert_eq!(a.device.vdd_mv, 800);
}

#[test]
fn a_refused_command_changes_nothing() {
    let mut a = start(Mode::Source);
    let mut stats = SessionStats::new();
    stats.update(&Native, single(1.0));
    let e = a.on_command(&Native, Command::SetVoltage(5100), &mut stats).err().unwrap();
    assert_eq!(e.mv, 5100);
    assert_eq!(a.device.vdd_mv, 3300);
    assert_eq!(stats.count, 1);
}

#[test]
fn a_session_is_counted_from_power_on() {
    let mut a = start(Mode::Ampere);
    let mut stats = SessionStats::new();
    a.on_samples(&Native, &singles(&[1.0, 2.0]), &mut stats);
    assert_eq!(stats.count, 0);
    a.on_command(&Native, Command::SetDutPower(true), &mut stats).unwrap();
    a.on_samples(&Native, &singles(&[3.0, 4.0]), &mut stats);
    assert_eq!(stats.count, 2);
    a.on_command(&Native, Command::SetDutPower(false), &mut stats).unwrap();
    a.on_samples(&Native, &singles(&[5.0]), &mut stats);
    assert_eq!(stats.count, 2);
    assert_eq!(stats.max, single(4.0));
    a.on_command(&Native, Command::SetDutPower(true), &mut stats).unwrap();
    assert_eq!(stats.count, 0);
}

#[test]
fn the_log_takes_every_sample() {
    let mut a = start(Mode::Ampere);
    let mut stats = SessionStats::new();
    assert!(a.on_samples(&Native, &singles(&[1.0]), &mut stats).is_empty());
    assert_eq!(a.open_log(25), "elapsed_us,avg_ua,min_ua,max_ua,n_samples\n");
    let rows = a.on_samples(&Native, &singles(&[1.0, 2.0, 5.0]), &mut stats);
    assert_eq!(rows, vec!["0,1.500,1.000,2.000,2\n"]);
    let outcome = a.on_command(&Native, Command::Quit, &mut stats).unwrap();
    assert_eq!(outcome.row, Some("20,5.000,5.000,5.000,1\n".to_string()));
}

#[test]
fn the_power_state_is_what_the_device_was_told() {
    let (mut a, mut sent) = Acquisition::start(PPK2Device::new(), Mode::Source, 3300).unwrap();
    let mut stats = SessionStats::new();
    for command in [
        Command::SetDutPower(true),
        Command::SetVoltage(4000),
        Command::SetDutPower(false),
        Command::Reset,
        Command::SetDutPower(true),
        Command::CycleTimeScale,
    ] {
        sent.extend(a.on_command(&Native, command, &mut stats).unwrap().frames);
        let told = sent.iter().rev().find(|f| f[0] == 0x0c).unwrap();
        assert_eq!(told[1] == 0x06, a.dut_on);
    }
}

#[test]
fn keys_keep_the_screen_and_the_device_in_step() {
    let codes = [
        KeyCode::Char('p'),
        KeyCode::Up,
        KeyCode::Down,
        KeyCode::Char('s'),
        KeyCode::Char('r'),
        KeyCode::Char('u'),
        KeyCode::Other,
    ];
    for mv in [800u16, 850, 3300, 4950, 5000] {
        let mut app = AppState::new("p".to_string(), Mode::Source, mv, None);
        let (mut a, mut sent) = Acquisition::start(PPK2Device::new(), Mode::Source, mv).unwrap();
        let mut stats = SessionStats::new();
        let mut pick: usize = 7;
        for _ in 0..500 {
            pick = (pick * 31 + 11) % 1009;
            if let Some(command) = press(&mut app, codes[pick % codes.len()]) {
                let outcome = a.on_command(&Native, command, &mut stats).unwrap();
                sent.extend(outcome.frames);
            }
            assert_eq!(a.dut_on, app.dut_on);
            assert_eq!(a.device.vdd_mv, app.vdd_mv);
            let told = sent.iter().rev().find(|f| f[0] == 0x0c).unwrap();
            assert_eq!(told[1] == 0x06, app.dut_on);
        }
    }
}

fn event(code: KeyCode, pressed: bool) -> TerminalEvent {
    TerminalEvent { key: KeyEvent { code, modifiers: 0 }, pressed }
}

/// The commands that a run of events sends.
fn commands(console: &mut Console, events: &[TerminalEvent]) -> Vec<Command> {
    events.iter().filter_map(|e| console.on_event(*e)).collect()
}

#[test]
fn nothing_acts_after_the_first_quit_key() {
    let mut console = Console::new(state());
    let sent = commands(
        &mut console,
        &[
            event(KeyCode::Char('p'), true),
            event(KeyCode::Char('s'), true),
            event(KeyCode::Char('q'), true),
            event(KeyCode::Char('p'), true),
            event(KeyCode::Char('s'), true),
            event(KeyCode::Char('u'), true),
            event(KeyCode::Up, true),
            event(KeyCode::Char('q'), true),
        ],
    );
    assert_eq!(
        sent,
        vec![Command::SetDutPower(true), Command::CycleTimeScale, Command::Quit]
    );
    assert!(console.quit);
    assert!(console.app.dut_on);
    assert_eq!(console.app.time_scale_secs, 10);
    assert_eq!(console.app.unit_scale, UnitScale::Auto);
    assert_eq!(console.app.vdd_mv, 3300);
}

#[test]
fn only_presses_act() {
    let mut console = Console::new(state());
    for code in [KeyCode::Char('p'), KeyCode::Char('s'), KeyCode::Char('u'), KeyCode::Char('q'), KeyCode::Up] {
        assert_eq!(console.on_event(event(code, false)), None);
    }
    assert!(!console.quit);
    assert!(!console.app.dut_on);
    assert_eq!(console.app.time_scale_secs, 5);
    assert_eq!(console.app.unit_scale, UnitScale::Auto);
}

#[test]
fn scales_move_by_one_step_for_each_press() {
    let time = [1u16, 5, 10, 30, 60, 300, 600];
    let unit = [UnitScale::Auto, UnitScale::Micro, UnitScale::Milli];
    let codes = [
        KeyCode::Char('s'),
        KeyCode::Char('u'),
        KeyCode::Char('p'),
        KeyCode::Char('s'),
        KeyCode::Down,
        KeyCode::Other,
    ];
    let mut console = Console::new(state());
    let (mut s, mut u, mut pick) = (1usize, 0usize, 3usize);
    for _ in 0..300 {
        pick = (pick * 37 + 5) % 1013;
        let code = codes[pick % codes.len()];
        let pressed = pick % 3 != 0;
        console.on_event(event(code, pressed));
        if pressed && code == KeyCode::Char('s') {
            s += 1;
        }
        if pressed && code == KeyCode::Char('u') {
            u += 1;
        }
        assert_eq!(console.app.time_scale_secs, time[s % 7]);
        assert_eq!(console.app.unit_scale, unit[u % 3]);
    }
}

#[test]
fn session_total_is_that_of_its_samples() {
    let samples: Vec<f32> = (0..100).map(|k| k as f32 * 0.1 - 2.0).collect();
    let mut stats = SessionStats::new();
    stats.update_all(&Native, &singles(&samples));
    let mut total = 0.0f64;
    for &ua in &samples {
        total += ua as f64;
    }
    assert_eq!(stats.sum, double(total));
    assert_eq!(stats.avg(&Native), single((total / 100.0) as f32));
}

#[test]
fn a_session_does_not_show_batches() {
    let samples = singles(&(0..30).map(|k| (k * 7 % 11) as f32 * 0.3).collect::<Vec<f32>>());
    let mut whole = SessionStats::new();
    whole.update_all(&Native, &samples);
    for cut in 0..=samples.len() {
        let mut stats = SessionStats::new();
        stats.update_all(&Native, &samples[..cut]);
        stats.update_all(&Native, &samples[cut..]);
        assert_eq!(stats.summary(&Native), whole.summary(&Native));
        assert_eq!(stats.sum, whole.sum);
    }
}
