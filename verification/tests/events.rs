use crossterm::event::KeyModifiers;
use ppk2tui::command::Command;
use ppk2tui::tui::events::{handle_key, KeyCode, KeyEvent, KeyState, Mode};
use std::sync::mpsc;

fn key(code: KeyCode) -> KeyEvent {
    KeyEvent { code, modifiers: KeyModifiers::empty().bits() }
}

fn key_mod(code: KeyCode, mods: KeyModifiers) -> KeyEvent {
    KeyEvent { code, modifiers: mods.bits() }
}

fn default_state() -> KeyState {
    KeyState {
        dut_on: false,
        mode: Mode::Ampere,
        vdd_mv: 3300,
    }
}

/// Handles a key and sends the command that it leads to.
fn press(key: KeyEvent, state: &mut KeyState, tx: &mpsc::Sender<Command>) -> bool {
    let outcome = handle_key(key, state);
    if let Some(command) = outcome.command {
        tx.send(command).unwrap();
    }
    outcome.quit
}

#[test]
fn q_sends_quit_and_returns_true() {
    let (tx, rx) = mpsc::channel();
    let mut state = default_state();
    let quit = press(key(KeyCode::Char('q')), &mut state, &tx);
    assert!(quit);
    assert_eq!(rx.recv().unwrap(), Command::Quit);
}

#[test]
fn ctrl_c_sends_quit() {
    let (tx, rx) = mpsc::channel();
    let mut state = default_state();
    let quit = press(
        key_mod(KeyCode::Char('c'), KeyModifiers::CONTROL),
        &mut state,
        &tx,
    );
    assert!(quit);
    assert_eq!(rx.recv().unwrap(), Command::Quit);
}

#[test]
fn p_toggles_dut_power_off_to_on() {
    let (tx, rx) = mpsc::channel();
    let mut state = default_state();
    press(key(KeyCode::Char('p')), &mut state, &tx);
    assert!(state.dut_on);
    assert_eq!(rx.recv().unwrap(), Command::SetDutPower(true));
}

#[test]
fn p_toggles_dut_power_on_to_off() {
    let (tx, rx) = mpsc::channel();
    let mut state = KeyState {
        dut_on: true,
        mode: Mode::Ampere,
        vdd_mv: 3300,
    };
    press(key(KeyCode::Char('p')), &mut state, &tx);
    assert!(!state.dut_on);
    assert_eq!(rx.recv().unwrap(), Command::SetDutPower(false));
}

#[test]
fn up_in_ampere_mode_is_ignored() {
    let (tx, rx) = mpsc::channel();
    let mut state = default_state();
    press(key(KeyCode::Up), &mut state, &tx);
    assert!(
        rx.try_recv().is_err(),
        "no command should be sent in ampere mode"
    );
    assert_eq!(state.vdd_mv, 3300);
}

#[test]
fn up_in_source_mode_increases_voltage() {
    let (tx, rx) = mpsc::channel();
    let mut state = KeyState {
        dut_on: false,
        mode: Mode::Source,
        vdd_mv: 3300,
    };
    press(key(KeyCode::Up), &mut state, &tx);
    assert_eq!(state.vdd_mv, 3400);
    assert_eq!(rx.recv().unwrap(), Command::SetVoltage(3400));
}

#[test]
fn down_in_source_mode_decreases_voltage() {
    let (tx, rx) = mpsc::channel();
    let mut state = KeyState {
        dut_on: false,
        mode: Mode::Source,
        vdd_mv: 3300,
    };
    press(key(KeyCode::Down), &mut state, &tx);
    assert_eq!(state.vdd_mv, 3200);
    assert_eq!(rx.recv().unwrap(), Command::SetVoltage(3200));
}

#[test]
fn voltage_clamped_at_max() {
    let (tx, rx) = mpsc::channel();
    let mut state = KeyState {
        dut_on: false,
        mode: Mode::Source,
        vdd_mv: 4950,
    };
    press(key(KeyCode::Up), &mut state, &tx);
    press(key(KeyCode::Up), &mut state, &tx);
    assert_eq!(state.vdd_mv, 5000);
    rx.recv().unwrap();
    rx.recv().unwrap();
}

#[test]
fn voltage_clamped_at_min() {
    let (tx, rx) = mpsc::channel();
    let mut state = KeyState {
        dut_on: false,
        mode: Mode::Source,
        vdd_mv: 850,
    };
    press(key(KeyCode::Down), &mut state, &tx);
    press(key(KeyCode::Down), &mut state, &tx);
    assert_eq!(state.vdd_mv, 800);
    rx.recv().unwrap();
    rx.recv().unwrap();
}

#[test]
fn c_quits_with_the_control_key_only() {
    for bits in 0..=255u8 {
        let mut state = default_state();
        let outcome = handle_key(
            KeyEvent { code: KeyCode::Char('c'), modifiers: bits },
            &mut state,
        );
        let control = bits & KeyModifiers::CONTROL.bits() != 0;
        assert_eq!(outcome.quit, control);
        assert_eq!(outcome.command, if control { Some(Command::Quit) } else { None });
    }
}

#[test]
fn other_keys_send_what_they_stand_for() {
    let mut state = KeyState { dut_on: true, mode: Mode::Source, vdd_mv: 1200 };
    let reset = handle_key(key(KeyCode::Char('r')), &mut state);
    assert_eq!(reset.command, Some(Command::Reset));
    let scale = handle_key(key(KeyCode::Char('s')), &mut state);
    assert_eq!(scale.command, Some(Command::CycleTimeScale));
    for code in [KeyCode::Char('u'), KeyCode::Char('x'), KeyCode::Char('Q'), KeyCode::Other] {
        let outcome = handle_key(key(code), &mut state);
        assert_eq!(outcome.command, None);
        assert!(!outcome.quit);
    }
    assert!(state.dut_on);
    assert_eq!(state.vdd_mv, 1200);
}

#[test]
fn pressing_the_power_key_twice_restores_the_power() {
    for on in [false, true] {
        let mut state = KeyState { dut_on: on, mode: Mode::Ampere, vdd_mv: 3300 };
        handle_key(key(KeyCode::Char('p')), &mut state);
        assert_eq!(state.dut_on, !on);
        handle_key(key(KeyCode::Char('p')), &mut state);
        assert_eq!(state.dut_on, on);
    }
}

#[test]
fn arrows_keep_the_voltage_within_its_limits() {
    for start in 800..=5000u16 {
        for code in [KeyCode::Up, KeyCode::Down] {
            let mut state = KeyState { dut_on: false, mode: Mode::Source, vdd_mv: start };
            let outcome = handle_key(key(code), &mut state);
            assert!((800..=5000).contains(&state.vdd_mv));
            assert_eq!(outcome.command, Some(Command::SetVoltage(state.vdd_mv)));
        }
    }
}

#[test]
fn a_voltage_outside_the_limits_is_moved_only_on_the_near_side() {
    let mut state = KeyState { dut_on: false, mode: Mode::Source, vdd_mv: 300 };
    handle_key(key(KeyCode::Up), &mut state);
    assert_eq!(state.vdd_mv, 400);
    handle_key(key(KeyCode::Down), &mut state);
    assert_eq!(state.vdd_mv, 800);
    state.vdd_mv = 50;
    handle_key(key(KeyCode::Down), &mut state);
    assert_eq!(state.vdd_mv, 800);
    state.vdd_mv = 9000;
    handle_key(key(KeyCode::Down), &mut state);
    assert_eq!(state.vdd_mv, 8900);
}
