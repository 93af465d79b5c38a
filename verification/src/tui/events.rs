//! Key bindings.

use crate::command::Command;
use crate::ppk2::protocol::{MAX_SOURCE_MV, MIN_SOURCE_MV};
use vstd::prelude::*;

verus! {

#[derive(Clone, Copy, Debug, PartialEq, Eq, Structural)]
pub enum Mode {
    Ampere,
    Source,
}

pub struct KeyState {
    pub dut_on: bool,
    pub mode: Mode,
    pub vdd_mv: u16,
}

#[derive(Clone, Copy, Debug, PartialEq, Eq, Structural)]
pub enum KeyCode {
    Char(char),
    Up,
    Down,
    Other,
}

/// A key press: the key, and the bits of the modifiers held with it.
#[derive(Clone, Copy, Debug, PartialEq, Eq, Structural)]
pub struct KeyEvent {
    pub code: KeyCode,
    pub modifiers: u8,
}

/// What a key press leads to.
#[derive(Clone, Copy, Debug, PartialEq, Eq, Structural)]
pub struct KeyOutcome {
    /// To be sent to the instrument thread.
    pub command: Option<Command>,
    /// The application should quit.
    pub quit: bool,
}

/// How far one key press moves the source voltage, in mV.
pub const VOLTAGE_STEP_MV: u16 = 100;

/// The bit that stands for the control key.
pub open spec fn control(modifiers: u8) -> bool {
    modifiers & 0x02 == 0x02
}

/// `crossterm::event::KeyModifiers::contains`, asked for `CONTROL`: true of the
/// bits in which the one that stands for the control key is set.
#[verifier::external_body]
fn has_control(modifiers: u8) -> (r: bool)
    ensures
        r == control(modifiers),
{
    crossterm::event::KeyModifiers::from_bits_retain(modifiers).contains(
        crossterm::event::KeyModifiers::CONTROL,
    )
}

/// The keys that end the application: `q` and control-`c`.
pub open spec fn quit_key(key: KeyEvent) -> bool {
    ||| key.code == KeyCode::Char('q')
    ||| key.code == KeyCode::Char('c') && control(key.modifiers)
}

/// The source voltage after a key press: the arrows move it, within the
/// regulator's limits, in source mode only.
pub open spec fn voltage_after(key: KeyEvent, mode: Mode, vdd_mv: u16) -> int {
    if mode == Mode::Source && key.code == KeyCode::Up {
        if vdd_mv + VOLTAGE_STEP_MV > MAX_SOURCE_MV {
            MAX_SOURCE_MV as int
        } else {
            vdd_mv + VOLTAGE_STEP_MV
        }
    } else if mode == Mode::Source && key.code == KeyCode::Down {
        if vdd_mv - VOLTAGE_STEP_MV < MIN_SOURCE_MV {
            MIN_SOURCE_MV as int
        } else {
            vdd_mv - VOLTAGE_STEP_MV
        }
    } else {
        vdd_mv as int
    }
}

/// The power state of the device under test after a key press.
pub open spec fn power_after(key: KeyEvent, dut_on: bool) -> bool {
    if key.code == KeyCode::Char('p') {
        !dut_on
    } else {
        dut_on
    }
}

/// The command that a key press sends, by the state that it leads to.
pub open spec fn key_command(key: KeyEvent, mode: Mode, dut_on: bool, vdd_mv: int) -> Option<
    Command,
> {
    if quit_key(key) {
        Some(Command::Quit)
    } else {
        match key.code {
            KeyCode::Char(c) => if c == 'p' {
                Some(Command::SetDutPower(dut_on))
            } else if c == 'r' {
                Some(Command::Reset)
            } else if c == 's' {
                Some(Command::CycleTimeScale)
            } else {
                None
            },
            KeyCode::Up | KeyCode::Down => if mode == Mode::Source {
                Some(Command::SetVoltage(vdd_mv as u16))
            } else {
                None
            },
            KeyCode::Other => None,
        }
    }
}

/// Handles a key event: updates the state, and says which command to send and
/// whether the application should quit.
pub fn handle_key(key: KeyEvent, state: &mut KeyState) -> (r: KeyOutcome)
    requires
        old(state).mode == Mode::Source && key.code == KeyCode::Up ==> old(state).vdd_mv
            + VOLTAGE_STEP_MV <= u16::MAX,
    ensures
        final(state).mode == old(state).mode,
        final(state).dut_on == power_after(key, old(state).dut_on),
        final(state).vdd_mv == voltage_after(key, old(state).mode, old(state).vdd_mv),
        r.quit == quit_key(key),
        r.command == key_command(
            key,
            old(state).mode,
            final(state).dut_on,
            final(state).vdd_mv as int,
        ),
{
    match key.code {
        KeyCode::Char(c) => {
            if c == 'q' || (c == 'c' && has_control(key.modifiers)) {
                return KeyOutcome { command: Some(Command::Quit), quit: true };
            }
            if c == 'p' {
                state.dut_on = !state.dut_on;
                return KeyOutcome {
                    command: Some(Command::SetDutPower(state.dut_on)),
                    quit: false,
                };
            }
            if c == 'r' {
                return KeyOutcome { command: Some(Command::Reset), quit: false };
            }
            if c == 's' {
                return KeyOutcome { command: Some(Command::CycleTimeScale), quit: false };
            }
        },
        KeyCode::Up => {
            if state.mode == Mode::Source {
                let raised: u16 = state.vdd_mv + VOLTAGE_STEP_MV;
                state.vdd_mv = if raised > MAX_SOURCE_MV {
                    MAX_SOURCE_MV
                } else {
                    raised
                };
                return KeyOutcome {
                    command: Some(Command::SetVoltage(state.vdd_mv)),
                    quit: false,
                };
            }
        },
        KeyCode::Down => {
            if state.mode == Mode::Source {
                let lowered: u16 = state.vdd_mv.saturating_sub(VOLTAGE_STEP_MV);
                state.vdd_mv = if lowered < MIN_SOURCE_MV {
                    MIN_SOURCE_MV
                } else {
                    lowered
                };
                return KeyOutcome {
                    command: Some(Command::SetVoltage(state.vdd_mv)),
                    quit: false,
                };
            }
        },
        KeyCode::Other => {},
    }
    KeyOutcome { command: None, quit: false }
}

/// No key takes the voltage out of the regulator's limits.
pub proof fn law_voltage_stays_within_limits(key: KeyEvent, mode: Mode, vdd_mv: u16)
    requires
        MIN_SOURCE_MV <= vdd_mv <= MAX_SOURCE_MV,
    ensures
        MIN_SOURCE_MV <= voltage_after(key, mode, vdd_mv) <= MAX_SOURCE_MV,
{
}

/// In ampere mode no key changes the voltage or sends one.
pub proof fn law_ampere_mode_leaves_the_voltage(key: KeyEvent, dut_on: bool, vdd_mv: u16)
    ensures
        voltage_after(key, Mode::Ampere, vdd_mv) == vdd_mv,
        !(key_command(key, Mode::Ampere, dut_on, vdd_mv as int) matches Some(
            Command::SetVoltage(mv),
        )),
{
}

/// Quitting and the quit command go together.
pub proof fn law_quit_sends_quit(key: KeyEvent, mode: Mode, dut_on: bool, vdd_mv: int)
    ensures
        quit_key(key) <==> key_command(key, mode, dut_on, vdd_mv) == Some(Command::Quit),
{
}

/// Pressing the power key twice restores the power state.
pub proof fn law_power_key_is_an_involution(key: KeyEvent, dut_on: bool)
    requires
        key.code == KeyCode::Char('p'),
    ensures
        power_after(key, dut_on) != dut_on,
        power_after(key, power_after(key, dut_on)) == dut_on,
{
}

/// A voltage command carries the voltage that the state then holds, and a power
/// command the power state.
pub proof fn law_commands_carry_the_state(key: KeyEvent, mode: Mode, dut_on: bool, vdd_mv: u16)
    requires
        mode == Mode::Source && key.code == KeyCode::Up ==> vdd_mv + VOLTAGE_STEP_MV <= u16::MAX,
    ensures
        ({
            let command = key_command(
                key,
                mode,
                power_after(key, dut_on),
                voltage_after(key, mode, vdd_mv),
            );
            &&& command matches Some(Command::SetVoltage(mv)) ==> mv == voltage_after(
                key,
                mode,
                vdd_mv,
            )
            &&& command matches Some(Command::SetDutPower(on)) ==> on != dut_on
            &&& voltage_after(key, mode, vdd_mv) != vdd_mv ==> command == Some(
                Command::SetVoltage(voltage_after(key, mode, vdd_mv) as u16),
            )
        }),
{
}

} // verus!
