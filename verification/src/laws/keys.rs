//! Laws on the keys: what each of them does, and that the others do nothing.

use crate::command::Command;
use crate::tui::console::{Console, TerminalEvent};
use crate::tui::events::{control, handle_key, KeyCode, KeyEvent, KeyOutcome, KeyState, Mode};
use crate::tui::{lemma_next_time_scale, AppState, UnitScale};
use vstd::prelude::*;

verus! {

/// The control key is held: the second lowest bit is set.
pub open spec fn with_control(modifiers: u8) -> bool {
    (modifiers / 2) % 2 == 1
}

/// The key quits: `q`, or `c` with the control key.
pub open spec fn quitting(key: KeyEvent) -> bool {
    key.code == KeyCode::Char('q') || (key.code == KeyCode::Char('c') && with_control(
        key.modifiers,
    ))
}

/// What a key does to power and voltage, and what it sends. `p` switches the power, and
/// in source mode the arrows move the voltage by 100 mV, up to 5000 and down to 800; both
/// are sent as they then are. `r` resets, `s` asks for the next time scale, and the keys
/// that quit say so. All else changes nothing and sends nothing.
pub open spec fn key_does(
    key: KeyEvent,
    mode: Mode,
    on: bool,
    on_after: bool,
    mv: u16,
    mv_after: u16,
    outcome: KeyOutcome,
) -> bool {
    &&& outcome.quit <==> quitting(key)
    &&& quitting(key) ==> outcome.command == Some(Command::Quit)
    &&& key.code == KeyCode::Char('p') ==> on_after != on && outcome.command == Some(
        Command::SetDutPower(on_after),
    )
    &&& key.code != KeyCode::Char('p') ==> on_after == on
    &&& key.code == KeyCode::Char('r') ==> outcome.command == Some(Command::Reset)
    &&& key.code == KeyCode::Char('s') ==> outcome.command == Some(Command::CycleTimeScale)
    &&& key.code == KeyCode::Up && mode == Mode::Source ==> {
        &&& mv <= 4900 ==> mv_after == mv + 100
        &&& mv > 4900 ==> mv_after == 5000
        &&& outcome.command == Some(Command::SetVoltage(mv_after))
    }
    &&& key.code == KeyCode::Down && mode == Mode::Source ==> {
        &&& mv >= 900 ==> mv_after == mv - 100
        &&& mv < 900 ==> mv_after == 800
        &&& outcome.command == Some(Command::SetVoltage(mv_after))
    }
    &&& (key.code != KeyCode::Up && key.code != KeyCode::Down) || mode == Mode::Ampere ==> mv_after
        == mv
    &&& (key.code == KeyCode::Up || key.code == KeyCode::Down) && mode == Mode::Ampere
        ==> outcome.command is None
    &&& key.code == KeyCode::Other ==> outcome.command is None
    &&& key.code matches KeyCode::Char(c) ==> !quitting(key) && c != 'p' && c != 'r' && c != 's'
        ==> outcome.command is None
}

proof fn lemma_control(modifiers: u8)
    ensures
        control(modifiers) <==> with_control(modifiers),
{
    assert(modifiers & 0x02 == 0x02 <==> (modifiers / 2) % 2 == 1) by (bit_vector);
}

/// Each key does what it is bound to.
pub proof fn law_keys_do_what_they_are_bound_to(
    key: KeyEvent,
    state: &mut KeyState,
    outcome: KeyOutcome,
)
    requires
        call_ensures(handle_key, (key, state), outcome),
    ensures
        final(state).mode == old(state).mode,
        key_does(
            key,
            old(state).mode,
            old(state).dut_on,
            final(state).dut_on,
            old(state).vdd_mv,
            final(state).vdd_mv,
            outcome,
        ),
{
    lemma_control(key.modifiers);
}

/// The next time scale, in seconds: 1, 5, 10, 30, 60, 300 and 600 follow each other, and
/// 1 follows 600 and anything else.
pub open spec fn next_scale(secs: u16, next: u16) -> bool {
    &&& secs == 1 ==> next == 5
    &&& secs == 5 ==> next == 10
    &&& secs == 10 ==> next == 30
    &&& secs == 30 ==> next == 60
    &&& secs == 60 ==> next == 300
    &&& secs == 300 ==> next == 600
    &&& secs != 1 && secs != 5 && secs != 10 && secs != 30 && secs != 60 && secs != 300 ==> next
        == 1
}

/// The next unit scale: automatic, µA and mA follow each other.
pub open spec fn next_unit(scale: UnitScale, next: UnitScale) -> bool {
    &&& scale == UnitScale::Auto ==> next == UnitScale::Micro
    &&& scale == UnitScale::Micro ==> next == UnitScale::Milli
    &&& scale == UnitScale::Milli ==> next == UnitScale::Auto
}

/// Port, mode and log stay as they are.
pub open spec fn same_setup(before: AppState, after: AppState) -> bool {
    before.port == after.port && before.mode == after.mode && before.log_path == after.log_path
}

/// What a key does to the state of the application. Besides power and voltage, `s` moves
/// the time scale on and `u` the unit scale.
pub open spec fn key_moves(
    key: KeyEvent,
    before: AppState,
    after: AppState,
    outcome: KeyOutcome,
) -> bool {
    &&& same_setup(before, after)
    &&& key_does(
        key,
        before.mode,
        before.dut_on,
        after.dut_on,
        before.vdd_mv,
        after.vdd_mv,
        outcome,
    )
    &&& key.code == KeyCode::Char('s') ==> next_scale(before.time_scale_secs, after.time_scale_secs)
    &&& key.code != KeyCode::Char('s') ==> after.time_scale_secs == before.time_scale_secs
    &&& key.code == KeyCode::Char('u') ==> next_unit(before.unit_scale, after.unit_scale)
    &&& key.code != KeyCode::Char('u') ==> after.unit_scale == before.unit_scale
}

/// Each key moves the state of the application as it is bound to.
pub proof fn law_keys_move_the_application(
    app: &mut AppState,
    key: KeyEvent,
    outcome: KeyOutcome,
)
    requires
        call_ensures(AppState::on_key, (app, key), outcome),
        old(app).mode == Mode::Source && key.code == KeyCode::Up ==> old(app).vdd_mv <= 65435,
    ensures
        key_moves(key, *old(app), *final(app), outcome),
{
    lemma_control(key.modifiers);
    lemma_next_time_scale(old(app).time_scale_secs);
}

/// Cycling moves one scale on, and nothing else.
pub proof fn law_cycling_moves_one_scale(time: &mut AppState, unit: &mut AppState)
    requires
        call_ensures(AppState::cycle_time_scale, (time,), ()),
        call_ensures(AppState::cycle_unit_scale, (unit,), ()),
    ensures
        next_scale(old(time).time_scale_secs, final(time).time_scale_secs),
        same_setup(*old(time), *final(time)),
        final(time).dut_on == old(time).dut_on,
        final(time).vdd_mv == old(time).vdd_mv,
        final(time).unit_scale == old(time).unit_scale,
        next_unit(old(unit).unit_scale, final(unit).unit_scale),
        same_setup(*old(unit), *final(unit)),
        final(unit).dut_on == old(unit).dut_on,
        final(unit).vdd_mv == old(unit).vdd_mv,
        final(unit).time_scale_secs == old(unit).time_scale_secs,
{
    lemma_next_time_scale(old(time).time_scale_secs);
}

/// The application starts with the power off, five seconds and the automatic unit.
pub proof fn law_the_application_starts_with_the_power_off(
    port: String,
    mode: Mode,
    vdd_mv: u16,
    log_path: Option<String>,
    app: AppState,
    console: Console,
)
    requires
        call_ensures(AppState::new, (port, mode, vdd_mv, log_path), app),
        call_ensures(Console::new, (app,), console),
    ensures
        app.port == port,
        app.mode == mode,
        app.vdd_mv == vdd_mv,
        app.log_path == log_path,
        !app.dut_on,
        app.time_scale_secs == 5,
        app.unit_scale == UnitScale::Auto,
        console.app == app,
        !console.quit,
{
}

/// A key that is pressed before the user has quit moves the application, and what it
/// sends is sent; anything else changes and sends nothing.
pub proof fn law_only_keys_pressed_before_the_quit_act(
    console: &mut Console,
    event: TerminalEvent,
    command: Option<Command>,
)
    requires
        call_ensures(Console::on_event, (console, event), command),
        old(console).app.mode == Mode::Source && event.key.code == KeyCode::Up ==> old(
            console,
        ).app.vdd_mv <= 65435,
    ensures
        !event.pressed || old(console).quit ==> *final(console) == *old(console) && command is None,
        event.pressed && !old(console).quit ==> key_moves(
            event.key,
            old(console).app,
            final(console).app,
            KeyOutcome { command, quit: final(console).quit },
        ),
{
    lemma_control(event.key.modifiers);
    lemma_next_time_scale(old(console).app.time_scale_secs);
}

} // verus!
