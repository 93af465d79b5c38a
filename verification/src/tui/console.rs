//! The session at the terminal: key events one after the other, until one quits.

use crate::command::Command;
use crate::tui::events::{key_command, quit_key, KeyCode, KeyEvent, Mode, VOLTAGE_STEP_MV};
use crate::tui::{app_after, time_scale_steps, unit_scale_steps, AppState};
use vstd::prelude::*;

verus! {

/// What the terminal reports of a key.
#[derive(Clone, Copy, Debug, PartialEq, Eq, Structural)]
pub struct TerminalEvent {
    pub key: KeyEvent,
    /// The key went down: it was not released, and did not repeat.
    pub pressed: bool,
}

/// The state of the application, and whether the user has quit.
pub struct Console {
    pub app: AppState,
    pub quit: bool,
}

/// The event has an effect: it is a key press, and the user has not quit.
pub open spec fn acts(console: Console, event: TerminalEvent) -> bool {
    event.pressed && !console.quit
}

/// The console after an event.
pub open spec fn console_after(console: Console, event: TerminalEvent) -> Console {
    if acts(console, event) {
        Console { app: app_after(console.app, event.key), quit: quit_key(event.key) }
    } else {
        console
    }
}

/// The command that an event sends.
pub open spec fn event_command(console: Console, event: TerminalEvent) -> Option<Command> {
    if acts(console, event) {
        let app = app_after(console.app, event.key);
        key_command(event.key, app.mode, app.dut_on, app.vdd_mv as int)
    } else {
        None
    }
}

impl Console {
    pub fn new(app: AppState) -> (console: Console)
        ensures
            console == (Console { app, quit: false }),
    {
        Console { app, quit: false }
    }

    /// Handles an event: updates the state, and says which command to send. Only key
    /// presses count, and none after the one that quits.
    pub fn on_event(&mut self, event: TerminalEvent) -> (command: Option<Command>)
        requires
            acts(*old(self), event) && old(self).app.mode == Mode::Source && event.key.code
                == KeyCode::Up ==> old(self).app.vdd_mv + VOLTAGE_STEP_MV <= u16::MAX,
        ensures
            *final(self) == console_after(*old(self), event),
            command == event_command(*old(self), event),
    {
        if !event.pressed || self.quit {
            return None;
        }
        let outcome = self.app.on_key(event.key);
        self.quit = outcome.quit;
        outcome.command
    }
}

/// The console after a run of events.
pub open spec fn console_after_all(console: Console, events: Seq<TerminalEvent>) -> Console
    decreases events.len(),
{
    if events.len() == 0 {
        console
    } else {
        console_after(console_after_all(console, events.drop_last()), events.last())
    }
}

/// The commands that a run of events sends, in order.
pub open spec fn commands_sent(console: Console, events: Seq<TerminalEvent>) -> Seq<Command>
    decreases events.len(),
{
    if events.len() == 0 {
        Seq::empty()
    } else {
        let before = commands_sent(console, events.drop_last());
        match event_command(console_after_all(console, events.drop_last()), events.last()) {
            Some(command) => before.push(command),
            None => before,
        }
    }
}

/// The user quits with the event.
pub open spec fn quits(event: TerminalEvent) -> bool {
    event.pressed && quit_key(event.key)
}

/// Where the first event stands with which the user quits, or the number of events.
pub open spec fn quit_index(events: Seq<TerminalEvent>) -> int
    decreases events.len(),
{
    if events.len() == 0 || quits(events.first()) {
        0
    } else {
        1 + quit_index(events.drop_first())
    }
}

/// How often a character key is pressed.
pub open spec fn presses(events: Seq<TerminalEvent>, c: char) -> nat
    decreases events.len(),
{
    if events.len() == 0 {
        0
    } else {
        presses(events.drop_last(), c) + if events.last().pressed && events.last().key.code
            == KeyCode::Char(c) {
            1nat
        } else {
            0
        }
    }
}

/// The key presses among the events.
pub open spec fn presses_only(events: Seq<TerminalEvent>) -> Seq<TerminalEvent>
    decreases events.len(),
{
    if events.len() == 0 {
        Seq::empty()
    } else if events.last().pressed {
        presses_only(events.drop_last()).push(events.last())
    } else {
        presses_only(events.drop_last())
    }
}

proof fn lemma_quit_index(events: Seq<TerminalEvent>)
    ensures
        0 <= quit_index(events) <= events.len(),
        quit_index(events) < events.len() ==> quits(events[quit_index(events)]),
        forall|j: int| 0 <= j < quit_index(events) ==> !quits(#[trigger] events[j]),
    decreases events.len(),
{
    if events.len() > 0 && !quits(events.first()) {
        let rest = events.drop_first();
        lemma_quit_index(rest);
        assert forall|j: int| 0 <= j < quit_index(events) implies !quits(#[trigger] events[j]) by {
            if j > 0 {
                assert(events[j] == rest[j - 1]);
            }
        }
        if quit_index(rest) < rest.len() {
            assert(events[quit_index(events)] == rest[quit_index(rest)]);
        }
    }
}

proof fn lemma_still_running(console: Console, events: Seq<TerminalEvent>)
    requires
        !console.quit,
        forall|j: int| 0 <= j < events.len() ==> !quits(#[trigger] events[j]),
    ensures
        !console_after_all(console, events).quit,
        console_after_all(console, events).app.time_scale_secs == time_scale_steps(
            console.app.time_scale_secs,
            presses(events, 's'),
        ),
        console_after_all(console, events).app.unit_scale == unit_scale_steps(
            console.app.unit_scale,
            presses(events, 'u'),
        ),
    decreases events.len(),
{
    if events.len() > 0 {
        let before = events.drop_last();
        assert forall|j: int| 0 <= j < before.len() implies !quits(#[trigger] before[j]) by {
            assert(before[j] == events[j]);
        }
        lemma_still_running(console, before);
        assert(!quits(events[events.len() - 1]));
    }
}

proof fn lemma_no_more_acts(console: Console, events: Seq<TerminalEvent>, k: int)
    requires
        0 <= k <= events.len(),
        console_after_all(console, events.take(k)).quit,
    ensures
        console_after_all(console, events) == console_after_all(console, events.take(k)),
        commands_sent(console, events) == commands_sent(console, events.take(k)),
    decreases events.len(),
{
    if k == events.len() {
        assert(events.take(k) =~= events);
    } else {
        assert(events.drop_last().take(k) =~= events.take(k));
        lemma_no_more_acts(console, events.drop_last(), k);
    }
}

/// The first key press that quits ends the session. Up to it the session goes on; it
/// sends the quit command as the last one of all; and no later event changes
/// anything or sends anything.
pub proof fn law_the_first_quit_key_ends_the_session(
    console: Console,
    events: Seq<TerminalEvent>,
)
    requires
        !console.quit,
    ensures
        ({
            let q = quit_index(events);
            &&& console_after_all(console, events).quit <==> q < events.len()
            &&& !console_after_all(console, events.take(q)).quit
            &&& q < events.len() ==> {
                &&& console_after_all(console, events) == console_after_all(
                    console,
                    events.take(q + 1),
                )
                &&& commands_sent(console, events) == commands_sent(console, events.take(q)).push(
                    Command::Quit,
                )
            }
        }),
{
    let q = quit_index(events);
    lemma_quit_index(events);
    let before = events.take(q);
    assert forall|j: int| 0 <= j < before.len() implies !quits(#[trigger] before[j]) by {
        assert(before[j] == events[j]);
    }
    lemma_still_running(console, before);
    if q < events.len() {
        let upto = events.take(q + 1);
        assert(upto.drop_last() =~= before);
        assert(upto.last() == events[q]);
        assert(console_after_all(console, upto).quit);
        lemma_no_more_acts(console, events, q + 1);
        assert(commands_sent(console, upto) == commands_sent(console, before).push(Command::Quit));
    } else {
        assert(before =~= events);
    }
}

/// The scales follow the key presses: up to the first key that quits, each `s` is
/// one step of the time scale and each `u` one step of the unit scale, and nothing
/// else moves either.
pub proof fn law_scales_follow_the_key_presses(console: Console, events: Seq<TerminalEvent>)
    requires
        !console.quit,
    ensures
        ({
            let acting = events.take(quit_index(events));
            let after = console_after_all(console, events);
            &&& after.app.time_scale_secs == time_scale_steps(
                console.app.time_scale_secs,
                presses(acting, 's'),
            )
            &&& after.app.unit_scale == unit_scale_steps(
                console.app.unit_scale,
                presses(acting, 'u'),
            )
        }),
{
    let q = quit_index(events);
    lemma_quit_index(events);
    let acting = events.take(q);
    assert forall|j: int| 0 <= j < acting.len() implies !quits(#[trigger] acting[j]) by {
        assert(acting[j] == events[j]);
    }
    lemma_still_running(console, acting);
    if q < events.len() {
        law_the_first_quit_key_ends_the_session(console, events);
        let upto = events.take(q + 1);
        assert(upto.drop_last() =~= acting);
        assert(upto.last() == events[q]);
        assert(quits(events[q]));
        assert(events[q].key.code != KeyCode::Char('s') && events[q].key.code != KeyCode::Char(
            'u',
        ));
        let before = console_after_all(console, acting);
        let after = console_after_all(console, upto);
        assert(after == console_after(before, events[q]));
    } else {
        assert(acting =~= events);
    }
}

/// Only key presses act: releases and repeats neither change nor send anything.
pub proof fn law_only_presses_act(console: Console, events: Seq<TerminalEvent>)
    ensures
        console_after_all(console, events) == console_after_all(console, presses_only(events)),
        commands_sent(console, events) == commands_sent(console, presses_only(events)),
    decreases events.len(),
{
    if events.len() > 0 {
        let before = events.drop_last();
        law_only_presses_act(console, before);
        if events.last().pressed {
            let kept = presses_only(events);
            assert(kept.drop_last() =~= presses_only(before));
            assert(kept.last() == events.last());
        }
    }
}

} // verus!
