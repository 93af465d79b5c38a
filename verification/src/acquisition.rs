//! The decisions of the thread that talks to the device.
//!
//! The thread itself opens the port, sends the frames that are returned here and
//! hands in what it receives.

use crate::command::Command;
use crate::float::{FloatUnit, Single};
use crate::logging::{
    finish_gives, log_gives, optional_text, samples_per_bucket, texts, BucketLogger, BucketState,
    SAMPLE_PERIOD_US,
};
use crate::ppk2::device::{
    power_frame, regulator_frame, valid_voltage, PPK2Device, VoltageOutOfRange,
};
use crate::ppk2::protocol::{
    CMD_AVERAGE_START, CMD_AVERAGE_STOP, CMD_DEVICE_RUNNING, CMD_RESET,
    CMD_SET_POWER_MODE, MODE_AMPERE, MODE_SOURCE,
};
use crate::tui::console::{commands_sent, console_after_all, Console, TerminalEvent};
use crate::tui::events::Mode;
use crate::tui::{no_session, session_gives, SessionStats};
use vstd::prelude::*;

verus! {

/// The bytes of a list of frames.
pub open spec fn bytes_of(frames: Seq<Vec<u8>>) -> Seq<Seq<u8>> {
    Seq::new(frames.len(), |k: int| frames[k]@)
}

/// The frames that select a mode.
pub open spec fn mode_frames(mode: Mode, mv: u16) -> Seq<Seq<u8>> {
    match mode {
        Mode::Ampere => seq![seq![CMD_SET_POWER_MODE, MODE_AMPERE]],
        Mode::Source => seq![regulator_frame(mv), seq![CMD_SET_POWER_MODE, MODE_SOURCE]],
    }
}

/// The frames that begin a session: select the mode, switch the power of the
/// device under test off, start measuring.
pub open spec fn startup_frames(mode: Mode, mv: u16) -> Seq<Seq<u8>> {
    mode_frames(mode, mv) + seq![power_frame(false), seq![CMD_AVERAGE_START]]
}

/// The mode can be selected with the voltage.
pub open spec fn mode_possible(mode: Mode, mv: u16) -> bool {
    mode == Mode::Source ==> valid_voltage(mv)
}

/// The frames that carry a command out.
pub open spec fn command_frames(command: Command) -> Seq<Seq<u8>> {
    match command {
        Command::Quit => seq![seq![CMD_AVERAGE_STOP], seq![CMD_RESET]],
        Command::SetDutPower(on) => seq![power_frame(on)],
        Command::SetVoltage(mv) => mode_frames(Mode::Source, mv),
        Command::Reset => seq![seq![CMD_RESET]],
        Command::CycleTimeScale => Seq::empty(),
    }
}

/// The command can be carried out.
pub open spec fn command_possible(command: Command) -> bool {
    command matches Command::SetVoltage(mv) ==> valid_voltage(mv)
}

/// The power state of the device under test after a command.
pub open spec fn power_after_command(command: Command, dut_on: bool) -> bool {
    match command {
        Command::SetDutPower(on) => on,
        _ => dut_on,
    }
}

/// What a command leads to.
pub struct CommandOutcome {
    /// To be sent to the device, one after the other.
    pub frames: Vec<Vec<u8>>,
    /// The last row of the log, if there is one.
    pub row: Option<String>,
    /// The thread should end.
    pub quit: bool,
}

pub struct Acquisition {
    pub device: PPK2Device,
    pub dut_on: bool,
    pub log: Option<BucketLogger>,
}

/// The log has room for `extra` more samples.
pub open spec fn log_has_room(log: Option<BucketLogger>, extra: nat) -> bool {
    log matches Some(logger) ==> logger@.room_for(extra)
}

fn frame_of(bytes: &[u8]) -> (frame: Vec<u8>)
    ensures
        frame@ == bytes@,
{
    let mut frame: Vec<u8> = Vec::new();
    frame.extend_from_slice(bytes);
    assert(frame@ =~= bytes@);
    frame
}

/// The frames that select a mode, which the device session takes note of.
fn select_mode(device: &mut PPK2Device, mode: Mode, mv: u16) -> (r: Result<
    Vec<Vec<u8>>,
    VoltageOutOfRange,
>)
    ensures
        match r {
            Ok(frames) => {
                &&& mode_possible(mode, mv)
                &&& bytes_of(frames@) == mode_frames(mode, mv)
                &&& *final(device) == (PPK2Device {
                    vdd_mv: if mode == Mode::Source {
                        mv
                    } else {
                        old(device).vdd_mv
                    },
                    ..*old(device)
                })
            },
            Err(e) => !mode_possible(mode, mv) && e.mv == mv && *final(device) == *old(device),
        },
{
    let mut frames: Vec<Vec<u8>> = Vec::new();
    match mode {
        Mode::Ampere => {
            frames.push(frame_of(&device.set_mode_ampere()));
        },
        Mode::Source => match device.set_mode_source(mv) {
            Ok(source) => {
                frames.push(frame_of(&source.regulator));
                frames.push(frame_of(&source.mode));
            },
            Err(e) => {
                return Err(e);
            },
        },
    }
    assert(bytes_of(frames@) =~= mode_frames(mode, mv));
    Ok(frames)
}

impl Acquisition {
    /// Begins a session with a calibrated device. The device keeps whatever power
    /// state it was left in, so its output is switched off rather than assumed to
    /// be off. In source mode a voltage out of range is refused.
    pub fn start(device: PPK2Device, mode: Mode, mv: u16) -> (r: Result<
        (Acquisition, Vec<Vec<u8>>),
        VoltageOutOfRange,
    >)
        ensures
            match r {
                Ok((acquisition, frames)) => {
                    &&& mode_possible(mode, mv)
                    &&& bytes_of(frames@) == startup_frames(mode, mv)
                    &&& acquisition.device == (PPK2Device {
                        vdd_mv: if mode == Mode::Source {
                            mv
                        } else {
                            device.vdd_mv
                        },
                        ..device
                    })
                    &&& !acquisition.dut_on
                    &&& acquisition.log is None
                },
                Err(e) => !mode_possible(mode, mv) && e.mv == mv,
            },
    {
        let mut device = device;
        match select_mode(&mut device, mode, mv) {
            Ok(selected) => {
                let mut frames = selected;
                frames.push(frame_of(&device.set_dut_power(false)));
                frames.push(frame_of(&device.start_measuring()));
                assert(bytes_of(frames@) =~= startup_frames(mode, mv));
                Ok((Acquisition { device, dut_on: false, log: None }, frames))
            },
            Err(e) => Err(e),
        }
    }

    /// Begins a log with a row for every `interval_us`. Gives the header line.
    pub fn open_log(&mut self, interval_us: u64) -> (header: String)
        ensures
            final(self).device == old(self).device,
            final(self).dut_on == old(self).dut_on,
            final(self).log matches Some(logger) && logger@ == BucketState::empty(
                if interval_us < SAMPLE_PERIOD_US {
                    1
                } else {
                    interval_us as nat / SAMPLE_PERIOD_US as nat
                },
                0,
            ),
            header@ == "elapsed_us,avg_ua,min_ua,max_ua,n_samples\n"@,
    {
        let (logger, header) = BucketLogger::new(samples_per_bucket(interval_us));
        self.log = Some(logger);
        header
    }

    /// Carries a command out. A voltage out of range is refused, and leaves
    /// everything as it is.
    pub fn on_command<F: FloatUnit>(
        &mut self,
        fpu: &F,
        command: Command,
        session: &mut SessionStats,
    ) -> (r: Result<CommandOutcome, VoltageOutOfRange>)
        requires
            command is Quit ==> log_has_room(old(self).log, 0),
        ensures
            match r {
                Ok(outcome) => {
                    &&& command_possible(command)
                    &&& bytes_of(outcome.frames@) == command_frames(command)
                    &&& outcome.quit == (command is Quit)
                    &&& final(self).dut_on == power_after_command(command, old(self).dut_on)
                    &&& final(self).device == (PPK2Device {
                        vdd_mv: match command {
                            Command::SetVoltage(mv) => mv,
                            _ => old(self).device.vdd_mv,
                        },
                        ..old(self).device
                    })
                    &&& *final(session) == if command == Command::SetDutPower(true) {
                        no_session()
                    } else {
                        *old(session)
                    }
                    &&& match old(self).log {
                        Some(before) => if command is Quit {
                            final(self).log matches Some(after) && finish_gives(
                                fpu,
                                before@,
                                after@,
                                optional_text(outcome.row),
                            )
                        } else {
                            final(self).log == old(self).log && outcome.row is None
                        },
                        None => final(self).log is None && outcome.row is None,
                    }
                },
                Err(e) => {
                    &&& !command_possible(command)
                    &&& command == Command::SetVoltage(e.mv)
                    &&& *final(self) == *old(self)
                    &&& *final(session) == *old(session)
                },
            },
    {
        let mut frames: Vec<Vec<u8>> = Vec::new();
        let mut row: Option<String> = None;
        let mut quit = false;
        match command {
            Command::Quit => {
                frames.push(frame_of(&self.device.stop_measuring()));
                frames.push(frame_of(&self.device.reset()));
                let mut log: Option<BucketLogger> = None;
                std::mem::swap(&mut log, &mut self.log);
                if let Some(logger) = log {
                    let mut logger = logger;
                    row = logger.finish(fpu);
                    self.log = Some(logger);
                }
                quit = true;
            },
            Command::SetDutPower(on) => {
                frames.push(frame_of(&self.device.set_dut_power(on)));
                self.dut_on = on;
                if on {
                    session.reset();
                }
            },
            Command::SetVoltage(mv) => match select_mode(&mut self.device, Mode::Source, mv) {
                Ok(selected) => {
                    frames = selected;
                },
                Err(e) => {
                    return Err(e);
                },
            },
            Command::Reset => {
                frames.push(frame_of(&self.device.reset()));
            },
            Command::CycleTimeScale => {},
        }
        assert(bytes_of(frames@) =~= command_frames(command));
        Ok(CommandOutcome { frames, row, quit })
    }

    /// Takes note of new samples: in the session's statistics while the device
    /// under test is powered, and in the log. Gives the rows to be written.
    pub fn on_samples<F: FloatUnit>(
        &mut self,
        fpu: &F,
        samples: &[Single],
        session: &mut SessionStats,
    ) -> (rows: Vec<String>)
        requires
            old(self).dut_on ==> old(session).count + samples@.len() <= u64::MAX,
            log_has_room(old(self).log, samples@.len()),
        ensures
            final(self).device == old(self).device,
            final(self).dut_on == old(self).dut_on,
            if old(self).dut_on {
                session_gives(fpu, *old(session), samples@, *final(session))
            } else {
                *final(session) == *old(session)
            },
            match old(self).log {
                Some(before) => final(self).log matches Some(after) && log_gives(
                    fpu,
                    before@,
                    samples@,
                    after@,
                    texts(rows@),
                ),
                None => final(self).log is None && rows@.len() == 0,
            },
    {
        if self.dut_on {
            session.update_all(fpu, samples);
        }
        let mut rows: Vec<String> = Vec::new();
        let mut log: Option<BucketLogger> = None;
        std::mem::swap(&mut log, &mut self.log);
        if let Some(logger) = log {
            let mut logger = logger;
            rows = logger.push_all(fpu, samples);
            self.log = Some(logger);
        }
        rows
    }
}

/// All frames sent in a session: those that begin it, and those of its commands.
pub open spec fn sent(mode: Mode, mv: u16, commands: Seq<Command>) -> Seq<Seq<u8>>
    decreases commands.len(),
{
    if commands.len() == 0 {
        startup_frames(mode, mv)
    } else {
        sent(mode, mv, commands.drop_last()) + command_frames(commands.last())
    }
}

/// The power state after the commands of a session.
pub open spec fn power_state(commands: Seq<Command>) -> bool
    decreases commands.len(),
{
    if commands.len() == 0 {
        false
    } else {
        power_after_command(commands.last(), power_state(commands.drop_last()))
    }
}

/// The frame switches the power of the device under test.
pub open spec fn switches_power(frame: Seq<u8>) -> bool {
    frame.len() > 0 && frame[0] == CMD_DEVICE_RUNNING
}

/// `frames[i]` is the last frame that switches the power, and sets it to `on`.
pub open spec fn power_set_at(frames: Seq<Seq<u8>>, i: int, on: bool) -> bool {
    &&& 0 <= i < frames.len()
    &&& frames[i] == power_frame(on)
    &&& forall|j: int| i < j < frames.len() ==> !switches_power(#[trigger] frames[j])
}

/// The last that the device was told about the power is `on`.
pub open spec fn power_told(frames: Seq<Seq<u8>>, on: bool) -> bool {
    exists|i: int| #[trigger] power_set_at(frames, i, on)
}

/// The power state that the session holds is always the one that the device was
/// last told, from the very start of the session.
pub proof fn law_power_state_is_what_the_device_was_told(
    mode: Mode,
    mv: u16,
    commands: Seq<Command>,
)
    ensures
        power_told(sent(mode, mv, commands), power_state(commands)),
    decreases commands.len(),
{
    let frames = sent(mode, mv, commands);
    let on = power_state(commands);
    if commands.len() == 0 {
        let i = mode_frames(mode, mv).len() as int;
        assert(frames[i] == power_frame(false));
        assert(frames[i + 1] == seq![CMD_AVERAGE_START]);
        assert(frames.len() == i + 2);
        assert(power_set_at(frames, i, false));
    } else {
        law_power_state_is_what_the_device_was_told(mode, mv, commands.drop_last());
        let before = sent(mode, mv, commands.drop_last());
        let i = choose|i: int| #[trigger]
            power_set_at(before, i, power_state(commands.drop_last()));
        let added = command_frames(commands.last());
        if commands.last() is SetDutPower {
            let at = before.len() as int;
            assert(frames[at] == added[0]);
            assert(power_set_at(frames, at, on));
        } else {
            assert forall|j: int| i < j < frames.len() implies !switches_power(
                #[trigger] frames[j],
            ) by {
                if j < before.len() {
                    assert(frames[j] == before[j]);
                } else {
                    assert(frames[j] == added[j - before.len()]);
                }
            }
            assert(frames[i] == before[i]);
            assert(power_set_at(frames, i, on));
        }
    }
}

/// The source voltage after the commands of a session.
pub open spec fn voltage_state(mv: u16, commands: Seq<Command>) -> u16
    decreases commands.len(),
{
    if commands.len() == 0 {
        mv
    } else {
        match commands.last() {
            Command::SetVoltage(set) => set,
            _ => voltage_state(mv, commands.drop_last()),
        }
    }
}

/// The user interface and the device agree on the power: whatever happens at the
/// terminal, the power state that is shown is the one that the device was last told.
pub proof fn law_shown_power_is_what_the_device_was_told(
    console: Console,
    events: Seq<TerminalEvent>,
)
    requires
        !console.app.dut_on,
    ensures
        power_state(commands_sent(console, events)) == console_after_all(
            console,
            events,
        ).app.dut_on,
        power_told(
            sent(console.app.mode, console.app.vdd_mv, commands_sent(console, events)),
            console_after_all(console, events).app.dut_on,
        ),
    decreases events.len(),
{
    let commands = commands_sent(console, events);
    if events.len() > 0 {
        law_shown_power_is_what_the_device_was_told(console, events.drop_last());
        let before = commands_sent(console, events.drop_last());
        if commands != before {
            assert(commands.drop_last() =~= before);
        }
    }
    law_power_state_is_what_the_device_was_told(
        console.app.mode,
        console.app.vdd_mv,
        commands,
    );
}

/// Nothing at the terminal leads to a command that is refused, once the session has
/// begun; and the voltage that is shown is the one that was last set.
pub proof fn law_keys_never_send_a_refused_command(console: Console, events: Seq<TerminalEvent>)
    requires
        mode_possible(console.app.mode, console.app.vdd_mv),
    ensures
        forall|k: int|
            0 <= k < commands_sent(console, events).len() ==> command_possible(
                #[trigger] commands_sent(console, events)[k],
            ),
        ({
            let app = console_after_all(console, events).app;
            &&& app.mode == console.app.mode
            &&& mode_possible(app.mode, app.vdd_mv)
            &&& app.vdd_mv == voltage_state(console.app.vdd_mv, commands_sent(console, events))
        }),
    decreases events.len(),
{
    let commands = commands_sent(console, events);
    if events.len() > 0 {
        law_keys_never_send_a_refused_command(console, events.drop_last());
        let before = commands_sent(console, events.drop_last());
        if commands != before {
            assert(commands.drop_last() =~= before);
        }
        assert forall|k: int| 0 <= k < commands.len() implies command_possible(
            #[trigger] commands[k],
        ) by {
            if k < before.len() {
                assert(commands[k] == before[k]);
            }
        }
    }
}

} // verus!
