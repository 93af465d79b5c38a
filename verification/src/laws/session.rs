//! Laws on a session with the device: what is sent, what is kept, and what is logged.

use crate::acquisition::{
    bytes_of, command_frames, mode_frames, startup_frames, Acquisition, CommandOutcome,
};
use crate::command::Command;
use crate::float::{FloatUnit, Single};
use crate::laws::log::{
    counted_so_far, lemma_counted_more, lemma_log, lemma_logged_more, lemma_summary, lemma_written,
    log_reads, logged, nothing_counted, summary_reads, written,
};
use crate::laws::text::{lemma_decimal_is_a_numeral, numeral_of};
use crate::ppk2::calibration::{
    usable_current, Coefficient, Modifiers, ParseModifiersError, RangeCoefficients,
};
use crate::ppk2::device::{MetadataReader, PPK2Device, VoltageOutOfRange};
use crate::ring::SampleRing;
use crate::text::{holds, stands_at};
use crate::tui::events::Mode;
use crate::tui::SessionStats;
use vstd::prelude::*;

verus! {

/// The frame sets the regulator to a voltage, in mV, high byte first.
pub open spec fn sets_voltage(frame: Seq<u8>, mv: u16) -> bool {
    frame.len() == 3 && frame[0] == 0x0d && 256 * frame[1] + frame[2] == mv
}

/// The frames of the device's commands.
pub proof fn law_frames_hold_the_command_bytes(
    device: &PPK2Device,
    on: bool,
    metadata: [u8; 1],
    ampere: [u8; 2],
    power: [u8; 2],
    start: [u8; 1],
    stop: [u8; 1],
    reset: [u8; 1],
)
    requires
        call_ensures(PPK2Device::request_metadata, (device,), metadata),
        call_ensures(PPK2Device::set_mode_ampere, (device,), ampere),
        call_ensures(PPK2Device::set_dut_power, (device, on), power),
        call_ensures(PPK2Device::start_measuring, (device,), start),
        call_ensures(PPK2Device::stop_measuring, (device,), stop),
        call_ensures(PPK2Device::reset, (device,), reset),
    ensures
        metadata@ == seq![0x19u8],
        ampere@ == seq![0x11u8, 0x01u8],
        on ==> power@ == seq![0x0cu8, 0x06u8],
        !on ==> power@ == seq![0x0cu8, 0x00u8],
        start@ == seq![0x06u8],
        stop@ == seq![0x07u8],
        reset@ == seq![0x20u8],
{
}

/// A new device session is uncalibrated: nominal shunts, unit gains, no offsets, 3300 mV
/// and no bytes left over.
pub proof fn law_a_new_device_has_nominal_coefficients(device: PPK2Device)
    requires
        call_ensures(PPK2Device::new, (), device),
    ensures
        ({
            let m = device.modifiers;
            &&& m.r@[0].bits == 0x4480_F47B
            &&& m.r@[1].bits == 0x42CB_4CCD
            &&& m.r@[2].bits == 0x4122_6666
            &&& m.r@[3].bits == 0x3F70_A3D7
            &&& m.r@[4].bits == 0x3D30_20C5
            &&& forall|k: int|
                0 <= k < 5 ==> {
                    &&& m.o@[k].bits == 0
                    &&& m.gs@[k].bits == 0x3F80_0000
                    &&& m.gi@[k].bits == 0
                    &&& m.s@[k].bits == 0
                    &&& m.i@[k].bits == 0
                    &&& #[trigger] m.ug@[k].bits == 0x3F80_0000
                }
        }),
        device.vdd_mv == 3300,
        device.remainder@.len() == 0,
        device.filter@.averages is None,
        device.filter@.after_spike == 0,
{
    let t = device.modifiers@;
    assert(t[Coefficient::R] == device.modifiers.r@);
    assert(t[Coefficient::O] == device.modifiers.o@);
    assert(t[Coefficient::Gs] == device.modifiers.gs@);
    assert(t[Coefficient::Gi] == device.modifiers.gi@);
    assert(t[Coefficient::S] == device.modifiers.s@);
    assert(t[Coefficient::I] == device.modifiers.i@);
    assert(t[Coefficient::Ug] == device.modifiers.ug@);
}

/// The coefficients of a range are those in its column of each row; ranges above 4 have
/// the column of range 4.
pub proof fn law_a_range_has_its_column(m: &Modifiers, range: u8, c: RangeCoefficients)
    requires
        call_ensures(Modifiers::for_range, (m, range), c),
    ensures
        forall|k: int|
            (k == range && k <= 4) || (k == 4 && range > 4) ==> c.r == #[trigger] m.r@[k] && c.o
                == m.o@[k] && c.gs == m.gs@[k] && c.gi == m.gi@[k] && c.s == m.s@[k] && c.i
                == m.i@[k] && c.ug == m.ug@[k],
{
    let t = m@;
    assert(t[Coefficient::R] == m.r@);
    assert(t[Coefficient::O] == m.o@);
    assert(t[Coefficient::Gs] == m.gs@);
    assert(t[Coefficient::Gi] == m.gi@);
    assert(t[Coefficient::S] == m.s@);
    assert(t[Coefficient::I] == m.i@);
    assert(t[Coefficient::Ug] == m.ug@);
}

/// The row has its first values replaced.
pub open spec fn row_takes(before: Seq<Single>, values: Seq<Single>, after: Seq<Single>) -> bool {
    forall|k: int|
        0 <= k < 5 ==> (k < values.len() ==> #[trigger] after[k] == values[k]) && (k
            >= values.len() ==> after[k] == before[k])
}

/// Assigning a coefficient replaces the first values of its row, and leaves the six
/// other rows as they were.
pub proof fn law_assigning_touches_one_row(
    m: &mut Modifiers,
    key: Coefficient,
    values: &Vec<Single>,
)
    requires
        call_ensures(Modifiers::assign, (m, key, values), ()),
    ensures
        key == Coefficient::R ==> row_takes(old(m).r@, values@, final(m).r@),
        key != Coefficient::R ==> final(m).r@ == old(m).r@,
        key == Coefficient::O ==> row_takes(old(m).o@, values@, final(m).o@),
        key != Coefficient::O ==> final(m).o@ == old(m).o@,
        key == Coefficient::Gs ==> row_takes(old(m).gs@, values@, final(m).gs@),
        key != Coefficient::Gs ==> final(m).gs@ == old(m).gs@,
        key == Coefficient::Gi ==> row_takes(old(m).gi@, values@, final(m).gi@),
        key != Coefficient::Gi ==> final(m).gi@ == old(m).gi@,
        key == Coefficient::S ==> row_takes(old(m).s@, values@, final(m).s@),
        key != Coefficient::S ==> final(m).s@ == old(m).s@,
        key == Coefficient::I ==> row_takes(old(m).i@, values@, final(m).i@),
        key != Coefficient::I ==> final(m).i@ == old(m).i@,
        key == Coefficient::Ug ==> row_takes(old(m).ug@, values@, final(m).ug@),
        key != Coefficient::Ug ==> final(m).ug@ == old(m).ug@,
{
    let a = old(m)@;
    let b = final(m)@;
    assert(a[Coefficient::R] == old(m).r@ && b[Coefficient::R] == final(m).r@);
    assert(a[Coefficient::O] == old(m).o@ && b[Coefficient::O] == final(m).o@);
    assert(a[Coefficient::Gs] == old(m).gs@ && b[Coefficient::Gs] == final(m).gs@);
    assert(a[Coefficient::Gi] == old(m).gi@ && b[Coefficient::Gi] == final(m).gi@);
    assert(a[Coefficient::S] == old(m).s@ && b[Coefficient::S] == final(m).s@);
    assert(a[Coefficient::I] == old(m).i@ && b[Coefficient::I] == final(m).i@);
    assert(a[Coefficient::Ug] == old(m).ug@ && b[Coefficient::Ug] == final(m).ug@);
}

/// A current is used as it is, or counts as zero where it is infinite or no number.
pub proof fn law_unusable_currents_count_as_zero(v: Single, r: Single)
    requires
        call_ensures(usable_current, (v,), r),
    ensures
        v.bits as int % 0x8000_0000 < 0x7F80_0000 ==> r == v,
        v.bits as int % 0x8000_0000 >= 0x7F80_0000 ==> r.bits == 0,
{
}

/// The messages name what was refused.
pub proof fn law_messages_name_what_was_refused(
    voltage: &VoltageOutOfRange,
    refused: String,
    parse: &ParseModifiersError,
    unparsed: String,
)
    requires
        call_ensures(VoltageOutOfRange::message, (voltage,), refused),
        call_ensures(ParseModifiersError::message, (parse,), unparsed),
    ensures
        exists|mv: Seq<char>| #[trigger]
            numeral_of(mv, voltage.mv as nat) && refused@ == "voltage "@ + mv
                + " mV out of range 800–5000"@,
        unparsed@ == "parse float '"@ + parse.numeral@ + "': "@ + parse.reason@,
{
    lemma_decimal_is_a_numeral(voltage.mv as nat);
}

/// The lines of the metadata are kept one after the other, and the one that holds `END`
/// is the last.
pub proof fn law_metadata_ends_with_its_end_line(
    reader: &mut MetadataReader,
    line: &str,
    done: bool,
    fresh: MetadataReader,
)
    requires
        call_ensures(MetadataReader::new, (), fresh),
        call_ensures(MetadataReader::push_line, (reader, line), done),
    ensures
        fresh.text@.len() == 0,
        final(reader).text@ == old(reader).text@ + line@,
        done <==> exists|k: int|
            0 <= k && k + 3 <= line@.len() && #[trigger] line@[k] == 'E' && line@[k + 1] == 'N'
                && line@[k + 2] == 'D',
{
    let end = "END"@;
    reveal_strlit("END");
    assert(end.len() == 3 && end[0] == 'E' && end[1] == 'N' && end[2] == 'D');
    if done {
        let k = choose|k: int| stands_at(line@, end, k);
        let part = line@.subrange(k, k + 3);
        assert(part[0] == line@[k] && part[1] == line@[k + 1] && part[2] == line@[k + 2]);
    }
    if exists|k: int|
        0 <= k && k + 3 <= line@.len() && #[trigger] line@[k] == 'E' && line@[k + 1] == 'N'
            && line@[k + 2] == 'D' {
        let k = choose|k: int|
            0 <= k && k + 3 <= line@.len() && #[trigger] line@[k] == 'E' && line@[k + 1] == 'N'
                && line@[k + 2] == 'D';
        assert(line@.subrange(k, k + 3) =~= end);
        assert(stands_at(line@, end, k));
        assert(holds(line@, end));
    }
}

proof fn lemma_frames(frames: Seq<Vec<u8>>, bytes: Seq<Seq<u8>>)
    requires
        bytes_of(frames) == bytes,
    ensures
        frames.len() == bytes.len(),
        forall|k: int| 0 <= k < frames.len() ==> (#[trigger] frames[k])@ == bytes[k],
{
    assert forall|k: int| 0 <= k < frames.len() implies (#[trigger] frames[k])@ == bytes[k] by {
        assert(bytes_of(frames)[k] == frames[k]@);
    }
}

/// A session begins, in source mode only with 800 to 5000 mV, with the frames that set
/// the voltage in source mode, select the mode, switch the power off, and start
/// measuring, in this order.
pub proof fn law_a_session_begins_with_the_power_off(
    device: PPK2Device,
    mode: Mode,
    mv: u16,
    r: Result<(Acquisition, Vec<Vec<u8>>), VoltageOutOfRange>,
)
    requires
        call_ensures(Acquisition::start, (device, mode, mv), r),
    ensures
        r is Ok <==> (mode == Mode::Ampere || 800 <= mv <= 5000),
        match r {
            Ok((acquisition, frames)) => {
                &&& mode == Mode::Ampere ==> {
                    &&& frames@.len() == 3
                    &&& frames@[0]@ == seq![0x11u8, 0x01u8]
                    &&& frames@[1]@ == seq![0x0cu8, 0x00u8]
                    &&& frames@[2]@ == seq![0x06u8]
                    &&& acquisition.device.vdd_mv == device.vdd_mv
                }
                &&& mode == Mode::Source ==> {
                    &&& frames@.len() == 4
                    &&& sets_voltage(frames@[0]@, mv)
                    &&& frames@[1]@ == seq![0x11u8, 0x02u8]
                    &&& frames@[2]@ == seq![0x0cu8, 0x00u8]
                    &&& frames@[3]@ == seq![0x06u8]
                    &&& acquisition.device.vdd_mv == mv
                }
                &&& acquisition.device.modifiers == device.modifiers
                &&& acquisition.device.remainder == device.remainder
                &&& acquisition.device.filter == device.filter
                &&& !acquisition.dut_on
                &&& acquisition.log is None
            },
            Err(e) => e.mv == mv,
        },
{
    if let Ok((acquisition, frames)) = r {
        let bytes = startup_frames(mode, mv);
        lemma_frames(frames@, bytes);
        if mode == Mode::Ampere {
            assert(bytes.len() == 3);
        } else {
            assert(bytes.len() == 4);
            assert(bytes[0] == mode_frames(mode, mv)[0]);
            assert(bytes[1] == mode_frames(mode, mv)[1]);
        }
    }
}

/// What the frames of a command are.
pub open spec fn carries_out(frames: Seq<Vec<u8>>, command: Command) -> bool {
    &&& command == Command::Quit ==> frames.len() == 2 && frames[0]@ == seq![0x07u8]
        && frames[1]@ == seq![0x20u8]
    &&& command == Command::SetDutPower(true) ==> frames.len() == 1 && frames[0]@ == seq![
        0x0cu8,
        0x06u8,
    ]
    &&& command == Command::SetDutPower(false) ==> frames.len() == 1 && frames[0]@ == seq![
        0x0cu8,
        0x00u8,
    ]
    &&& command == Command::Reset ==> frames.len() == 1 && frames[0]@ == seq![0x20u8]
    &&& command == Command::CycleTimeScale ==> frames.len() == 0
    &&& command matches Command::SetVoltage(mv) ==> frames.len() == 2 && sets_voltage(
        frames[0]@,
        mv,
    ) && frames[1]@ == seq![0x11u8, 0x02u8]
}

/// A command is refused only where it sets a voltage below 800 or above 5000 mV; it then
/// changes nothing. Otherwise its frames carry it out. Power and voltage of the session
/// follow the commands for them, and switching the power on, and nothing else, resets
/// the statistics. The log changes only at the end, and only quitting ends.
pub proof fn law_commands_reach_the_device<F: FloatUnit>(
    acquisition: &mut Acquisition,
    fpu: &F,
    command: Command,
    session: &mut SessionStats,
    r: Result<CommandOutcome, VoltageOutOfRange>,
)
    requires
        call_ensures(
            Acquisition::on_command::<F>,
            (acquisition, fpu, command, session),
            r,
        ),
    ensures
        r is Err <==> (command matches Command::SetVoltage(mv) && !(800 <= mv <= 5000)),
        match r {
            Err(e) => {
                &&& command == Command::SetVoltage(e.mv)
                &&& *final(acquisition) == *old(acquisition)
                &&& *final(session) == *old(session)
            },
            Ok(outcome) => {
                &&& carries_out(outcome.frames@, command)
                &&& outcome.quit <==> command == Command::Quit
                &&& command == Command::SetDutPower(true) ==> final(acquisition).dut_on
                    && nothing_counted(*final(session))
                &&& command == Command::SetDutPower(false) ==> !final(acquisition).dut_on
                &&& !(command is SetDutPower) ==> final(acquisition).dut_on == old(
                    acquisition,
                ).dut_on
                &&& command != Command::SetDutPower(true) ==> *final(session) == *old(session)
                &&& command matches Command::SetVoltage(mv) ==> final(acquisition).device.vdd_mv
                    == mv
                &&& !(command is SetVoltage) ==> final(acquisition).device.vdd_mv == old(
                    acquisition,
                ).device.vdd_mv
                &&& final(acquisition).device.modifiers == old(acquisition).device.modifiers
                &&& final(acquisition).device.remainder == old(acquisition).device.remainder
                &&& final(acquisition).device.filter == old(acquisition).device.filter
                &&& command != Command::Quit ==> final(acquisition).log == old(acquisition).log
                    && outcome.row is None
                &&& old(acquisition).log is None ==> final(acquisition).log is None
                    && outcome.row is None
            },
        },
{
    if let Ok(outcome) = r {
        let bytes = command_frames(command);
        lemma_frames(outcome.frames@, bytes);
    }
}

/// Samples count for the statistics exactly while the power is on. From a reset on the
/// statistics are those of the samples taken.
pub proof fn law_samples_count_while_the_power_is_on<F: FloatUnit>(
    acquisition: &mut Acquisition,
    fpu: &F,
    samples: &[Single],
    session: &mut SessionStats,
    rows: Vec<String>,
    summary: (Single, Single, Single, u64),
)
    requires
        call_ensures(
            Acquisition::on_samples::<F>,
            (acquisition, fpu, samples, session),
            rows,
        ),
        call_ensures(SessionStats::summary::<F>, (&*final(session), fpu), summary),
    ensures
        final(acquisition).device == old(acquisition).device,
        final(acquisition).dut_on == old(acquisition).dut_on,
        !old(acquisition).dut_on ==> *final(session) == *old(session),
        old(acquisition).dut_on && nothing_counted(*old(session)) ==> summary_reads(
            fpu,
            samples@,
            summary,
        ),
        old(acquisition).log is None ==> final(acquisition).log is None && rows@.len() == 0,
{
    if old(acquisition).dut_on && nothing_counted(*old(session)) {
        lemma_summary(fpu, *old(session), samples@, *final(session), summary);
    }
}

/// The log of a session: opened with an interval, it has a row for each bucket of the
/// samples that follow, as many as last the interval and at least one, whether the power
/// is on or off, and at the quit a row for those left over.
pub proof fn law_a_session_logs_all_its_samples<F: FloatUnit>(
    opened: &mut Acquisition,
    interval_us: u64,
    header: String,
    logging: &mut Acquisition,
    fpu: &F,
    samples: &[Single],
    session: &mut SessionStats,
    rows: Vec<String>,
    quitting: &mut Acquisition,
    stats: &mut SessionStats,
    r: Result<CommandOutcome, VoltageOutOfRange>,
)
    requires
        call_ensures(Acquisition::open_log, (opened, interval_us), header),
        *old(logging) == *final(opened),
        call_ensures(Acquisition::on_samples::<F>, (logging, fpu, samples, session), rows),
        *old(quitting) == *final(logging),
        call_ensures(
            Acquisition::on_command::<F>,
            (quitting, fpu, Command::Quit, stats),
            r,
        ),
        samples@.len() <= u64::MAX,
    ensures
        final(opened).device == old(opened).device,
        final(opened).dut_on == old(opened).dut_on,
        header@ == "elapsed_us,avg_ua,min_ua,max_ua,n_samples\n"@,
        r is Ok,
        interval_us < 10 ==> log_reads(fpu, 1, samples@, written(rows@), r->Ok_0.row),
        interval_us >= 10 ==> log_reads(
            fpu,
            interval_us as int / 10,
            samples@,
            written(rows@),
            r->Ok_0.row,
        ),
{
    let p: nat = if interval_us < 10 {
        1
    } else {
        interval_us as nat / 10
    };
    let outcome = r->Ok_0;
    lemma_written(rows@);
    lemma_log(
        fpu,
        p,
        samples@,
        final(logging).log->0@,
        written(rows@),
        final(quitting).log->0@,
        outcome.row,
    );
}

/// Samples go on with the log and with the statistics where they stood. The log takes
/// them all in; the statistics take them in while the power is on.
pub proof fn law_samples_go_on_with_log_and_statistics<F: FloatUnit>(
    acquisition: &mut Acquisition,
    fpu: &F,
    samples: &[Single],
    session: &mut SessionStats,
    more: Vec<String>,
    p: int,
    stream: Seq<Single>,
    rows: Seq<Seq<char>>,
    counted: Seq<Single>,
)
    requires
        call_ensures(
            Acquisition::on_samples::<F>,
            (acquisition, fpu, samples, session),
            more,
        ),
        old(acquisition).log matches Some(log) ==> logged(fpu, p, stream, log, rows),
        counted_so_far(fpu, counted, *old(session)),
    ensures
        old(acquisition).log is Some ==> final(acquisition).log is Some && logged(
            fpu,
            p,
            stream + samples@,
            final(acquisition).log->0,
            rows + written(more@),
        ),
        old(acquisition).dut_on ==> counted_so_far(fpu, counted + samples@, *final(session)),
        !old(acquisition).dut_on ==> counted_so_far(fpu, counted, *final(session)),
{
    if old(acquisition).log is Some {
        lemma_written(more@);
        lemma_logged_more(
            fpu,
            p,
            stream,
            old(acquisition).log->0,
            rows,
            samples@,
            final(acquisition).log->0,
            written(more@),
        );
    }
    if old(acquisition).dut_on {
        lemma_counted_more(fpu, counted, *old(session), samples@, *final(session));
    }
}

/// Quitting finishes the log: the row that it adds is that of the samples left over.
pub proof fn law_quitting_finishes_the_log<F: FloatUnit>(
    acquisition: &mut Acquisition,
    fpu: &F,
    session: &mut SessionStats,
    r: Result<CommandOutcome, VoltageOutOfRange>,
    p: int,
    stream: Seq<Single>,
    rows: Seq<Seq<char>>,
)
    requires
        call_ensures(
            Acquisition::on_command::<F>,
            (acquisition, fpu, Command::Quit, session),
            r,
        ),
        old(acquisition).log is Some,
        logged(fpu, p, stream, old(acquisition).log->0, rows),
        stream.len() <= u64::MAX,
    ensures
        r is Ok,
        log_reads(fpu, p, stream, rows, r->Ok_0.row),
{
    lemma_log(
        fpu,
        p as nat,
        stream,
        old(acquisition).log->0@,
        rows,
        final(acquisition).log->0@,
        r->Ok_0.row,
    );
}

/// The last `n` of a run, or all where there are fewer.
pub open spec fn last_part(all: Seq<Single>, n: int) -> Seq<Single> {
    if all.len() <= n {
        all
    } else {
        all.subrange(all.len() - n, all.len() as int)
    }
}

/// The buffer keeps the newest samples, as many as it was made for. A snapshot is the
/// newest of them, for the window at 100000 samples a second, and for ten seconds at
/// least.
pub proof fn law_the_buffer_keeps_the_newest_samples(
    cap: usize,
    fresh: SampleRing,
    ring: &mut SampleRing,
    samples: &[Single],
    secs: u16,
    snapshot: Vec<Single>,
    n: usize,
)
    requires
        call_ensures(SampleRing::new, (cap,), fresh),
        call_ensures(SampleRing::record, (ring, samples), ()),
        call_ensures(SampleRing::snapshot, (&*final(ring), secs), snapshot),
        call_ensures(SampleRing::len, (&*final(ring),), n),
        old(ring).capacity() >= 0,
    ensures
        fresh@.len() == 0,
        fresh.capacity() == cap,
        final(ring)@ == last_part(old(ring)@ + samples@, old(ring).capacity()),
        final(ring).capacity() == old(ring).capacity(),
        n == final(ring)@.len(),
        secs < 10 ==> snapshot@ == last_part(final(ring)@, 1_000_000),
        secs >= 10 ==> snapshot@ == last_part(final(ring)@, 100_000 * secs),
{
    let all = old(ring)@ + samples@;
    let cap = old(ring).capacity();
    assert(final(ring)@ =~= last_part(all, cap));
    if secs < 10 {
        assert(snapshot@ =~= last_part(final(ring)@, 1_000_000));
    } else {
        assert(snapshot@ =~= last_part(final(ring)@, 100_000 * secs));
    }
}

} // verus!
