//! The device session: command frames to send, and samples from received bytes.

use crate::float::{FloatUnit, Single};
use crate::ppk2::calibration::{
    adc_to_microamps, metadata_leads_to, microamps_gives, parse_modifiers, uncalibrated,
    Coefficient, Modifiers, ParseModifiersError,
};
use crate::ppk2::protocol::{
    encode_voltage, little_endian, parse_sample_raw, regulator_setting, word_sample, RawSample,
    CMD_AVERAGE_START, CMD_AVERAGE_STOP, CMD_DEVICE_RUNNING, CMD_GET_META_DATA, CMD_NO_OP,
    CMD_REGULATOR_SET, CMD_RESET, CMD_SET_POWER_MODE, MAX_SOURCE_MV, MIN_SOURCE_MV, MODE_AMPERE,
    MODE_SOURCE,
};
use crate::ppk2::spike::{filter_gives, FilterState, SpikeFilter};
use crate::text::{decimal, holds, push_decimal, text_holds};
use vstd::prelude::*;

verus! {

/// The session with one device. What is to be sent is returned as frames, what
/// was received is handed in.
pub struct PPK2Device {
    pub modifiers: Modifiers,
    pub vdd_mv: u16,
    /// Received bytes that do not make up a sample yet.
    pub remainder: Vec<u8>,
    pub filter: SpikeFilter,
}

/// A source voltage that the regulator cannot be set to.
#[derive(Clone, Copy, Debug, PartialEq, Eq, Structural)]
pub struct VoltageOutOfRange {
    pub mv: u16,
}

impl VoltageOutOfRange {
    pub fn message(&self) -> (text: String)
        ensures
            text@ == "voltage "@ + decimal(self.mv as nat) + " mV out of range 800–5000"@,
    {
        let mut text = String::new();
        text.append("voltage ");
        push_decimal(&mut text, self.mv as u64);
        text.append(" mV out of range 800–5000");
        assert(text@ =~= "voltage "@ + decimal(self.mv as nat) + " mV out of range 800–5000"@);
        text
    }
}

/// The frames that set a source voltage: the regulator setting, then the mode.
#[derive(Clone, Copy, Debug)]
pub struct SourceFrames {
    pub regulator: [u8; 3],
    pub mode: [u8; 2],
}

/// The frame that sets the regulator: the command and the setting, high byte
/// first.
pub open spec fn regulator_frame(mv: u16) -> Seq<u8> {
    seq![
        CMD_REGULATOR_SET,
        (regulator_setting(mv) / 256) as u8,
        (regulator_setting(mv) % 256) as u8,
    ]
}

pub open spec fn valid_voltage(mv: u16) -> bool {
    MIN_SOURCE_MV <= mv <= MAX_SOURCE_MV
}

/// The frame that switches the power of the device under test.
pub open spec fn power_frame(on: bool) -> Seq<u8> {
    seq![
        CMD_DEVICE_RUNNING,
        if on {
            CMD_AVERAGE_START
        } else {
            CMD_NO_OP
        },
    ]
}

/// The complete samples in a stream of bytes.
pub open spec fn samples_in(bytes: Seq<u8>) -> Seq<RawSample> {
    Seq::new(
        bytes.len() / 4,
        |k: int| word_sample(little_endian(bytes.subrange(4 * k, 4 * k + 4))),
    )
}

/// The bytes after the last complete sample.
pub open spec fn leftover(bytes: Seq<u8>) -> Seq<u8> {
    bytes.skip(4 * (bytes.len() as int / 4))
}

/// Converting and filtering one raw sample leads the filter from `before` to
/// `after` and gives `out`.
pub open spec fn sample_gives<F: FloatUnit>(
    fpu: &F,
    vdd_mv: u16,
    table: Map<Coefficient, Seq<Single>>,
    before: FilterState,
    raw: RawSample,
    after: FilterState,
    out: Single,
) -> bool {
    exists|ua: Single| #[trigger]
        microamps_gives(fpu, raw.adc, raw.range, vdd_mv, table, ua) && filter_gives(
            fpu,
            before,
            ua,
            raw.range,
            after,
            out,
        )
}

/// `states` are the filter's states before, between and after raw samples that
/// give `out`.
pub open spec fn conversion_passes<F: FloatUnit>(
    fpu: &F,
    vdd_mv: u16,
    table: Map<Coefficient, Seq<Single>>,
    states: Seq<FilterState>,
    raw: Seq<RawSample>,
    out: Seq<Single>,
) -> bool {
    &&& states.len() == raw.len() + 1
    &&& out.len() == raw.len()
    &&& forall|k: int|
        #![trigger out[k]]
        0 <= k < raw.len() ==> sample_gives(
            fpu,
            vdd_mv,
            table,
            states[k],
            raw[k],
            states[k + 1],
            out[k],
        )
}

/// Converting and filtering raw samples one after the other leads the filter
/// from `before` to `after` and gives `out`.
pub open spec fn conversion_gives<F: FloatUnit>(
    fpu: &F,
    vdd_mv: u16,
    table: Map<Coefficient, Seq<Single>>,
    before: FilterState,
    raw: Seq<RawSample>,
    after: FilterState,
    out: Seq<Single>,
) -> bool {
    exists|states: Seq<FilterState>| #[trigger]
        conversion_passes(fpu, vdd_mv, table, states, raw, out) && states.first() == before
            && states.last() == after
}

/// Collects the lines that the device sends as metadata.
pub struct MetadataReader {
    pub text: String,
}

impl MetadataReader {
    pub fn new() -> (reader: MetadataReader)
        ensures
            reader.text@ == Seq::<char>::empty(),
    {
        MetadataReader { text: String::new() }
    }

    /// Takes a line in. Returns whether it was the last.
    pub fn push_line(&mut self, line: &str) -> (done: bool)
        ensures
            final(self).text@ == old(self).text@ + line@,
            done == holds(line@, "END"@),
    {
        self.text.append(line);
        text_holds(line, "END")
    }
}

impl PPK2Device {
    pub fn new() -> (device: PPK2Device)
        ensures
            device.modifiers@ == uncalibrated(),
            device.vdd_mv == 3300,
            device.remainder@ == Seq::<u8>::empty(),
            device.filter@ == (FilterState {
                prev_range: 0,
                after_spike: 0,
                consecutive: 0,
                averages: None,
            }),
    {
        PPK2Device {
            modifiers: Modifiers::default(),
            vdd_mv: 3300,
            remainder: Vec::new(),
            filter: SpikeFilter::new(),
        }
    }

    /// The frame that asks the device for its metadata.
    pub fn request_metadata(&self) -> (frame: [u8; 1])
        ensures
            frame@ == seq![CMD_GET_META_DATA],
    {
        let frame = [CMD_GET_META_DATA];
        assert(frame@ =~= seq![CMD_GET_META_DATA]);
        frame
    }

    /// Takes the calibration from the metadata text that the device has sent.
    /// Keeps the calibration that it has if the text holds a bad numeral.
    pub fn get_modifiers<F: FloatUnit>(&mut self, fpu: &F, text: &str) -> (r: Result<
        (),
        ParseModifiersError,
    >)
        ensures
            match r {
                Ok(()) => metadata_leads_to(fpu, text@, Ok(final(self).modifiers@)),
                Err(e) => metadata_leads_to(fpu, text@, Err(e@)) && final(self).modifiers
                    == old(self).modifiers,
            },
            final(self).vdd_mv == old(self).vdd_mv,
            final(self).remainder == old(self).remainder,
            final(self).filter == old(self).filter,
    {
        match parse_modifiers(fpu, text) {
            Ok(modifiers) => {
                self.modifiers = modifiers;
                Ok(())
            },
            Err(e) => Err(e),
        }
    }

    pub fn set_mode_ampere(&self) -> (frame: [u8; 2])
        ensures
            frame@ == seq![CMD_SET_POWER_MODE, MODE_AMPERE],
    {
        let frame = [CMD_SET_POWER_MODE, MODE_AMPERE];
        assert(frame@ =~= seq![CMD_SET_POWER_MODE, MODE_AMPERE]);
        frame
    }

    /// Sets the source voltage. A voltage out of range is refused, and leaves
    /// the session as it is.
    pub fn set_mode_source(&mut self, mv: u16) -> (r: Result<SourceFrames, VoltageOutOfRange>)
        ensures
            match r {
                Ok(frames) => {
                    &&& valid_voltage(mv)
                    &&& frames.regulator@ == regulator_frame(mv)
                    &&& frames.mode@ == seq![CMD_SET_POWER_MODE, MODE_SOURCE]
                    &&& *final(self) == (PPK2Device { vdd_mv: mv, ..*old(self) })
                },
                Err(e) => !valid_voltage(mv) && e.mv == mv && *final(self) == *old(self),
            },
    {
        if mv < MIN_SOURCE_MV || mv > MAX_SOURCE_MV {
            return Err(VoltageOutOfRange { mv });
        }
        self.vdd_mv = mv;
        let regulator = encode_voltage(mv);
        let mode = [CMD_SET_POWER_MODE, MODE_SOURCE];
        assert(regulator@ =~= regulator_frame(mv));
        assert(mode@ =~= seq![CMD_SET_POWER_MODE, MODE_SOURCE]);
        Ok(SourceFrames { regulator, mode })
    }

    pub fn set_dut_power(&self, on: bool) -> (frame: [u8; 2])
        ensures
            frame@ == power_frame(on),
    {
        let frame = [
            CMD_DEVICE_RUNNING,
            if on {
                CMD_AVERAGE_START
            } else {
                CMD_NO_OP
            },
        ];
        assert(frame@ =~= power_frame(on));
        frame
    }

    pub fn start_measuring(&self) -> (frame: [u8; 1])
        ensures
            frame@ == seq![CMD_AVERAGE_START],
    {
        let frame = [CMD_AVERAGE_START];
        assert(frame@ =~= seq![CMD_AVERAGE_START]);
        frame
    }

    pub fn stop_measuring(&self) -> (frame: [u8; 1])
        ensures
            frame@ == seq![CMD_AVERAGE_STOP],
    {
        let frame = [CMD_AVERAGE_STOP];
        assert(frame@ =~= seq![CMD_AVERAGE_STOP]);
        frame
    }

    pub fn reset(&self) -> (frame: [u8; 1])
        ensures
            frame@ == seq![CMD_RESET],
    {
        let frame = [CMD_RESET];
        assert(frame@ =~= seq![CMD_RESET]);
        frame
    }

    /// Takes received bytes in, parses complete 4-byte samples, applies
    /// calibration and spike filter, and returns values in microamps. Bytes that
    /// do not make up a sample yet are kept for the next call.
    pub fn read_samples<F: FloatUnit>(&mut self, fpu: &F, received: &[u8]) -> (out: Vec<Single>)
        ensures
            received@.len() == 0 ==> out@.len() == 0 && *final(self) == *old(self),
            received@.len() > 0 ==> {
                let bytes = old(self).remainder@ + received@;
                &&& final(self).remainder@ == leftover(bytes)
                &&& conversion_gives(
                    fpu,
                    old(self).vdd_mv,
                    old(self).modifiers@,
                    old(self).filter@,
                    samples_in(bytes),
                    final(self).filter@,
                    out@,
                )
                &&& out@.len() == bytes.len() / 4
            },
            final(self).modifiers == old(self).modifiers,
            final(self).vdd_mv == old(self).vdd_mv,
    {
        let mut out: Vec<Single> = Vec::new();
        if received.len() == 0 {
            return out;
        }
        self.remainder.extend_from_slice(received);
        let ghost bytes = self.remainder@;
        assert(bytes =~= old(self).remainder@ + received@);
        let full: usize = self.remainder.len() / 4 * 4;
        let mut p: usize = 0;
        let ghost mut states: Seq<FilterState> = seq![self.filter@];
        while p < full
            invariant
                p <= full <= bytes.len(),
                p % 4 == 0,
                full == bytes.len() as int / 4 * 4,
                self.remainder@ == bytes,
                self.modifiers == old(self).modifiers,
                self.vdd_mv == old(self).vdd_mv,
                out@.len() == p / 4,
                conversion_passes(
                    fpu,
                    self.vdd_mv,
                    self.modifiers@,
                    states,
                    samples_in(bytes).take(p as int / 4),
                    out@,
                ),
                states.first() == old(self).filter@,
                states.last() == self.filter@,
            decreases full - p,
        {
            let word = [
                self.remainder[p],
                self.remainder[p + 1],
                self.remainder[p + 2],
                self.remainder[p + 3],
            ];
            let ghost k = p as int / 4;
            let ghost raw = samples_in(bytes);
            let ghost before = out@;
            let ghost passed = states;
            assert(word@ =~= bytes.subrange(4 * k, 4 * k + 4));
            let (adc, range, digital) = parse_sample_raw(word);
            assert(raw[k] == (RawSample { adc, range, digital }));
            let ua = adc_to_microamps(fpu, adc, range, self.vdd_mv, &self.modifiers);
            let filtered = self.filter.apply(fpu, ua, range);
            out.push(filtered);
            p += 4;
            proof {
                states = passed.push(self.filter@);
                let done = raw.take(k + 1);
                assert(p as int / 4 == k + 1);
                assert(microamps_gives(
                    fpu,
                    raw[k].adc,
                    raw[k].range,
                    self.vdd_mv,
                    self.modifiers@,
                    ua,
                ));
                assert forall|i: int|
                    #![trigger out@[i]]
                    0 <= i < done.len() implies sample_gives(
                    fpu,
                    self.vdd_mv,
                    self.modifiers@,
                    states[i],
                    done[i],
                    states[i + 1],
                    out@[i],
                ) by {
                    if i < k {
                        assert(out@[i] == before[i]);
                        assert(raw.take(k)[i] == done[i]);
                    }
                }
            }
        }
        assert(samples_in(bytes).take(p as int / 4) =~= samples_in(bytes));
        let rest = self.remainder.split_off(full);
        assert(rest@ =~= leftover(bytes));
        self.remainder = rest;
        out
    }
}

/// Every received byte is part of a sample or kept, and never as many are kept
/// as would make up a sample.
pub proof fn law_every_byte_is_used_or_kept(bytes: Seq<u8>)
    ensures
        leftover(bytes).len() < 4,
        4 * samples_in(bytes).len() + leftover(bytes).len() == bytes.len(),
        bytes == bytes.take(4 * samples_in(bytes).len() as int) + leftover(bytes),
{
    assert(bytes =~= bytes.take(4 * samples_in(bytes).len() as int) + leftover(bytes));
}

/// It does not matter where reads cut the stream: taking `x` and then `y` in
/// finds the samples, and keeps the bytes, that taking both at once does.
pub proof fn law_reads_may_cut_the_stream_anywhere(x: Seq<u8>, y: Seq<u8>)
    ensures
        samples_in(x + y) == samples_in(x) + samples_in(leftover(x) + y),
        leftover(x + y) == leftover(leftover(x) + y),
{
    let n = x.len() as int / 4;
    let rest = leftover(x) + y;
    assert(rest =~= (x + y).skip(4 * n));
    assert((x + y).len() / 4 == n + rest.len() / 4);
    assert forall|k: int| 0 <= k < samples_in(x + y).len() implies samples_in(x + y)[k] == (
    samples_in(x) + samples_in(rest))[k] by {
        if k < n {
            assert((x + y).subrange(4 * k, 4 * k + 4) =~= x.subrange(4 * k, 4 * k + 4));
        } else {
            assert((x + y).subrange(4 * k, 4 * k + 4) =~= rest.subrange(
                4 * (k - n),
                4 * (k - n) + 4,
            ));
        }
    }
    assert(samples_in(x + y) =~= samples_in(x) + samples_in(rest));
    assert(leftover(x + y) =~= leftover(rest));
}

/// Converting two runs of samples one after the other is converting them as one
/// run.
pub proof fn law_conversions_join<F: FloatUnit>(
    fpu: &F,
    vdd_mv: u16,
    table: Map<Coefficient, Seq<Single>>,
    before: FilterState,
    x: Seq<RawSample>,
    mid: FilterState,
    out_x: Seq<Single>,
    y: Seq<RawSample>,
    after: FilterState,
    out_y: Seq<Single>,
)
    requires
        conversion_gives(fpu, vdd_mv, table, before, x, mid, out_x),
        conversion_gives(fpu, vdd_mv, table, mid, y, after, out_y),
    ensures
        conversion_gives(fpu, vdd_mv, table, before, x + y, after, out_x + out_y),
{
    let s = choose|s: Seq<FilterState>| #[trigger]
        conversion_passes(fpu, vdd_mv, table, s, x, out_x) && s.first() == before && s.last()
            == mid;
    let t = choose|t: Seq<FilterState>| #[trigger]
        conversion_passes(fpu, vdd_mv, table, t, y, out_y) && t.first() == mid && t.last()
            == after;
    let states = s + t.drop_first();
    let raw = x + y;
    let out = out_x + out_y;
    assert forall|k: int|
        #![trigger out[k]]
        0 <= k < raw.len() implies sample_gives(
        fpu,
        vdd_mv,
        table,
        states[k],
        raw[k],
        states[k + 1],
        out[k],
    ) by {
        if k < x.len() {
            assert(out[k] == out_x[k]);
        } else {
            assert(out[k] == out_y[k - x.len()]);
            assert(states[k] == t[k - x.len()]);
        }
    }
    assert(conversion_passes(fpu, vdd_mv, table, states, raw, out));
    assert(states.last() == after);
}

} // verus!
