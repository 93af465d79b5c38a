//! Laws on the sample stream: bytes in, filtered currents out.

use crate::float::{plus_gives, times_gives, FloatUnit, Single};
use crate::laws::calibration::{converts, lemma_microamps_convert};
use crate::ppk2::calibration::{metadata_leads_to, microamps_gives, Modifiers, ParseModifiersError};
use crate::ppk2::device::{
    conversion_passes, leftover, sample_gives, samples_in, PPK2Device, SourceFrames,
    VoltageOutOfRange,
};
use crate::ppk2::protocol::{encode_voltage, little_endian, parse_sample_raw, word_sample};
use crate::ppk2::spike::{counted, filter_gives, Averages, FilterState, SpikeFilter};
use vstd::arithmetic::div_mod::lemma_fundamental_div_mod_converse;
use vstd::prelude::*;

verus! {

/// The fields of a sample come out of its four bytes as they went in: 14 bits of
/// reading, which count by four, 3 bits of range and 8 of channels, whatever the
/// seven bits above them hold.
pub proof fn law_sample_fields_come_out_as_they_went_in(
    bytes: [u8; 4],
    r: (u16, u8, u8),
    reading: int,
    range: int,
    digital: int,
    upper: int,
)
    requires
        call_ensures(parse_sample_raw, (bytes,), r),
        0 <= reading < 0x4000,
        0 <= range < 8,
        0 <= digital < 0x100,
        0 <= upper < 0x80,
        bytes@[0] + 256 * bytes@[1] + 65536 * bytes@[2] + 16777216 * bytes@[3] == reading + 16384
            * range + 131072 * digital + 33554432 * upper,
    ensures
        r.0 == 4 * reading,
        r.1 == range,
        r.2 == digital,
{
    let w = little_endian(bytes@);
    let above = digital + 256 * upper;
    let q = range + 8 * above;
    lemma_fundamental_div_mod_converse(w, 0x4000, q, reading);
    lemma_fundamental_div_mod_converse(q, 8, above, range);
    lemma_fundamental_div_mod_converse(w, 0x2_0000, above, reading + 16384 * range);
    lemma_fundamental_div_mod_converse(above, 0x100, upper, digital);
}

/// The bytes of a voltage frame, read as one number, are the voltage; a voltage that
/// is too low counts as the lowest.
pub proof fn law_voltage_frames_tell_the_voltage(mv: u16, b: [u8; 3])
    requires
        call_ensures(encode_voltage, (mv,), b),
    ensures
        b@[0] == 0x0d,
        mv >= 800 ==> 256 * b@[1] + b@[2] == mv,
        mv < 800 ==> 256 * b@[1] + b@[2] == 800,
{
}

/// A source voltage is accepted exactly from 800 to 5000 mV. The frames then tell
/// that very voltage and select the source mode, and the session converts with it;
/// nothing else of the session changes.
pub proof fn law_source_voltages_reach_the_device(
    device: &mut PPK2Device,
    mv: u16,
    r: Result<SourceFrames, VoltageOutOfRange>,
)
    requires
        call_ensures(PPK2Device::set_mode_source, (device, mv), r),
    ensures
        r is Ok <==> 800 <= mv <= 5000,
        match r {
            Ok(frames) => {
                &&& frames.regulator@.len() == 3
                &&& frames.regulator@[0] == 0x0d
                &&& 256 * frames.regulator@[1] + frames.regulator@[2] == mv
                &&& frames.mode@ == seq![0x11u8, 0x02u8]
                &&& final(device).vdd_mv == mv
            },
            Err(e) => e.mv == mv && final(device).vdd_mv == old(device).vdd_mv,
        },
        final(device).modifiers == old(device).modifiers,
        final(device).remainder == old(device).remainder,
        final(device).filter == old(device).filter,
{
}

/// The weighted sum of a sample and an average.
pub open spec fn weighted<F: FloatUnit>(
    fpu: &F,
    weight: Single,
    ua: Single,
    rest: Single,
    average: Single,
    r: Single,
) -> bool {
    exists|p: Single, q: Single|
        #[trigger] times_gives(fpu, weight, ua, p) && #[trigger] times_gives(
            fpu,
            rest,
            average,
            q,
        ) && plus_gives(fpu, p, q, r)
}

/// Both averages take a sample in: one at 0.18 and 0.82, the other at 0.06 and 0.94.
pub open spec fn averaged<F: FloatUnit>(
    fpu: &F,
    prior: Averages,
    ua: Single,
    next: Averages,
) -> bool {
    &&& weighted(
        fpu,
        Single { bits: 0x3E38_51EC },
        ua,
        Single { bits: 0x3F51_EB85 },
        prior.avg,
        next.avg,
    )
    &&& weighted(
        fpu,
        Single { bits: 0x3D75_C28F },
        ua,
        Single { bits: 0x3F70_A3D7 },
        prior.avg4,
        next.avg4,
    )
}

/// How many samples ago the range last changed; three or more if it was not within
/// the last three.
pub open spec fn age_of_range(ranges: Seq<u8>, k: int) -> int
    decreases k,
{
    if k <= 0 {
        3
    } else if ranges[k] != ranges[k - 1] {
        0
    } else {
        1 + age_of_range(ranges, k - 1)
    }
}

/// What the averages are after each sample of a stream. The first sample is both;
/// later samples are taken in, but for the first two of a change into range 4.
pub open spec fn averages_run<F: FloatUnit>(
    fpu: &F,
    currents: Seq<Single>,
    ranges: Seq<u8>,
    averages: Seq<Averages>,
) -> bool {
    &&& averages.len() == currents.len()
    &&& currents.len() > 0 ==> averages[0] == (Averages { avg: currents[0], avg4: currents[0] })
    &&& forall|k: int|
        1 <= k < currents.len() ==> if ranges[k] >= 4 && age_of_range(ranges, k) < 2 {
            #[trigger] averages[k] == averages[k - 1]
        } else {
            averaged(fpu, averages[k - 1], currents[k], averages[k])
        }
}

/// What the filter makes of a stream: samples are raw, but for the three from a range
/// change on, which are replaced by the average of their range.
pub open spec fn filtered_run(
    currents: Seq<Single>,
    ranges: Seq<u8>,
    averages: Seq<Averages>,
    out: Seq<Single>,
) -> bool {
    &&& out.len() == currents.len()
    &&& forall|k: int|
        0 <= k < out.len() ==> (#[trigger] out[k]) == if age_of_range(ranges, k) >= 3 {
            currents[k]
        } else if ranges[k] >= 4 {
            averages[k].avg4
        } else {
            averages[k].avg
        }
}

/// The filter passes a stream: `states` are its states before, between and after.
pub open spec fn filter_passes<F: FloatUnit>(
    fpu: &F,
    states: Seq<FilterState>,
    currents: Seq<Single>,
    ranges: Seq<u8>,
    out: Seq<Single>,
) -> bool {
    &&& states.len() == currents.len() + 1
    &&& ranges.len() == currents.len()
    &&& out.len() == currents.len()
    &&& forall|k: int|
        0 <= k < currents.len() ==> filter_gives(
            fpu,
            states[k],
            currents[k],
            ranges[k],
            states[k + 1],
            #[trigger] out[k],
        )
}

/// One application of the filter.
pub proof fn law_the_filter_passes_one_sample<F: FloatUnit>(
    filter: &mut SpikeFilter,
    fpu: &F,
    ua: Single,
    range: u8,
    out: Single,
)
    requires
        call_ensures(SpikeFilter::apply::<F>, (filter, fpu, ua, range), out),
    ensures
        filter_passes(
            fpu,
            seq![old(filter)@, final(filter)@],
            seq![ua],
            seq![range],
            seq![out],
        ),
{
}

/// A new filter has seen nothing.
pub proof fn law_a_new_filter_has_no_averages(filter: SpikeFilter)
    requires
        call_ensures(SpikeFilter::new, (), filter),
    ensures
        filter@.averages is None,
        filter@.after_spike == 0,
{
}

/// The averages of the filter are the first sample, once there is one.
pub proof fn law_the_first_sample_is_both_averages<F: FloatUnit>(
    filter: &mut SpikeFilter,
    fpu: &F,
    ua: Single,
    range: u8,
    out: Single,
    before: Option<Averages>,
    after: Option<Averages>,
)
    requires
        old(filter)@.averages is None,
        old(filter)@.after_spike == 0,
        call_ensures(SpikeFilter::averages, (&*old(filter),), before),
        call_ensures(SpikeFilter::apply::<F>, (filter, fpu, ua, range), out),
        call_ensures(SpikeFilter::averages, (&*final(filter),), after),
    ensures
        before is None,
        after == Some(Averages { avg: ua, avg4: ua }),
        out == ua,
{
}

proof fn lemma_filter_state<F: FloatUnit>(
    fpu: &F,
    states: Seq<FilterState>,
    currents: Seq<Single>,
    ranges: Seq<u8>,
    out: Seq<Single>,
    k: int,
)
    requires
        filter_passes(fpu, states, currents, ranges, out),
        states[0].averages is None,
        states[0].after_spike == 0,
        0 <= k < currents.len(),
    ensures
        ({
            let age = age_of_range(ranges, k);
            let s = states[k + 1];
            &&& age >= 0
            &&& s.averages is Some
            &&& s.prev_range == ranges[k]
            &&& s.after_spike == if age < 2 {
                2 - age
            } else {
                0
            }
            &&& age < 2 ==> s.consecutive == age
            &&& k == 0 ==> s.averages->0 == (Averages { avg: currents[0], avg4: currents[0] })
                && out[0] == currents[0]
            &&& k > 0 ==> if ranges[k] >= 4 && age < 2 {
                s.averages == states[k].averages
            } else {
                averaged(fpu, states[k].averages->0, currents[k], s.averages->0)
            }
            &&& k > 0 ==> out[k] == if age >= 3 {
                currents[k]
            } else if ranges[k] >= 4 {
                s.averages->0.avg4
            } else {
                s.averages->0.avg
            }
        }),
    decreases k,
{
    assert(filter_gives(fpu, states[k], currents[k], ranges[k], states[k + 1], out[k]));
    if k > 0 {
        lemma_filter_state(fpu, states, currents, ranges, out, k - 1);
        let before = states[k];
        let next = choose|next: Averages| #[trigger]
            counted(fpu, before, currents[k], next) && states[k + 1] == before.after(
                currents[k],
                ranges[k],
                next,
            ) && out[k] == before.output(currents[k], ranges[k], next);
        assert(averaged(fpu, before.averages->0, currents[k], next));
    }
}

/// The spike filter as a whole. On a stream from the start, samples come out raw; only
/// the three from a range change on are replaced, by the running average of the
/// stream with the weight of their range, and only the first two of a change into
/// range 4 do not count towards the averages.
pub proof fn law_the_filter_replaces_three_samples_at_a_range_change<F: FloatUnit>(
    fpu: &F,
    states: Seq<FilterState>,
    currents: Seq<Single>,
    ranges: Seq<u8>,
    out: Seq<Single>,
)
    requires
        filter_passes(fpu, states, currents, ranges, out),
        states[0].averages is None,
        states[0].after_spike == 0,
    ensures
        exists|averages: Seq<Averages>| #[trigger]
            averages_run(fpu, currents, ranges, averages) && filtered_run(
                currents,
                ranges,
                averages,
                out,
            ),
{
    let averages = Seq::new(currents.len(), |k: int| states[k + 1].averages->0);
    assert forall|k: int| 1 <= k < currents.len() implies if ranges[k] >= 4 && age_of_range(
        ranges,
        k,
    ) < 2 {
        #[trigger] averages[k] == averages[k - 1]
    } else {
        averaged(fpu, averages[k - 1], currents[k], averages[k])
    } by {
        lemma_filter_state(fpu, states, currents, ranges, out, k);
    }
    assert forall|k: int| 0 <= k < out.len() implies (#[trigger] out[k]) == if age_of_range(
        ranges,
        k,
    ) >= 3 {
        currents[k]
    } else if ranges[k] >= 4 {
        averages[k].avg4
    } else {
        averages[k].avg
    } by {
        lemma_filter_state(fpu, states, currents, ranges, out, k);
    }
    if currents.len() > 0 {
        lemma_filter_state(fpu, states, currents, ranges, out, 0);
    }
    assert(averages_run(fpu, currents, ranges, averages));
}

/// The number that four bytes of a stream denote, least significant byte first.
pub open spec fn word_at(bytes: Seq<u8>, k: int) -> int {
    bytes[4 * k] + 256 * bytes[4 * k + 1] + 65536 * bytes[4 * k + 2] + 16777216 * bytes[4 * k + 3]
}

/// A current and a range are those of a sample in a stream: the current is the reading
/// converted with the coefficients of the range.
pub open spec fn sample_converts<F: FloatUnit>(
    fpu: &F,
    m: Modifiers,
    vdd_mv: u16,
    word: int,
    current: Single,
    range: u8,
) -> bool {
    &&& range == word / 16384 % 8
    &&& converts(fpu, m, range, vdd_mv, (4 * (word % 16384)) as u16, current)
}

/// `currents` and `ranges` are those of the samples in a stream, each converted with
/// the coefficients of its range in the table `m`.
pub open spec fn stream_converts<F: FloatUnit>(
    fpu: &F,
    m: Modifiers,
    vdd_mv: u16,
    bytes: Seq<u8>,
    currents: Seq<Single>,
    ranges: Seq<u8>,
) -> bool {
    &&& currents.len() == bytes.len() / 4
    &&& ranges.len() == bytes.len() / 4
    &&& forall|k: int|
        0 <= k < currents.len() ==> sample_converts(
            fpu,
            m,
            vdd_mv,
            word_at(bytes, k),
            #[trigger] currents[k],
            ranges[k],
        )
}

/// Received bytes become currents: every four bytes, in order, those kept from before
/// first, are converted with the calibration that the session holds, at its voltage,
/// and filtered; the bytes left over are kept, and the calibration stays.
pub proof fn law_bytes_become_calibrated_currents<F: FloatUnit>(
    device: &mut PPK2Device,
    fpu: &F,
    received: &[u8],
    out: Vec<Single>,
)
    requires
        call_ensures(PPK2Device::read_samples::<F>, (device, fpu, received), out),
        received@.len() > 0,
    ensures
        ({
            let bytes = old(device).remainder@ + received@;
            let used = 4 * (bytes.len() as int / 4);
            &&& out@.len() == bytes.len() / 4
            &&& final(device).remainder@ == bytes.subrange(used, bytes.len() as int)
            &&& final(device).modifiers == old(device).modifiers
            &&& final(device).vdd_mv == old(device).vdd_mv
            &&& exists|currents: Seq<Single>, ranges: Seq<u8>, states: Seq<FilterState>|
                #[trigger] stream_converts(
                    fpu,
                    old(device).modifiers,
                    old(device).vdd_mv,
                    bytes,
                    currents,
                    ranges,
                ) && #[trigger] filter_passes(fpu, states, currents, ranges, out@) && states[0]
                    == old(device).filter@ && states[out@.len() as int] == final(device).filter@
        }),
{
    let bytes = old(device).remainder@ + received@;
    let raw = samples_in(bytes);
    let m = old(device).modifiers;
    let vdd = old(device).vdd_mv;
    let n = raw.len();
    assert(leftover(bytes) =~= bytes.subrange(4 * (bytes.len() as int / 4), bytes.len() as int));
    let states = choose|states: Seq<FilterState>| #[trigger]
        conversion_passes(fpu, vdd, m@, states, raw, out@) && states.first()
            == old(device).filter@ && states.last() == final(device).filter@;
    let currents = Seq::new(
        n,
        |k: int|
            choose|ua: Single| #[trigger]
                microamps_gives(fpu, raw[k].adc, raw[k].range, vdd, m@, ua) && filter_gives(
                    fpu,
                    states[k],
                    ua,
                    raw[k].range,
                    states[k + 1],
                    out@[k],
                ),
    );
    let ranges = Seq::new(n, |k: int| raw[k].range);
    assert forall|k: int| 0 <= k < n implies microamps_gives(
        fpu,
        raw[k].adc,
        raw[k].range,
        vdd,
        m@,
        #[trigger] currents[k],
    ) && filter_gives(fpu, states[k], currents[k], ranges[k], states[k + 1], out@[k]) by {
        assert(sample_gives(fpu, vdd, m@, states[k], raw[k], states[k + 1], out@[k]));
    }
    assert forall|k: int| 0 <= k < currents.len() implies sample_converts(
        fpu,
        m,
        vdd,
        word_at(bytes, k),
        #[trigger] currents[k],
        ranges[k],
    ) by {
        let word = bytes.subrange(4 * k, 4 * k + 4);
        assert(little_endian(word) == word_at(bytes, k));
        assert(raw[k] == word_sample(word_at(bytes, k)));
        lemma_microamps_convert(fpu, m, ranges[k], vdd, raw[k].adc, currents[k]);
    }
    assert(stream_converts(fpu, m, vdd, bytes, currents, ranges));
    assert forall|k: int| 0 <= k < currents.len() implies filter_gives(
        fpu,
        states[k],
        currents[k],
        ranges[k],
        states[k + 1],
        #[trigger] out@[k],
    ) by {
        assert(currents[k] == currents[k]);
    }
    assert(filter_passes(fpu, states, currents, ranges, out@));
}

/// The first sample of a session comes out as its reading converted with the
/// coefficients that the session holds for its range.
pub proof fn law_the_first_sample_is_its_calibrated_reading<F: FloatUnit>(
    device: &mut PPK2Device,
    fpu: &F,
    received: &[u8],
    out: Vec<Single>,
)
    requires
        call_ensures(PPK2Device::read_samples::<F>, (device, fpu, received), out),
        received@.len() >= 4,
        old(device).remainder@.len() == 0,
        old(device).filter@.averages is None,
        old(device).filter@.after_spike == 0,
    ensures
        ({
            let word = received@[0] + 256 * received@[1] + 65536 * received@[2] + 16777216
                * received@[3];
            converts(
                fpu,
                old(device).modifiers,
                (word / 16384 % 8) as u8,
                old(device).vdd_mv,
                (4 * (word % 16384)) as u16,
                out@[0],
            )
        }),
{
    law_bytes_become_calibrated_currents(device, fpu, received, out);
    let bytes = old(device).remainder@ + received@;
    assert(bytes =~= received@);
    let (currents, ranges, states) = choose|
        currents: Seq<Single>,
        ranges: Seq<u8>,
        states: Seq<FilterState>,
    |
        #[trigger] stream_converts(
            fpu,
            old(device).modifiers,
            old(device).vdd_mv,
            bytes,
            currents,
            ranges,
        ) && #[trigger] filter_passes(fpu, states, currents, ranges, out@) && states[0]
            == old(device).filter@ && states[out@.len() as int] == final(device).filter@;
    lemma_filter_state(fpu, states, currents, ranges, out@, 0);
    assert(currents[0] == out@[0]);
    assert(word_at(bytes, 0) == received@[0] + 256 * received@[1] + 65536 * received@[2] + 16777216
        * received@[3]);
}

/// It does not matter where reads cut the stream: the samples of two reads are those of
/// one stream, filtered as one.
pub proof fn law_reads_go_on_with_the_stream<F: FloatUnit>(
    device: &mut PPK2Device,
    fpu: &F,
    first: &[u8],
    out: Vec<Single>,
    later: &mut PPK2Device,
    second: &[u8],
    more: Vec<Single>,
)
    requires
        call_ensures(PPK2Device::read_samples::<F>, (device, fpu, first), out),
        *old(later) == *final(device),
        call_ensures(PPK2Device::read_samples::<F>, (later, fpu, second), more),
        first@.len() > 0,
        second@.len() > 0,
        old(device).remainder@.len() == 0,
    ensures
        exists|currents: Seq<Single>, ranges: Seq<u8>, states: Seq<FilterState>|
            #[trigger] stream_converts(
                fpu,
                old(device).modifiers,
                old(device).vdd_mv,
                first@ + second@,
                currents,
                ranges,
            ) && #[trigger] filter_passes(fpu, states, currents, ranges, out@ + more@)
                && states[0] == old(device).filter@ && states[(out@ + more@).len() as int]
                == final(later).filter@,
{
    law_bytes_become_calibrated_currents(device, fpu, first, out);
    law_bytes_become_calibrated_currents(later, fpu, second, more);
    let m = old(device).modifiers;
    let vdd = old(device).vdd_mv;
    let x = old(device).remainder@ + first@;
    assert(x =~= first@);
    let y = old(later).remainder@ + second@;
    let all = first@ + second@;
    let n = x.len() as int / 4;
    assert(y =~= all.subrange(4 * n, all.len() as int));
    assert(all.len() as int / 4 == n + y.len() as int / 4);
    let (c1, r1, s1) = choose|
        currents: Seq<Single>,
        ranges: Seq<u8>,
        states: Seq<FilterState>,
    |
        #[trigger] stream_converts(fpu, m, vdd, x, currents, ranges) && #[trigger] filter_passes(
            fpu,
            states,
            currents,
            ranges,
            out@,
        ) && states[0] == old(device).filter@ && states[out@.len() as int] == final(device).filter@;
    let (c2, r2, s2) = choose|
        currents: Seq<Single>,
        ranges: Seq<u8>,
        states: Seq<FilterState>,
    |
        #[trigger] stream_converts(fpu, m, vdd, y, currents, ranges) && #[trigger] filter_passes(
            fpu,
            states,
            currents,
            ranges,
            more@,
        ) && states[0] == old(later).filter@ && states[more@.len() as int] == final(later).filter@;
    let currents = c1 + c2;
    let ranges = r1 + r2;
    let states = s1.drop_last() + s2;
    let joined = out@ + more@;
    assert forall|k: int| 0 <= k < currents.len() implies sample_converts(
        fpu,
        m,
        vdd,
        word_at(all, k),
        #[trigger] currents[k],
        ranges[k],
    ) by {
        if k < n {
            assert(currents[k] == c1[k]);
            assert(word_at(all, k) == word_at(x, k));
        } else {
            assert(currents[k] == c2[k - n]);
            assert(word_at(all, k) == word_at(y, k - n));
        }
    }
    assert(x.len() / 4 == n && y.len() / 4 + n == all.len() / 4);
    assert(currents.len() == all.len() / 4);
    assert(ranges.len() == all.len() / 4);
    assert(stream_converts(fpu, m, vdd, all, currents, ranges));
    assert forall|k: int| 0 <= k < currents.len() implies filter_gives(
        fpu,
        states[k],
        currents[k],
        ranges[k],
        states[k + 1],
        #[trigger] joined[k],
    ) by {
        if k < n {
            assert(joined[k] == out@[k]);
            assert(states[k] == s1[k]);
            if k + 1 < n {
                assert(states[k + 1] == s1[k + 1]);
            } else {
                assert(states[k + 1] == s2[0]);
            }
        } else {
            assert(joined[k] == more@[k - n]);
            assert(states[k] == s2[k - n]);
            assert(states[k + 1] == s2[k - n + 1]);
        }
    }
    assert(filter_passes(fpu, states, currents, ranges, joined));
}

/// Reading nothing gives nothing and changes nothing.
pub proof fn law_reading_nothing_changes_nothing<F: FloatUnit>(
    device: &mut PPK2Device,
    fpu: &F,
    received: &[u8],
    out: Vec<Single>,
)
    requires
        call_ensures(PPK2Device::read_samples::<F>, (device, fpu, received), out),
        received@.len() == 0,
    ensures
        out@.len() == 0,
        *final(device) == *old(device),
{
}

/// The calibration that the metadata leads to is the one that the session then holds;
/// a text that is refused leaves the one that it had.
pub proof fn law_the_session_takes_the_calibration_read<F: FloatUnit>(
    device: &mut PPK2Device,
    fpu: &F,
    text: &str,
    r: Result<(), ParseModifiersError>,
)
    requires
        call_ensures(PPK2Device::get_modifiers::<F>, (device, fpu, text), r),
    ensures
        match r {
            Ok(()) => metadata_leads_to(fpu, text@, Ok(final(device).modifiers@)),
            Err(e) => metadata_leads_to(fpu, text@, Err(e@)) && final(device).modifiers == old(
                device,
            ).modifiers,
        },
        final(device).vdd_mv == old(device).vdd_mv,
        final(device).remainder == old(device).remainder,
        final(device).filter == old(device).filter,
{
}

} // verus!
