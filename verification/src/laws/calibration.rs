//! Laws on calibration: what a reading is converted to, and what the metadata sets.

use crate::float::{
    minus_gives, over_gives, parse_gives, parse_refuses, plus_gives, single_from_count_gives,
    times_gives, FloatUnit, Single,
};
use crate::laws::text::{joined_by, law_splitting_undoes_joining, lemma_trim_bounds, lemma_trim_is};
use crate::ppk2::calibration::{
    adc_to_microamps, assignments, assignments_lead_to, calibrated_gives, coefficient_named,
    end_line, fill_array, filled, gain_gives, law_reading_stops_where_parsing_stops,
    law_unknown_keys_are_ignored, lemma_empty_line, lemma_lines_after, line_assignment,
    metadata_leads_to, microamps_gives, numeral_parses, numerals, numerals_parse, numerals_parse_to,
    parse_modifiers, parsed, range_coefficients, shunt_current_gives, supply_gives, uncalibrated,
    Assignment, BadNumeral, Coefficient, Modifiers, ParseModifiersError,
};
use crate::ppk2::device::PPK2Device;
use crate::text::{
    first_index, holds, lemma_first_index_is, lemma_split_of_line, split, stands_at, trim,
    white_space,
};
use vstd::prelude::*;

verus! {

/// The values on the way from a reading to a current.
pub struct Conversion {
    pub reading: Single,
    pub above_offset: Single,
    pub volts: Single,
    pub amps: Single,
    pub slope: Single,
    pub line: Single,
    pub gain: Single,
    pub supply_mv: Single,
    pub supply_volts: Single,
    pub supply: Single,
    pub with_supply: Single,
    pub with_offset: Single,
    pub scaled: Single,
    pub microamps: Single,
}

/// The steps are those for a reading, with the coefficients of one column of a table:
/// the reading less O, times 1.8 / 163840, over R; that times (GS times that, plus
/// GI); plus S times the supply in volts; plus I; times UG; times 1000000.
pub open spec fn conversion_steps<F: FloatUnit>(
    fpu: &F,
    m: Modifiers,
    column: int,
    vdd_mv: u16,
    adc: u16,
    c: Conversion,
) -> bool {
    &&& single_from_count_gives(fpu, adc as u64, c.reading)
    &&& minus_gives(fpu, c.reading, m.o@[column], c.above_offset)
    &&& times_gives(fpu, c.above_offset, Single { bits: 0x3738_51EB }, c.volts)
    &&& over_gives(fpu, c.volts, m.r@[column], c.amps)
    &&& times_gives(fpu, m.gs@[column], c.amps, c.slope)
    &&& plus_gives(fpu, c.slope, m.gi@[column], c.line)
    &&& times_gives(fpu, c.amps, c.line, c.gain)
    &&& single_from_count_gives(fpu, vdd_mv as u64, c.supply_mv)
    &&& over_gives(fpu, c.supply_mv, Single { bits: 0x447A_0000 }, c.supply_volts)
    &&& times_gives(fpu, m.s@[column], c.supply_volts, c.supply)
    &&& plus_gives(fpu, c.gain, c.supply, c.with_supply)
    &&& plus_gives(fpu, c.with_supply, m.i@[column], c.with_offset)
    &&& times_gives(fpu, m.ug@[column], c.with_offset, c.scaled)
    &&& times_gives(fpu, c.scaled, Single { bits: 0x4974_2400 }, c.microamps)
}

/// The column of a table that belongs to a range: the last one for ranges beyond it.
pub open spec fn column_of(range: u8) -> int {
    if range <= 4 {
        range as int
    } else {
        4
    }
}

/// The value itself, or zero where it is infinite or no number.
pub open spec fn finite_or_zero(v: Single) -> Single {
    if v.bits as int % 0x8000_0000 < 0x7F80_0000 {
        v
    } else {
        Single { bits: 0 }
    }
}

/// `ua` is a reading converted with the column of a table that belongs to its range;
/// zero in place of what is not finite.
pub open spec fn converts<F: FloatUnit>(
    fpu: &F,
    m: Modifiers,
    range: u8,
    vdd_mv: u16,
    adc: u16,
    ua: Single,
) -> bool {
    exists|c: Conversion| #[trigger]
        conversion_steps(fpu, m, column_of(range), vdd_mv, adc, c) && ua == finite_or_zero(
            c.microamps,
        )
}

pub proof fn lemma_microamps_convert<F: FloatUnit>(
    fpu: &F,
    m: Modifiers,
    range: u8,
    vdd_mv: u16,
    adc: u16,
    ua: Single,
)
    requires
        microamps_gives(fpu, adc, range, vdd_mv, m@, ua),
    ensures
        converts(fpu, m, range, vdd_mv, adc, ua),
{
    let column = column_of(range);
    let k = range_coefficients(m@, range);
    assert(k.r == m.r@[column] && k.o == m.o@[column] && k.gs == m.gs@[column] && k.gi
        == m.gi@[column] && k.s == m.s@[column] && k.i == m.i@[column] && k.ug == m.ug@[column]);
    let v = choose|v: Single| #[trigger]
        calibrated_gives(fpu, adc, vdd_mv, k, v) && ua == crate::ppk2::calibration::usable(v);
    let (x, g, t, a, b, z) = choose|
        x: Single,
        g: Single,
        t: Single,
        a: Single,
        b: Single,
        z: Single,
    |
        #[trigger] shunt_current_gives(fpu, adc, k, x) && #[trigger] gain_gives(fpu, x, k, g)
            && #[trigger] supply_gives(fpu, vdd_mv, k, t) && #[trigger] plus_gives(fpu, g, t, a)
            && #[trigger] plus_gives(fpu, a, k.i, b) && #[trigger] times_gives(fpu, k.ug, b, z)
            && times_gives(fpu, z, Single { bits: 0x4974_2400 }, v);
    let (r, d, m1) = choose|r: Single, d: Single, m1: Single|
        #[trigger] single_from_count_gives(fpu, adc as u64, r) && #[trigger] minus_gives(
            fpu,
            r,
            k.o,
            d,
        ) && #[trigger] times_gives(fpu, d, Single { bits: 0x3738_51EB }, m1) && over_gives(
            fpu,
            m1,
            k.r,
            x,
        );
    let (p, q) = choose|p: Single, q: Single|
        #[trigger] times_gives(fpu, k.gs, x, p) && #[trigger] plus_gives(fpu, p, k.gi, q)
            && times_gives(fpu, x, q, g);
    let (n, w) = choose|n: Single, w: Single|
        #[trigger] single_from_count_gives(fpu, vdd_mv as u64, n) && #[trigger] over_gives(
            fpu,
            n,
            Single { bits: 0x447A_0000 },
            w,
        ) && times_gives(fpu, k.s, w, t);
    let c = Conversion {
        reading: r,
        above_offset: d,
        volts: m1,
        amps: x,
        slope: p,
        line: q,
        gain: g,
        supply_mv: n,
        supply_volts: w,
        supply: t,
        with_supply: a,
        with_offset: b,
        scaled: z,
        microamps: v,
    };
    assert(conversion_steps(fpu, m, column, vdd_mv, adc, c));
}

/// A reading is converted with the coefficients that were handed in, those of its own
/// range, and the result is finite.
pub proof fn law_readings_are_converted_with_their_calibration<F: FloatUnit>(
    fpu: &F,
    adc: u16,
    range: u8,
    vdd_mv: u16,
    mods: &Modifiers,
    ua: Single,
)
    requires
        call_ensures(adc_to_microamps::<F>, (fpu, adc, range, vdd_mv, mods), ua),
    ensures
        converts(fpu, *mods, range, vdd_mv, adc, ua),
        ua.bits as int % 0x8000_0000 < 0x7F80_0000,
{
    lemma_microamps_convert(fpu, *mods, range, vdd_mv, adc, ua);
}

/// A row takes the values of a list for as many columns as there are, and keeps its
/// own values in the others; what the list has beyond the row is dropped.
pub proof fn law_rows_take_the_first_values(dest: &mut [Single; 5], src: &Vec<Single>, k: int)
    requires
        call_ensures(fill_array, (dest, src), ()),
        0 <= k < 5,
    ensures
        k < src@.len() ==> final(dest)@[k] == src@[k],
        k >= src@.len() ==> final(dest)@[k] == old(dest)@[k],
{
}

/// The row holds the parsed pieces of a list, for as many columns as there are, and
/// in the others what it held before.
pub open spec fn row_reads<F: FloatUnit>(
    fpu: &F,
    pieces: Seq<Seq<char>>,
    prior: Seq<Single>,
    row: Seq<Single>,
) -> bool {
    &&& row.len() == 5
    &&& forall|k: int|
        0 <= k < 5 ==> if k < pieces.len() {
            parse_gives(fpu, trim(pieces[k]), #[trigger] row[k])
        } else {
            row[k] == prior[k]
        }
}

/// The piece is the first of a list that is no number, and `reason` says why.
pub open spec fn first_refused<F: FloatUnit>(
    fpu: &F,
    pieces: Seq<Seq<char>>,
    at: int,
    numeral: Seq<char>,
    reason: Seq<char>,
) -> bool {
    &&& 0 <= at < pieces.len()
    &&& numeral == trim(pieces[at])
    &&& parse_refuses(fpu, numeral, reason)
    &&& forall|k: int| 0 <= k < at ==> parses(fpu, #[trigger] pieces[k])
}

/// The piece is a number.
pub open spec fn parses<F: FloatUnit>(fpu: &F, piece: Seq<char>) -> bool {
    exists|v: Single| parse_gives(fpu, trim(piece), v)
}

/// The shunt resistances of an uncalibrated device, by range: 1031.64, 101.65, 10.15,
/// 0.94 and 0.043 ohms.
pub open spec fn nominal_shunts() -> Seq<Single> {
    seq![
        Single { bits: 0x4480_F47B },
        Single { bits: 0x42CB_4CCD },
        Single { bits: 0x4122_6666 },
        Single { bits: 0x3F70_A3D7 },
        Single { bits: 0x3D30_20C5 },
    ]
}

/// The same value in each range.
pub open spec fn five(bits: u32) -> Seq<Single> {
    Seq::new(5, |k: int| Single { bits })
}

/// Pieces of a list, none of which breaks the list or the line.
pub open spec fn list_pieces(pieces: Seq<Seq<char>>) -> bool {
    &&& pieces.len() > 0
    &&& forall|k: int|
        0 <= k < pieces.len() ==> !(#[trigger] pieces[k]).contains(',') && !pieces[k].contains('\n')
}

/// The key of a line: it breaks neither, and is `name` but for white space round it.
pub open spec fn key_named(key: Seq<char>, name: Seq<char>) -> bool {
    !key.contains('=') && !key.contains('\n') && trim(key) == name && name.len() > 0
}

proof fn lemma_joined_contains(pieces: Seq<Seq<char>>, c: char)
    requires
        c != ',',
        forall|k: int| 0 <= k < pieces.len() ==> !(#[trigger] pieces[k]).contains(c),
    ensures
        !joined_by(pieces, ',').contains(c),
    decreases pieces.len(),
{
    if pieces.len() > 1 {
        let rest = pieces.drop_first();
        assert forall|k: int| 0 <= k < rest.len() implies !(#[trigger] rest[k]).contains(c) by {
            assert(rest[k] == pieces[k + 1]);
        }
        lemma_joined_contains(rest, c);
        let s = joined_by(pieces, ',');
        assert(!pieces[0].contains(c));
        if s.contains(c) {
            let i = choose|i: int| 0 <= i < s.len() && s[i] == c;
            if i < pieces[0].len() {
                assert(pieces[0][i] == c);
            } else if i > pieces[0].len() {
                assert(joined_by(rest, ',')[i - pieces[0].len() - 1] == c);
            }
        }
    } else if pieces.len() == 1 {
        assert(!pieces[0].contains(c));
    }
}

/// Trimming a list trims its pieces no more than trimming each of them does.
proof fn lemma_trimmed_list(pieces: Seq<Seq<char>>) -> (inner: Seq<Seq<char>>)
    requires
        list_pieces(pieces),
    ensures
        list_pieces(inner),
        inner.len() == pieces.len(),
        trim(joined_by(pieces, ',')) == joined_by(inner, ','),
        forall|k: int| 0 <= k < pieces.len() ==> trim(#[trigger] inner[k]) == trim(pieces[k]),
{
    let n = pieces.len() as int;
    let list = joined_by(pieces, ',');
    if n == 1 {
        let (a, b) = lemma_trim_bounds(pieces[0]);
        let core = pieces[0].subrange(a, b);
        lemma_trim_is(core, 0, core.len() as int);
        assert(core.subrange(0, core.len() as int) =~= core);
        let inner = seq![core];
        assert(!pieces[0].contains(',') && !pieces[0].contains('\n'));
        assert forall|k: int| 0 <= k < inner.len() implies !(#[trigger] inner[k]).contains(',')
            && !inner[k].contains('\n') by {
            assert forall|i: int| 0 <= i < core.len() implies core[i] != ',' && core[i] != '\n' by {
                assert(pieces[0].contains(pieces[0][a + i]));
            }
        }
        inner
    } else {
        let first = pieces[0];
        let last = pieces[n - 1];
        let (a, _b) = lemma_trim_bounds(first);
        let (_c, d) = lemma_trim_bounds(last);
        let a2 = lemma_left_edge(first);
        let d2 = lemma_right_edge(last);
        let left = first.skip(a2);
        let right = last.take(d2);
        let inner = pieces.update(0, left).update(n - 1, right);
        lemma_edge_trims(first, a2, first.len() as int);
        lemma_edge_trims(last, 0, d2);
        assert(first.subrange(a2, first.len() as int) =~= left);
        assert(last.subrange(0, d2) =~= right);
        assert forall|k: int| 0 <= k < inner.len() implies !(#[trigger] inner[k]).contains(',')
            && !inner[k].contains('\n') by {
            assert(!pieces[k].contains(',') && !pieces[k].contains('\n'));
            if k == 0 {
                assert forall|i: int| 0 <= i < left.len() implies left[i] != ',' && left[i]
                    != '\n' by {
                    assert(first.contains(first[a2 + i]));
                }
            } else if k == n - 1 {
                assert forall|i: int| 0 <= i < right.len() implies right[i] != ',' && right[i]
                    != '\n' by {
                    assert(last.contains(last[i]));
                }
            }
        }
        // The list is its first piece, a middle that begins and ends with a comma, and
        // its last piece.
        let middle = lemma_middle(pieces);
        let inner_middle = lemma_middle(inner);
        assert(middle == inner_middle) by {
            lemma_middle_same(pieces, inner);
        }
        assert(list =~= first + middle + last);
        assert(joined_by(inner, ',') =~= left + middle + right);
        let total = list.len() as int;
        let lo = a2;
        let hi = total - (last.len() - d2);
        assert forall|k: int| 0 <= k < lo implies white_space(#[trigger] list[k]) by {
            assert(list[k] == first[k]);
        }
        assert forall|k: int| hi <= k < total implies white_space(#[trigger] list[k]) by {
            assert(list[k] == last[k - (first.len() + middle.len())]);
        }
        if a2 < first.len() {
            assert(list[lo] == first[a2]);
        } else {
            assert(list[lo] == middle[0]);
        }
        if d2 > 0 {
            assert(list[hi - 1] == last[d2 - 1]);
        } else {
            assert(list[hi - 1] == middle[middle.len() - 1]);
        }
        lemma_trim_is(list, lo, hi);
        assert(list.subrange(lo, hi) =~= left + middle + right);
        inner
    }
}

/// Where the white space before a text ends.
proof fn lemma_left_edge(s: Seq<char>) -> (a: int)
    ensures
        0 <= a <= s.len(),
        forall|k: int| 0 <= k < a ==> white_space(#[trigger] s[k]),
        a < s.len() ==> !white_space(s[a]),
{
    let (a, b) = lemma_trim_bounds(s);
    if a < b {
        a
    } else {
        s.len() as int
    }
}

/// Where the white space after a text begins.
proof fn lemma_right_edge(s: Seq<char>) -> (b: int)
    ensures
        0 <= b <= s.len(),
        forall|k: int| b <= k < s.len() ==> white_space(#[trigger] s[k]),
        b > 0 ==> !white_space(s[b - 1]),
{
    let (a, b) = lemma_trim_bounds(s);
    if a < b {
        b
    } else {
        0
    }
}

/// What white space at its ends is left out of a text does not change how it trims.
proof fn lemma_edge_trims(s: Seq<char>, lo: int, hi: int)
    requires
        0 <= lo <= hi <= s.len(),
        forall|k: int| 0 <= k < lo ==> white_space(#[trigger] s[k]),
        forall|k: int| hi <= k < s.len() ==> white_space(#[trigger] s[k]),
    ensures
        trim(s.subrange(lo, hi)) == trim(s),
{
    let part = s.subrange(lo, hi);
    let (a, b) = lemma_trim_bounds(part);
    if a < b {
        assert(s[lo + a] == part[a] && s[lo + b - 1] == part[b - 1]);
        assert forall|k: int| 0 <= k < lo + a implies white_space(#[trigger] s[k]) by {
            if k >= lo {
                assert(s[k] == part[k - lo]);
            }
        }
        assert forall|k: int| lo + b <= k < s.len() implies white_space(#[trigger] s[k]) by {
            if k < hi {
                assert(s[k] == part[k - lo]);
            }
        }
        lemma_trim_is(s, lo + a, lo + b);
        assert(s.subrange(lo + a, lo + b) =~= part.subrange(a, b));
    } else {
        assert forall|k: int| 0 <= k < s.len() implies white_space(#[trigger] s[k]) by {
            if lo <= k < hi {
                assert(s[k] == part[k - lo]);
            }
        }
        lemma_trim_is(s, 0, 0);
        assert(s.subrange(0, 0) =~= part.subrange(a, b));
    }
}

/// What stands between the first and the last piece of a list, commas included.
proof fn lemma_middle(pieces: Seq<Seq<char>>) -> (middle: Seq<char>)
    requires
        pieces.len() >= 2,
    ensures
        middle == middle_of(pieces),
        middle.len() > 0,
        middle[0] == ',',
        middle[middle.len() - 1] == ',',
        joined_by(pieces, ',') == pieces[0] + middle + pieces[pieces.len() - 1],
    decreases pieces.len(),
{
    let rest = pieces.drop_first();
    if pieces.len() == 2 {
        let middle = seq![','];
        assert(joined_by(rest, ',') == pieces[1]);
        middle
    } else {
        let inner = lemma_middle(rest);
        let middle = seq![','] + rest[0] + inner;
        assert(joined_by(pieces, ',') =~= pieces[0] + middle + pieces[pieces.len() - 1]);
        middle
    }
}

spec fn middle_of(pieces: Seq<Seq<char>>) -> Seq<char>
    decreases pieces.len(),
{
    if pieces.len() <= 2 {
        seq![',']
    } else {
        seq![','] + pieces[1] + middle_of(pieces.drop_first())
    }
}

proof fn lemma_middle_same(a: Seq<Seq<char>>, b: Seq<Seq<char>>)
    requires
        a.len() == b.len() >= 2,
        forall|k: int| 0 < k < a.len() - 1 ==> #[trigger] a[k] == b[k],
    ensures
        middle_of(a) == middle_of(b),
    decreases a.len(),
{
    if a.len() > 2 {
        let x = a.drop_first();
        let y = b.drop_first();
        assert forall|k: int| 0 < k < x.len() - 1 implies #[trigger] x[k] == y[k] by {
            assert(a[k + 1] == b[k + 1]);
        }
        lemma_middle_same(x, y);
        assert(a[1] == b[1]);
    }
}

/// What a line `key=list` sets.
proof fn lemma_line(key: Seq<char>, name: Seq<char>, pieces: Seq<Seq<char>>) -> (inner: Seq<
    Seq<char>,
>)
    requires
        key_named(key, name),
        list_pieces(pieces),
    ensures
        inner.len() == pieces.len(),
        forall|k: int| 0 <= k < pieces.len() ==> (#[trigger] inner[k]) == trim(pieces[k]),
        line_assignment(key + seq!['='] + joined_by(pieces, ',')) == match coefficient_named(name) {
            Some(c) => Some(Assignment { key: c, values: inner }),
            None => None,
        },
        !(key + seq!['='] + joined_by(pieces, ',')).contains('\n'),
{
    let list = joined_by(pieces, ',');
    let line = key + seq!['='] + list;
    let n = key.len() as int;
    let a = lemma_left_edge(key);
    let b = lemma_right_edge(list);
    let (ka, kb) = lemma_trim_bounds(key);
    assert(ka < kb);
    assert(a < n) by {
        if a == n {
            assert(white_space(key[ka]));
        }
    }
    assert forall|k: int| 0 <= k < a implies white_space(#[trigger] line[k]) by {
        assert(line[k] == key[k]);
    }
    let hi = n + 1 + b;
    assert forall|k: int| hi <= k < line.len() implies white_space(#[trigger] line[k]) by {
        assert(line[k] == list[k - n - 1]);
    }
    assert(line[a] == key[a]);
    if b > 0 {
        assert(line[hi - 1] == list[b - 1]);
    }
    lemma_trim_is(line, a, hi);
    let t = trim(line);
    let i = n - a;
    assert forall|j: int| 0 <= j < i implies #[trigger] t[j] != '=' by {
        assert(t[j] == key[a + j]);
        assert(key.contains(key[a + j]));
    }
    assert(t[i] == '=');
    lemma_first_index_is(t, '=', i);
    assert(t.take(i) =~= key.subrange(a, n));
    assert(t.skip(i + 1) =~= list.subrange(0, b));
    lemma_edge_trims(key, a, n);
    lemma_edge_trims(list, 0, b);
    let kept = lemma_trimmed_list(pieces);
    assert forall|k: int| 0 <= k < kept.len() implies !(#[trigger] kept[k]).contains(',') by {}
    law_splitting_undoes_joining(kept, ',');
    let inner = numerals(trim(list));
    assert forall|k: int| 0 <= k < pieces.len() implies (#[trigger] inner[k]) == trim(
        pieces[k],
    ) by {
        assert(trim(kept[k]) == trim(pieces[k]));
    }
    lemma_joined_contains(pieces, '\n');
    if line.contains('\n') {
        let j = choose|j: int| 0 <= j < line.len() && line[j] == '\n';
        if j < n {
            assert(key[j] == '\n');
        } else if j > n {
            assert(list[j - n - 1] == '\n');
        }
    }
    inner
}

/// What a list of parsed numerals makes of a row.
proof fn lemma_row_reads<F: FloatUnit>(
    fpu: &F,
    pieces: Seq<Seq<char>>,
    inner: Seq<Seq<char>>,
    prior: Seq<Single>,
    values: Seq<Single>,
)
    requires
        prior.len() == 5,
        inner.len() == pieces.len(),
        forall|k: int| 0 <= k < pieces.len() ==> (#[trigger] inner[k]) == trim(pieces[k]),
        numerals_parse_to(fpu, inner, Ok(values)),
    ensures
        row_reads(fpu, pieces, prior, filled(prior, values)),
{
    let row = filled(prior, values);
    assert forall|k: int| 0 <= k < 5 implies if k < pieces.len() {
        parse_gives(fpu, trim(pieces[k]), #[trigger] row[k])
    } else {
        row[k] == prior[k]
    } by {
        if k < pieces.len() {
            assert(parse_gives(fpu, inner[k], values[k]));
        }
    }
}

proof fn lemma_first_refused<F: FloatUnit>(
    fpu: &F,
    pieces: Seq<Seq<char>>,
    inner: Seq<Seq<char>>,
    bad: BadNumeral,
)
    requires
        inner.len() == pieces.len(),
        forall|k: int| 0 <= k < pieces.len() ==> (#[trigger] inner[k]) == trim(pieces[k]),
        numerals_parse_to(fpu, inner, Err(bad)),
    ensures
        exists|at: int| #[trigger] first_refused(fpu, pieces, at, bad.numeral, bad.reason),
{
    let at = choose|k: int|
        0 <= k < inner.len() && bad.numeral == #[trigger] inner[k] && parse_refuses(
            fpu,
            inner[k],
            bad.reason,
        ) && numerals_parse(fpu, inner.take(k));
    assert forall|k: int| 0 <= k < at implies parses(fpu, #[trigger] pieces[k]) by {
        assert(inner.take(at)[k] == inner[k]);
        assert(numeral_parses(fpu, inner.take(at)[k]));
    }
    assert(first_refused(fpu, pieces, at, bad.numeral, bad.reason));
}

/// What a line `name=v0,v1,...` makes of the rows of an uncalibrated device: the row of
/// that very name holds the values in their order, and the six others stay nominal. The
/// first value that is no number is refused.
pub open spec fn line_sets<F: FloatUnit>(
    fpu: &F,
    name: Seq<char>,
    pieces: Seq<Seq<char>>,
    r: Result<Modifiers, ParseModifiersError>,
) -> bool {
    match r {
        Ok(m) => {
            &&& if name == "R"@ {
                row_reads(fpu, pieces, nominal_shunts(), m.r@)
            } else {
                m.r@ == nominal_shunts()
            }
            &&& if name == "O"@ {
                row_reads(fpu, pieces, five(0), m.o@)
            } else {
                m.o@ == five(0)
            }
            &&& if name == "GS"@ {
                row_reads(fpu, pieces, five(0x3F80_0000), m.gs@)
            } else {
                m.gs@ == five(0x3F80_0000)
            }
            &&& if name == "GI"@ {
                row_reads(fpu, pieces, five(0), m.gi@)
            } else {
                m.gi@ == five(0)
            }
            &&& if name == "S"@ {
                row_reads(fpu, pieces, five(0), m.s@)
            } else {
                m.s@ == five(0)
            }
            &&& if name == "I"@ {
                row_reads(fpu, pieces, five(0), m.i@)
            } else {
                m.i@ == five(0)
            }
            &&& if name == "UG"@ {
                row_reads(fpu, pieces, five(0x3F80_0000), m.ug@)
            } else {
                m.ug@ == five(0x3F80_0000)
            }
            &&& forall|k: int| 0 <= k < pieces.len() ==> parses(fpu, #[trigger] pieces[k])
        },
        Err(e) => exists|at: int| #[trigger]
            first_refused(fpu, pieces, at, e.numeral@, e.reason@),
    }
}

/// A text of one line `name=v0,v1,...` sets the coefficient of that very name, to the
/// values in their order, and no other. White space round the name and the values
/// does not count. The text is refused at the first value that is no number, and only
/// then.
pub proof fn law_a_line_sets_the_coefficient_that_it_names<F: FloatUnit>(
    fpu: &F,
    text: &str,
    key: Seq<char>,
    name: Seq<char>,
    pieces: Seq<Seq<char>>,
    r: Result<Modifiers, ParseModifiersError>,
)
    requires
        call_ensures(parse_modifiers::<F>, (fpu, text), r),
        text@ == key + seq!['='] + joined_by(pieces, ','),
        key_named(key, name),
        list_pieces(pieces),
        !holds(text@, "END"@),
        name == "R"@ || name == "O"@ || name == "GS"@ || name == "GI"@ || name == "S"@ || name
            == "I"@ || name == "UG"@,
    ensures
        line_sets(fpu, name, pieces, r),
{
    lemma_line_sets(fpu, text@, key, name, pieces, r);
}

/// The calibration of a session is that of the line that it was given: the row of the
/// name, with the others nominal. A line that is refused leaves the calibration as it
/// was.
pub proof fn law_a_session_takes_the_coefficient_that_a_line_names<F: FloatUnit>(
    device: &mut PPK2Device,
    fpu: &F,
    text: &str,
    key: Seq<char>,
    name: Seq<char>,
    pieces: Seq<Seq<char>>,
    r: Result<(), ParseModifiersError>,
)
    requires
        call_ensures(PPK2Device::get_modifiers::<F>, (device, fpu, text), r),
        text@ == key + seq!['='] + joined_by(pieces, ','),
        key_named(key, name),
        list_pieces(pieces),
        !holds(text@, "END"@),
        name == "R"@ || name == "O"@ || name == "GS"@ || name == "GI"@ || name == "S"@ || name
            == "I"@ || name == "UG"@,
    ensures
        r is Ok ==> line_sets(fpu, name, pieces, Ok(final(device).modifiers)),
        r matches Err(e) ==> line_sets(fpu, name, pieces, Err(e)) && final(device).modifiers
            == old(device).modifiers,
{
    match r {
        Ok(()) => lemma_line_sets(fpu, text@, key, name, pieces, Ok(final(device).modifiers)),
        Err(e) => lemma_line_sets(fpu, text@, key, name, pieces, Err(e)),
    }
}

proof fn lemma_line_sets<F: FloatUnit>(
    fpu: &F,
    text: Seq<char>,
    key: Seq<char>,
    name: Seq<char>,
    pieces: Seq<Seq<char>>,
    r: Result<Modifiers, ParseModifiersError>,
)
    requires
        metadata_leads_to(fpu, text, parsed(r)),
        text == key + seq!['='] + joined_by(pieces, ','),
        key_named(key, name),
        list_pieces(pieces),
        !holds(text, "END"@),
        name == "R"@ || name == "O"@ || name == "GS"@ || name == "GI"@ || name == "S"@ || name
            == "I"@ || name == "UG"@,
    ensures
        line_sets(fpu, name, pieces, r),
{
    let inner = lemma_line(key, name, pieces);
    let line = text;
    law_reading_stops_where_parsing_stops(line);
    lemma_split_of_line(line, '\n');
    lemma_names_differ();
    let c = coefficient_named(name)->0;
    let a = Assignment { key: c, values: inner };
    let lines = seq![line];
    assert(lines.drop_first() =~= Seq::<Seq<char>>::empty());
    assert(assignments(lines.drop_first()) =~= Seq::<Assignment>::empty());
    assert(assignments(lines) =~= seq![a]);
    let none = Seq::<Assignment>::empty();
    assert(seq![a].drop_first() =~= none);
    let table = uncalibrated();
    assert(table[Coefficient::R] =~= nominal_shunts());
    assert(table[Coefficient::O] =~= five(0));
    assert(table[Coefficient::Gs] =~= five(0x3F80_0000));
    assert(table[Coefficient::Gi] =~= five(0));
    assert(table[Coefficient::S] =~= five(0));
    assert(table[Coefficient::I] =~= five(0));
    assert(table[Coefficient::Ug] =~= five(0x3F80_0000));
    match r {
        Ok(m) => {
            assert(assignments_lead_to(fpu, table, seq![a], Ok(m@)));
            let values = choose|values: Seq<Single>| #[trigger]
                numerals_parse_to(fpu, inner, Ok(values)) && assignments_lead_to(
                    fpu,
                    table.insert(c, filled(table[c], values)),
                    none,
                    Ok(m@),
                );
            assert(m@ == table.insert(c, filled(table[c], values)));
            lemma_row_reads(fpu, pieces, inner, table[c], values);
            assert(m@[Coefficient::R] == m.r@ && m@[Coefficient::O] == m.o@ && m@[Coefficient::Gs]
                == m.gs@ && m@[Coefficient::Gi] == m.gi@ && m@[Coefficient::S] == m.s@
                && m@[Coefficient::I] == m.i@ && m@[Coefficient::Ug] == m.ug@);
            assert forall|k: int| 0 <= k < pieces.len() implies parses(
                fpu,
                #[trigger] pieces[k],
            ) by {
                assert(parse_gives(fpu, inner[k], values[k]));
            }
        },
        Err(e) => {
            assert(assignments_lead_to(fpu, table, seq![a], Err(e@)));
            if !numerals_parse_to(fpu, inner, Err(e@)) {
                let values = choose|values: Seq<Single>| #[trigger]
                    numerals_parse_to(fpu, inner, Ok(values)) && assignments_lead_to(
                        fpu,
                        table.insert(c, filled(table[c], values)),
                        none,
                        Err(e@),
                    );
                assert(assignments_lead_to(
                    fpu,
                    table.insert(c, filled(table[c], values)),
                    none,
                    Err(e@),
                ));
            }
            assert(numerals_parse_to(fpu, inner, Err(e@)));
            lemma_first_refused(fpu, pieces, inner, e@);
        },
    }
}

proof fn lemma_names_differ()
    ensures
        "R"@ != "O"@ && "R"@ != "S"@ && "R"@ != "I"@ && "O"@ != "S"@ && "O"@ != "I"@ && "S"@
            != "I"@,
        "GS"@ != "GI"@ && "GS"@ != "UG"@ && "GI"@ != "UG"@,
        "R"@.len() == 1 && "O"@.len() == 1 && "S"@.len() == 1 && "I"@.len() == 1,
        "GS"@.len() == 2 && "GI"@.len() == 2 && "UG"@.len() == 2,
{
    reveal_strlit("R");
    reveal_strlit("O");
    reveal_strlit("GS");
    reveal_strlit("GI");
    reveal_strlit("S");
    reveal_strlit("I");
    reveal_strlit("UG");
    assert("R"@[0] == 'R' && "O"@[0] == 'O' && "S"@[0] == 'S' && "I"@[0] == 'I');
    assert("GS"@[0] == 'G' && "GS"@[1] == 'S' && "GI"@[0] == 'G' && "GI"@[1] == 'I');
    assert("UG"@[0] == 'U' && "UG"@[1] == 'G');
}

proof fn lemma_part_holds(s: Seq<char>, a: int, b: int, pattern: Seq<char>)
    requires
        0 <= a <= b <= s.len(),
        holds(s.subrange(a, b), pattern),
    ensures
        holds(s, pattern),
{
    let part = s.subrange(a, b);
    let k = choose|k: int| #[trigger] stands_at(part, pattern, k);
    assert(part.subrange(k, k + pattern.len()) =~= s.subrange(a + k, a + k + pattern.len()));
    assert(stands_at(s, pattern, a + k));
}

proof fn lemma_no_end_among_lines(s: Seq<char>, k: int)
    requires
        !holds(s, "END"@),
        0 <= k < split(s, '\n').len(),
    ensures
        !end_line(split(s, '\n')[k]),
    decreases s.len(),
{
    let i = first_index(s, '\n');
    crate::text::lemma_first_index(s, '\n');
    let lines = split(s, '\n');
    if i < s.len() {
        let rest = s.skip(i + 1);
        if k == 0 {
            law_reading_stops_where_parsing_stops(s.take(i));
            if holds(s.take(i), "END"@) {
                assert(s.take(i) =~= s.subrange(0, i));
                lemma_part_holds(s, 0, i, "END"@);
            }
            assert(lines[0] == s.take(i));
        } else {
            if holds(rest, "END"@) {
                assert(rest =~= s.subrange(i + 1, s.len() as int));
                lemma_part_holds(s, i + 1, s.len() as int, "END"@);
            }
            lemma_no_end_among_lines(rest, k - 1);
            assert(lines[k] == split(rest, '\n')[k - 1]);
        }
    } else {
        law_reading_stops_where_parsing_stops(s);
    }
}

proof fn lemma_assignments_join(lines: Seq<Seq<char>>, line: Seq<char>)
    requires
        forall|k: int| 0 <= k < lines.len() ==> !end_line(#[trigger] lines[k]),
        !end_line(line),
    ensures
        assignments(lines + seq![line]) == assignments(lines) + assignments(seq![line]),
    decreases lines.len(),
{
    let all = lines + seq![line];
    if lines.len() == 0 {
        assert(all =~= seq![line]);
        assert(assignments(lines) + assignments(seq![line]) =~= assignments(seq![line]));
    } else {
        let rest = lines.drop_first();
        assert forall|k: int| 0 <= k < rest.len() implies !end_line(#[trigger] rest[k]) by {
            assert(rest[k] == lines[k + 1]);
        }
        lemma_assignments_join(rest, line);
        assert(all.drop_first() =~= rest + seq![line]);
        assert(!end_line(lines[0]));
        assert(all.first() == lines.first());
        assert(assignments(all) =~= assignments(lines) + assignments(seq![line]));
    }
}

/// What two runs of assignments lead to, one after the other.
proof fn lemma_assignments_compose<F: FloatUnit>(
    fpu: &F,
    table: Map<Coefficient, Seq<Single>>,
    first: Seq<Assignment>,
    second: Seq<Assignment>,
    r: Result<Map<Coefficient, Seq<Single>>, BadNumeral>,
) -> (between: Option<Map<Coefficient, Seq<Single>>>)
    requires
        assignments_lead_to(fpu, table, first + second, r),
    ensures
        match between {
            Some(t) => assignments_lead_to(fpu, table, first, Ok(t)) && assignments_lead_to(
                fpu,
                t,
                second,
                r,
            ),
            None => r is Err && assignments_lead_to(fpu, table, first, r),
        },
    decreases first.len(),
{
    if first.len() == 0 {
        assert(first + second =~= second);
        Some(table)
    } else {
        let a = first.first();
        let all = first + second;
        assert(all.first() == a);
        assert(all.drop_first() =~= first.drop_first() + second);
        if exists|values: Seq<Single>| #[trigger]
            numerals_parse_to(fpu, a.values, Ok(values)) && assignments_lead_to(
                fpu,
                table.insert(a.key, filled(table[a.key], values)),
                all.drop_first(),
                r,
            ) {
            let values = choose|values: Seq<Single>| #[trigger]
                numerals_parse_to(fpu, a.values, Ok(values)) && assignments_lead_to(
                    fpu,
                    table.insert(a.key, filled(table[a.key], values)),
                    all.drop_first(),
                    r,
                );
            let next = table.insert(a.key, filled(table[a.key], values));
            let between = lemma_assignments_compose(fpu, next, first.drop_first(), second, r);
            match between {
                Some(t) => {
                    assert(assignments_lead_to(fpu, table, first, Ok(t)));
                },
                None => {
                    assert(assignments_lead_to(fpu, table, first, r));
                },
            }
            between
        } else {
            assert(assignments_lead_to(fpu, table, first, r));
            None
        }
    }
}

/// Each row of a table has five columns.
pub open spec fn five_columns(table: Map<Coefficient, Seq<Single>>) -> bool {
    forall|c: Coefficient| (#[trigger] table[c]).len() == 5
}

proof fn lemma_columns<F: FloatUnit>(
    fpu: &F,
    table: Map<Coefficient, Seq<Single>>,
    list: Seq<Assignment>,
    t: Map<Coefficient, Seq<Single>>,
)
    requires
        five_columns(table),
        assignments_lead_to(fpu, table, list, Ok(t)),
    ensures
        five_columns(t),
    decreases list.len(),
{
    if list.len() > 0 {
        let a = list.first();
        let values = choose|values: Seq<Single>| #[trigger]
            numerals_parse_to(fpu, a.values, Ok(values)) && assignments_lead_to(
                fpu,
                table.insert(a.key, filled(table[a.key], values)),
                list.drop_first(),
                Ok(t),
            );
        let next = table.insert(a.key, filled(table[a.key], values));
        assert forall|c: Coefficient| (#[trigger] next[c]).len() == 5 by {
            assert(table[c].len() == 5);
            assert(table[a.key].len() == 5);
        }
        lemma_columns(fpu, next, list.drop_first(), t);
    }
}

/// Lines take effect one after the other. A further line `name=v0,v1,...` changes the
/// row of the coefficient that it names, from what the text before it led to, and no
/// other row; a text that is refused stays refused, for the same reason; and the
/// further line is refused at its first value that is no number.
pub proof fn law_lines_take_effect_one_after_the_other<F: FloatUnit>(
    fpu: &F,
    text: &str,
    before: Seq<char>,
    key: Seq<char>,
    name: Seq<char>,
    pieces: Seq<Seq<char>>,
    r: Result<Modifiers, ParseModifiersError>,
)
    requires
        call_ensures(parse_modifiers::<F>, (fpu, text), r),
        text@ == before + (key + seq!['='] + joined_by(pieces, ',')),
        before.len() == 0 || before.last() == '\n',
        !holds(before, "END"@),
        !holds(key + seq!['='] + joined_by(pieces, ','), "END"@),
        key_named(key, name),
        list_pieces(pieces),
        name == "R"@ || name == "O"@ || name == "GS"@ || name == "GI"@ || name == "S"@ || name
            == "I"@ || name == "UG"@,
    ensures
        match r {
            Ok(m) => exists|t: Map<Coefficient, Seq<Single>>| #[trigger]
                metadata_leads_to(fpu, before, Ok(t)) && {
                    &&& if name == "R"@ {
                        row_reads(fpu, pieces, t[Coefficient::R], m.r@)
                    } else {
                        m.r@ == t[Coefficient::R]
                    }
                    &&& if name == "O"@ {
                        row_reads(fpu, pieces, t[Coefficient::O], m.o@)
                    } else {
                        m.o@ == t[Coefficient::O]
                    }
                    &&& if name == "GS"@ {
                        row_reads(fpu, pieces, t[Coefficient::Gs], m.gs@)
                    } else {
                        m.gs@ == t[Coefficient::Gs]
                    }
                    &&& if name == "GI"@ {
                        row_reads(fpu, pieces, t[Coefficient::Gi], m.gi@)
                    } else {
                        m.gi@ == t[Coefficient::Gi]
                    }
                    &&& if name == "S"@ {
                        row_reads(fpu, pieces, t[Coefficient::S], m.s@)
                    } else {
                        m.s@ == t[Coefficient::S]
                    }
                    &&& if name == "I"@ {
                        row_reads(fpu, pieces, t[Coefficient::I], m.i@)
                    } else {
                        m.i@ == t[Coefficient::I]
                    }
                    &&& if name == "UG"@ {
                        row_reads(fpu, pieces, t[Coefficient::Ug], m.ug@)
                    } else {
                        m.ug@ == t[Coefficient::Ug]
                    }
                },
            Err(e) => {
                ||| metadata_leads_to(fpu, before, Err(e@))
                ||| exists|at: int| #[trigger]
                    first_refused(fpu, pieces, at, e.numeral@, e.reason@)
            },
        },
{
    let line = key + seq!['='] + joined_by(pieces, ',');
    let inner = lemma_line(key, name, pieces);
    lemma_names_differ();
    let c = coefficient_named(name)->0;
    let a = Assignment { key: c, values: inner };
    law_reading_stops_where_parsing_stops(line);
    let head = lemma_lines_after(before);
    lemma_split_of_line(line, '\n');
    assert(split(before + line, '\n') == head + seq![line]);
    let empty = Seq::<char>::empty();
    lemma_empty_line(empty);
    lemma_split_of_line(empty, '\n');
    assert(before + empty =~= before);
    assert(split(before + empty, '\n') == head + seq![empty]);
    assert forall|k: int| 0 <= k < head.len() implies !end_line(#[trigger] head[k]) by {
        lemma_no_end_among_lines(before, k);
        assert(split(before, '\n')[k] == head[k]);
    }
    lemma_assignments_join(head, line);
    lemma_assignments_join(head, empty);
    let none = Seq::<Seq<char>>::empty();
    assert(seq![line].drop_first() =~= none);
    assert(seq![empty].drop_first() =~= none);
    assert(assignments(none) =~= Seq::<Assignment>::empty());
    assert(assignments(seq![line]) =~= seq![a]);
    assert(assignments(seq![empty]) =~= Seq::<Assignment>::empty());
    let earlier = assignments(head);
    assert(assignments(split(before, '\n')) =~= earlier);
    assert(assignments(split(text@, '\n')) =~= earlier + seq![a]);
    let between = lemma_assignments_compose(fpu, uncalibrated(), earlier, seq![a], parsed(r));
    match between {
        None => {},
        Some(t) => {
            assert(metadata_leads_to(fpu, before, Ok(t)));
            assert(five_columns(uncalibrated())) by {
                assert forall|x: Coefficient| (#[trigger] uncalibrated()[x]).len() == 5 by {}
            }
            lemma_columns(fpu, uncalibrated(), earlier, t);
            assert(seq![a].drop_first() =~= Seq::<Assignment>::empty());
            match r {
                Ok(m) => {
                    let values = choose|values: Seq<Single>| #[trigger]
                        numerals_parse_to(fpu, inner, Ok(values)) && assignments_lead_to(
                            fpu,
                            t.insert(c, filled(t[c], values)),
                            seq![a].drop_first(),
                            Ok(m@),
                        );
                    assert(assignments_lead_to(
                        fpu,
                        t.insert(c, filled(t[c], values)),
                        Seq::<Assignment>::empty(),
                        Ok(m@),
                    ));
                    assert(m@ == t.insert(c, filled(t[c], values)));
                    assert(t[c].len() == 5);
                    lemma_row_reads(fpu, pieces, inner, t[c], values);
                    assert(m@[Coefficient::R] == m.r@ && m@[Coefficient::O] == m.o@
                        && m@[Coefficient::Gs] == m.gs@ && m@[Coefficient::Gi] == m.gi@
                        && m@[Coefficient::S] == m.s@ && m@[Coefficient::I] == m.i@
                        && m@[Coefficient::Ug] == m.ug@);
                },
                Err(e) => {
                    if !numerals_parse_to(fpu, inner, Err(e@)) {
                        let values = choose|values: Seq<Single>| #[trigger]
                            numerals_parse_to(fpu, inner, Ok(values)) && assignments_lead_to(
                                fpu,
                                t.insert(c, filled(t[c], values)),
                                seq![a].drop_first(),
                                Err(e@),
                            );
                        assert(assignments_lead_to(
                            fpu,
                            t.insert(c, filled(t[c], values)),
                            Seq::<Assignment>::empty(),
                            Err(e@),
                        ));
                    }
                    lemma_first_refused(fpu, pieces, inner, e@);
                },
            }
        },
    }
}

/// The line sets none of the seven coefficients: it has no `=`, or what stands before
/// the first one is none of their names.
pub open spec fn names_nothing(line: Seq<char>, key: Seq<char>, rest: Seq<char>) -> bool {
    ||| !line.contains('=')
    ||| line == key + seq!['='] + rest && !key.contains('=') && trim(key) != "R"@ && trim(key)
        != "O"@ && trim(key) != "GS"@ && trim(key) != "GI"@ && trim(key) != "S"@ && trim(key)
        != "I"@ && trim(key) != "UG"@
}

/// A line that names none of the seven coefficients changes nothing, wherever it
/// stands.
pub proof fn law_other_lines_change_nothing<F: FloatUnit>(
    fpu: &F,
    before: Seq<char>,
    line: Seq<char>,
    after: Seq<char>,
    key: Seq<char>,
    rest: Seq<char>,
    r: Result<Map<Coefficient, Seq<Single>>, BadNumeral>,
)
    requires
        before.len() == 0 || before.last() == '\n',
        after.len() == 0 || after.first() == '\n',
        !line.contains('\n'),
        !holds(line, "END"@),
        names_nothing(line, key, rest),
    ensures
        metadata_leads_to(fpu, before + line + after, r) <==> metadata_leads_to(
            fpu,
            before + after,
            r,
        ),
{
    let (a, b) = lemma_trim_bounds(line);
    let t = trim(line);
    if !line.contains('=') {
        assert forall|j: int| 0 <= j < t.len() implies #[trigger] t[j] != '=' by {
            assert(t[j] == line[a + j]);
        }
        lemma_first_index_is(t, '=', t.len() as int);
    } else {
        let n = key.len() as int;
        let i = n - a;
        assert(line[n] == '=');
        assert(a <= n < b) by {
            if n < a {
                assert(white_space(line[n]));
            }
            if n >= b {
                assert(white_space(line[n]));
            }
        }
        assert forall|j: int| 0 <= j < i implies #[trigger] t[j] != '=' by {
            assert(t[j] == key[a + j]);
            assert(key.contains(key[a + j]));
        }
        assert(t[i] == '=');
        lemma_first_index_is(t, '=', i);
        assert(t.take(i) =~= key.subrange(a, n));
        assert forall|k: int| 0 <= k < a implies white_space(#[trigger] key[k]) by {
            assert(line[k] == key[k]);
        }
        lemma_edge_trims(key, a, n);
    }
    law_unknown_keys_are_ignored(fpu, before, line, after, r);
}

/// A text without lines leaves every row as it is on an uncalibrated device.
pub proof fn law_an_empty_text_sets_nothing<F: FloatUnit>(
    fpu: &F,
    text: &str,
    r: Result<Modifiers, ParseModifiersError>,
)
    requires
        call_ensures(parse_modifiers::<F>, (fpu, text), r),
        text@.len() == 0,
    ensures
        r matches Ok(m) && m.r@ == nominal_shunts() && m.o@ == five(0) && m.gs@ == five(
            0x3F80_0000,
        ) && m.gi@ == five(0) && m.s@ == five(0) && m.i@ == five(0) && m.ug@ == five(0x3F80_0000),
{
    let line = text@;
    lemma_empty_line(line);
    lemma_split_of_line(line, '\n');
    let lines = seq![line];
    assert(lines.drop_first() =~= Seq::<Seq<char>>::empty());
    assert(assignments(lines.drop_first()) =~= Seq::<Assignment>::empty());
    assert(assignments(lines) =~= Seq::<Assignment>::empty());
    let table = uncalibrated();
    assert(table[Coefficient::R] =~= nominal_shunts());
    assert(table[Coefficient::O] =~= five(0));
    assert(table[Coefficient::Gs] =~= five(0x3F80_0000));
    assert(table[Coefficient::Gi] =~= five(0));
    assert(table[Coefficient::S] =~= five(0));
    assert(table[Coefficient::I] =~= five(0));
    assert(table[Coefficient::Ug] =~= five(0x3F80_0000));
    if let Ok(m) = r {
        assert(m@[Coefficient::R] == m.r@ && m@[Coefficient::O] == m.o@ && m@[Coefficient::Gs]
            == m.gs@ && m@[Coefficient::Gi] == m.gi@ && m@[Coefficient::S] == m.s@
            && m@[Coefficient::I] == m.i@ && m@[Coefficient::Ug] == m.ug@);
    }
}

} // verus!
