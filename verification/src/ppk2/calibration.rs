//! Calibration coefficients and conversion of converter readings to microamps.

use crate::float::{
    minus_gives, over_gives, parse_gives, parse_refuses, plus_gives, single_from_count_gives,
    times_gives, FloatUnit, Single, SINGLE_ONE, SINGLE_THOUSAND,
};
use crate::text::{
    find, first_index, holds, lemma_split_joins, lemma_split_of_line, lemma_trim_keeps_patterns,
    range_holds, split, to_chars, trim, trim_range,
};
use vstd::prelude::*;

verus! {

/// 1.8 / 163840 in single precision: volts per converter step.
pub const ADC_MULTIPLIER: u32 = 0x3738_51EB;

/// 1000000 in single precision.
pub const MICRO: u32 = 0x4974_2400;

/// The calibration coefficients, by the names that the device gives them.
#[derive(Clone, Copy, Debug, PartialEq, Eq, Structural)]
pub enum Coefficient {
    R,
    O,
    Gs,
    Gi,
    S,
    I,
    Ug,
}

/// Per-range calibration coefficients fetched from device metadata.
#[derive(Clone, Debug)]
pub struct Modifiers {
    pub r: [Single; 5],
    pub o: [Single; 5],
    pub gs: [Single; 5],
    pub gi: [Single; 5],
    pub s: [Single; 5],
    pub i: [Single; 5],
    pub ug: [Single; 5],
}

/// For each coefficient, its values by range.
impl View for Modifiers {
    type V = Map<Coefficient, Seq<Single>>;

    open spec fn view(&self) -> Map<Coefficient, Seq<Single>> {
        map![
            Coefficient::R => self.r@,
            Coefficient::O => self.o@,
            Coefficient::Gs => self.gs@,
            Coefficient::Gi => self.gi@,
            Coefficient::S => self.s@,
            Coefficient::I => self.i@,
            Coefficient::Ug => self.ug@,
        ]
    }
}

/// The same value in all five ranges.
pub open spec fn everywhere(bits: u32) -> Seq<Single> {
    seq![
        Single::from_bits(bits),
        Single::from_bits(bits),
        Single::from_bits(bits),
        Single::from_bits(bits),
        Single::from_bits(bits),
    ]
}

/// The coefficients of an uncalibrated device: shunt resistances of 1031.64,
/// 101.65, 10.15, 0.94 and 0.043 ohms, unit gains, no offsets.
pub open spec fn uncalibrated() -> Map<Coefficient, Seq<Single>> {
    map![
        Coefficient::R => seq![
            Single::from_bits(0x4480_F47B),
            Single::from_bits(0x42CB_4CCD),
            Single::from_bits(0x4122_6666),
            Single::from_bits(0x3F70_A3D7),
            Single::from_bits(0x3D30_20C5),
        ],
        Coefficient::O => everywhere(0),
        Coefficient::Gs => everywhere(SINGLE_ONE),
        Coefficient::Gi => everywhere(0),
        Coefficient::S => everywhere(0),
        Coefficient::I => everywhere(0),
        Coefficient::Ug => everywhere(SINGLE_ONE),
    ]
}

fn in_all_ranges(bits: u32) -> (r: [Single; 5])
    ensures
        r@ == everywhere(bits),
{
    let v = Single::from_bits(bits);
    let r = [v, v, v, v, v];
    assert(r@ =~= everywhere(bits));
    r
}

impl Default for Modifiers {
    fn default() -> (m: Modifiers)
        ensures
            m@ == uncalibrated(),
    {
        let r = [
            Single::from_bits(0x4480_F47B),
            Single::from_bits(0x42CB_4CCD),
            Single::from_bits(0x4122_6666),
            Single::from_bits(0x3F70_A3D7),
            Single::from_bits(0x3D30_20C5),
        ];
        let m = Modifiers {
            r,
            o: in_all_ranges(0),
            gs: in_all_ranges(SINGLE_ONE),
            gi: in_all_ranges(0),
            s: in_all_ranges(0),
            i: in_all_ranges(0),
            ug: in_all_ranges(SINGLE_ONE),
        };
        assert(m@[Coefficient::R] =~= uncalibrated()[Coefficient::R]);
        assert(m@ =~= uncalibrated());
        m
    }
}

/// The coefficients of one range.
#[derive(Clone, Copy, Debug, PartialEq, Eq, Structural)]
pub struct RangeCoefficients {
    pub r: Single,
    pub o: Single,
    pub gs: Single,
    pub gi: Single,
    pub s: Single,
    pub i: Single,
    pub ug: Single,
}

/// The coefficients for a range index; ranges above 4 are treated as 4.
pub open spec fn range_coefficients(
    table: Map<Coefficient, Seq<Single>>,
    range: u8,
) -> RangeCoefficients {
    let k = if range < 4 {
        range as int
    } else {
        4
    };
    RangeCoefficients {
        r: table[Coefficient::R][k],
        o: table[Coefficient::O][k],
        gs: table[Coefficient::Gs][k],
        gi: table[Coefficient::Gi][k],
        s: table[Coefficient::S][k],
        i: table[Coefficient::I][k],
        ug: table[Coefficient::Ug][k],
    }
}

impl Modifiers {
    /// The coefficients for a range index; ranges above 4 are treated as 4.
    pub fn for_range(&self, range: u8) -> (c: RangeCoefficients)
        ensures
            c == range_coefficients(self@, range),
    {
        let k: usize = if range < 4 {
            range as usize
        } else {
            4
        };
        RangeCoefficients {
            r: self.r[k],
            o: self.o[k],
            gs: self.gs[k],
            gi: self.gi[k],
            s: self.s[k],
            i: self.i[k],
            ug: self.ug[k],
        }
    }
}

/// `v` is the voltage across the shunt over its resistance:
/// (adc - o) * ADC_MULTIPLIER / r.
pub open spec fn shunt_current_gives<F: FloatUnit>(
    fpu: &F,
    adc: u16,
    c: RangeCoefficients,
    v: Single,
) -> bool {
    exists|a: Single, d: Single, m: Single|
        #[trigger] single_from_count_gives(fpu, adc as u64, a) && #[trigger] minus_gives(
            fpu,
            a,
            c.o,
            d,
        ) && #[trigger] times_gives(fpu, d, Single::from_bits(ADC_MULTIPLIER), m) && over_gives(
            fpu,
            m,
            c.r,
            v,
        )
}

/// `v` is the gain polynomial: x * (gs * x + gi).
pub open spec fn gain_gives<F: FloatUnit>(
    fpu: &F,
    x: Single,
    c: RangeCoefficients,
    v: Single,
) -> bool {
    exists|p: Single, q: Single|
        #[trigger] times_gives(fpu, c.gs, x, p) && #[trigger] plus_gives(fpu, p, c.gi, q)
            && times_gives(fpu, x, q, v)
}

/// `v` is the part that depends on the supply: s * (vdd / 1000).
pub open spec fn supply_gives<F: FloatUnit>(
    fpu: &F,
    vdd_mv: u16,
    c: RangeCoefficients,
    v: Single,
) -> bool {
    exists|d: Single, w: Single|
        #[trigger] single_from_count_gives(fpu, vdd_mv as u64, d) && #[trigger] over_gives(
            fpu,
            d,
            Single::from_bits(SINGLE_THOUSAND),
            w,
        ) && times_gives(fpu, c.s, w, v)
}

/// `v` is the calibrated current in microamps:
/// ug * (gain + supply + i) * 1000000.
pub open spec fn calibrated_gives<F: FloatUnit>(
    fpu: &F,
    adc: u16,
    vdd_mv: u16,
    c: RangeCoefficients,
    v: Single,
) -> bool {
    exists|x: Single, g: Single, t: Single, a: Single, b: Single, z: Single|
        #[trigger] shunt_current_gives(fpu, adc, c, x) && #[trigger] gain_gives(fpu, x, c, g)
            && #[trigger] supply_gives(fpu, vdd_mv, c, t) && #[trigger] plus_gives(fpu, g, t, a)
            && #[trigger] plus_gives(fpu, a, c.i, b) && #[trigger] times_gives(fpu, c.ug, b, z)
            && times_gives(fpu, z, Single::from_bits(MICRO), v)
}

/// A current that can be used: zero in place of a NaN or an infinity.
pub open spec fn usable(v: Single) -> Single {
    if v.finite() {
        v
    } else {
        Single::zero()
    }
}

/// `ua` is the current that a reading converts to.
pub open spec fn microamps_gives<F: FloatUnit>(
    fpu: &F,
    adc: u16,
    range: u8,
    vdd_mv: u16,
    table: Map<Coefficient, Seq<Single>>,
    ua: Single,
) -> bool {
    exists|v: Single| #[trigger]
        calibrated_gives(fpu, adc, vdd_mv, range_coefficients(table, range), v) && ua == usable(v)
}

/// A current that can be used. Bad calibration data (a zero resistance) makes
/// the conversion divide by zero.
pub fn usable_current(v: Single) -> (r: Single)
    ensures
        r == usable(v),
        r.finite(),
{
    if v.is_finite() {
        v
    } else {
        Single::zero()
    }
}

fn calibrate<F: FloatUnit>(fpu: &F, adc: u16, vdd_mv: u16, c: RangeCoefficients) -> (v: Single)
    ensures
        calibrated_gives(fpu, adc, vdd_mv, c, v),
{
    let adc_value = fpu.single_from_count(adc as u64);
    let offset = fpu.minus(adc_value, c.o);
    let volts = fpu.times(offset, Single::from_bits(ADC_MULTIPLIER));
    let x = fpu.over(volts, c.r);
    assert(shunt_current_gives(fpu, adc, c, x)) by {
        assert(single_from_count_gives(fpu, adc as u64, adc_value));
        assert(minus_gives(fpu, adc_value, c.o, offset));
        assert(times_gives(fpu, offset, Single::from_bits(ADC_MULTIPLIER), volts));
    }
    let slope = fpu.times(c.gs, x);
    let line = fpu.plus(slope, c.gi);
    let gain = fpu.times(x, line);
    assert(gain_gives(fpu, x, c, gain)) by {
        assert(times_gives(fpu, c.gs, x, slope));
        assert(plus_gives(fpu, slope, c.gi, line));
    }
    let vdd = fpu.single_from_count(vdd_mv as u64);
    let vdd_volts = fpu.over(vdd, Single::from_bits(SINGLE_THOUSAND));
    let supply = fpu.times(c.s, vdd_volts);
    assert(supply_gives(fpu, vdd_mv, c, supply)) by {
        assert(single_from_count_gives(fpu, vdd_mv as u64, vdd));
        assert(over_gives(fpu, vdd, Single::from_bits(SINGLE_THOUSAND), vdd_volts));
    }
    let a = fpu.plus(gain, supply);
    let b = fpu.plus(a, c.i);
    let amps = fpu.times(c.ug, b);
    proof {
        assert(plus_gives(fpu, gain, supply, a));
        assert(plus_gives(fpu, a, c.i, b));
        assert(times_gives(fpu, c.ug, b, amps));
    }
    fpu.times(amps, Single::from_bits(MICRO))
}

/// Converts a raw ADC value to microamps using calibration coefficients. The
/// result is always finite.
pub fn adc_to_microamps<F: FloatUnit>(
    fpu: &F,
    adc: u16,
    range: u8,
    vdd_mv: u16,
    mods: &Modifiers,
) -> (ua: Single)
    ensures
        microamps_gives(fpu, adc, range, vdd_mv, mods@, ua),
        ua.finite(),
{
    let c = mods.for_range(range);
    let v = calibrate(fpu, adc, vdd_mv, c);
    proof {
        assert(calibrated_gives(fpu, adc, vdd_mv, range_coefficients(mods@, range), v));
    }
    usable_current(v)
}

/// A line at which the metadata ends.
pub open spec fn end_line(line: Seq<char>) -> bool {
    holds(trim(line), "END"@)
}

pub open spec fn coefficient_named(key: Seq<char>) -> Option<Coefficient> {
    if key == "R"@ {
        Some(Coefficient::R)
    } else if key == "O"@ {
        Some(Coefficient::O)
    } else if key == "GS"@ {
        Some(Coefficient::Gs)
    } else if key == "GI"@ {
        Some(Coefficient::Gi)
    } else if key == "S"@ {
        Some(Coefficient::S)
    } else if key == "I"@ {
        Some(Coefficient::I)
    } else if key == "UG"@ {
        Some(Coefficient::Ug)
    } else {
        None
    }
}

/// The numerals in a comma-separated list, without the white space round them.
pub open spec fn numerals(list: Seq<char>) -> Seq<Seq<char>> {
    Seq::new(split(list, ',').len(), |k: int| trim(split(list, ',')[k]))
}

/// A line that sets a coefficient.
pub struct Assignment {
    pub key: Coefficient,
    /// The numerals for range 0, 1 and so on.
    pub values: Seq<Seq<char>>,
}

/// What a line sets, if it is `key=value` with a known key. White space round
/// the line, the key and the value does not count.
pub open spec fn line_assignment(line: Seq<char>) -> Option<Assignment> {
    let t = trim(line);
    let i = first_index(t, '=');
    if i < t.len() {
        match coefficient_named(trim(t.take(i))) {
            Some(key) => Some(Assignment { key, values: numerals(trim(t.skip(i + 1))) }),
            None => None,
        }
    } else {
        None
    }
}

/// What the lines set, up to the end of the metadata.
pub open spec fn assignments(lines: Seq<Seq<char>>) -> Seq<Assignment>
    decreases lines.len(),
{
    if lines.len() == 0 || end_line(lines.first()) {
        Seq::empty()
    } else {
        match line_assignment(lines.first()) {
            Some(a) => seq![a] + assignments(lines.drop_first()),
            None => assignments(lines.drop_first()),
        }
    }
}

/// A row with its first values replaced; values beyond the row are dropped.
pub open spec fn filled(row: Seq<Single>, values: Seq<Single>) -> Seq<Single> {
    Seq::new(
        row.len(),
        |k: int|
            if k < values.len() {
                values[k]
            } else {
                row[k]
            },
    )
}

/// The first numeral that is no number, and why.
pub struct BadNumeral {
    pub numeral: Seq<char>,
    pub reason: Seq<char>,
}

/// `r` is what the numerals parse to: all their values, or the first that is
/// refused.
pub open spec fn numerals_parse_to<F: FloatUnit>(
    fpu: &F,
    numerals: Seq<Seq<char>>,
    r: Result<Seq<Single>, BadNumeral>,
) -> bool {
    match r {
        Ok(values) => {
            &&& values.len() == numerals.len()
            &&& forall|k: int|
                0 <= k < numerals.len() ==> parse_gives(fpu, #[trigger] numerals[k], values[k])
        },
        Err(bad) => exists|k: int|
            0 <= k < numerals.len() && bad.numeral == #[trigger] numerals[k] && parse_refuses(
                fpu,
                numerals[k],
                bad.reason,
            ) && numerals_parse(fpu, numerals.take(k)),
    }
}

/// The numeral parses to some value.
pub open spec fn numeral_parses<F: FloatUnit>(fpu: &F, numeral: Seq<char>) -> bool {
    exists|v: Single| parse_gives(fpu, numeral, v)
}

/// Every numeral parses to some value.
pub open spec fn numerals_parse<F: FloatUnit>(fpu: &F, numerals: Seq<Seq<char>>) -> bool {
    forall|k: int| 0 <= k < numerals.len() ==> numeral_parses(fpu, #[trigger] numerals[k])
}

/// `r` is what the assignments make of a table: they take effect one after the
/// other, and the first bad numeral spoils the table.
pub open spec fn assignments_lead_to<F: FloatUnit>(
    fpu: &F,
    table: Map<Coefficient, Seq<Single>>,
    assignments: Seq<Assignment>,
    r: Result<Map<Coefficient, Seq<Single>>, BadNumeral>,
) -> bool
    decreases assignments.len(),
{
    if assignments.len() == 0 {
        r == Ok::<Map<Coefficient, Seq<Single>>, BadNumeral>(table)
    } else {
        let a = assignments.first();
        ||| exists|values: Seq<Single>| #[trigger]
            numerals_parse_to(fpu, a.values, Ok(values)) && assignments_lead_to(
                fpu,
                table.insert(a.key, filled(table[a.key], values)),
                assignments.drop_first(),
                r,
            )
        ||| exists|bad: BadNumeral| #[trigger]
            numerals_parse_to(fpu, a.values, Err(bad)) && r == Err::<
                Map<Coefficient, Seq<Single>>,
                BadNumeral,
            >(bad)
    }
}

/// `r` is what metadata text makes of the coefficients of an uncalibrated
/// device.
pub open spec fn metadata_leads_to<F: FloatUnit>(
    fpu: &F,
    text: Seq<char>,
    r: Result<Map<Coefficient, Seq<Single>>, BadNumeral>,
) -> bool {
    assignments_lead_to(fpu, uncalibrated(), assignments(split(text, '\n')), r)
}

/// A numeral in the metadata is no number.
#[derive(Clone, Debug)]
pub struct ParseModifiersError {
    pub numeral: String,
    pub reason: String,
}

impl View for ParseModifiersError {
    type V = BadNumeral;

    open spec fn view(&self) -> BadNumeral {
        BadNumeral { numeral: self.numeral@, reason: self.reason@ }
    }
}

impl ParseModifiersError {
    pub fn message(&self) -> (text: String)
        ensures
            text@ == "parse float '"@ + self@.numeral + "': "@ + self@.reason,
    {
        let mut text = String::new();
        text.append("parse float '");
        text.append(self.numeral.as_str());
        text.append("': ");
        text.append(self.reason.as_str());
        assert(text@ =~= "parse float '"@ + self@.numeral + "': "@ + self@.reason);
        text
    }
}

/// The table in a parse result, or its error.
pub open spec fn parsed(r: Result<Modifiers, ParseModifiersError>) -> Result<
    Map<Coefficient, Seq<Single>>,
    BadNumeral,
> {
    match r {
        Ok(m) => Ok(m@),
        Err(e) => Err(e@),
    }
}

/// Replaces the first values of a row.
pub fn fill_array(dest: &mut [Single; 5], src: &Vec<Single>)
    ensures
        final(dest)@ == filled(old(dest)@, src@),
{
    let mut k: usize = 0;
    while k < 5 && k < src.len()
        invariant
            k <= 5,
            k <= src.len(),
            dest@ == filled(old(dest)@, src@.take(k as int)),
        decreases 5 - k,
    {
        dest[k] = src[k];
        k += 1;
        assert(dest@ =~= filled(old(dest)@, src@.take(k as int)));
    }
    assert(dest@ =~= filled(old(dest)@, src@));
}

impl Modifiers {
    /// Replaces the first values of a coefficient.
    pub fn assign(&mut self, key: Coefficient, values: &Vec<Single>)
        ensures
            final(self)@ == old(self)@.insert(key, filled(old(self)@[key], values@)),
    {
        match key {
            Coefficient::R => fill_array(&mut self.r, values),
            Coefficient::O => fill_array(&mut self.o, values),
            Coefficient::Gs => fill_array(&mut self.gs, values),
            Coefficient::Gi => fill_array(&mut self.gi, values),
            Coefficient::S => fill_array(&mut self.s, values),
            Coefficient::I => fill_array(&mut self.i, values),
            Coefficient::Ug => fill_array(&mut self.ug, values),
        }
        assert(self@ =~= old(self)@.insert(key, filled(old(self)@[key], values@)));
    }
}

/// Looks up the coefficient whose name is `chars[from..to]`.
fn find_coefficient(chars: &Vec<char>, from: usize, to: usize) -> (r: Option<Coefficient>)
    requires
        from <= to <= chars.len(),
    ensures
        r == coefficient_named(chars@.subrange(from as int, to as int)),
{
    let ghost key = chars@.subrange(from as int, to as int);
    proof {
        reveal_strlit("R");
        reveal_strlit("O");
        reveal_strlit("GS");
        reveal_strlit("GI");
        reveal_strlit("S");
        reveal_strlit("I");
        reveal_strlit("UG");
        assert("R"@.len() == 1 && "R"@[0] == 'R');
        assert("O"@.len() == 1 && "O"@[0] == 'O');
        assert("S"@.len() == 1 && "S"@[0] == 'S');
        assert("I"@.len() == 1 && "I"@[0] == 'I');
        assert("GS"@.len() == 2 && "GS"@[0] == 'G' && "GS"@[1] == 'S');
        assert("GI"@.len() == 2 && "GI"@[0] == 'G' && "GI"@[1] == 'I');
        assert("UG"@.len() == 2 && "UG"@[0] == 'U' && "UG"@[1] == 'G');
    }
    if to - from == 1 {
        let c = chars[from];
        assert(key =~= seq![c]);
        if c == 'R' {
            assert(key =~= "R"@);
            Some(Coefficient::R)
        } else if c == 'O' {
            assert(key =~= "O"@);
            Some(Coefficient::O)
        } else if c == 'S' {
            assert(key =~= "S"@);
            Some(Coefficient::S)
        } else if c == 'I' {
            assert(key =~= "I"@);
            Some(Coefficient::I)
        } else {
            None
        }
    } else if to - from == 2 {
        let c = chars[from];
        let d = chars[from + 1];
        assert(key =~= seq![c, d]);
        if c == 'G' && d == 'S' {
            assert(key =~= "GS"@);
            Some(Coefficient::Gs)
        } else if c == 'G' && d == 'I' {
            assert(key =~= "GI"@);
            Some(Coefficient::Gi)
        } else if c == 'U' && d == 'G' {
            assert(key =~= "UG"@);
            Some(Coefficient::Ug)
        } else {
            None
        }
    } else {
        None
    }
}

/// Parses the comma-separated list `text[from..to]`.
fn parse_float_array<F: FloatUnit>(
    fpu: &F,
    text: &str,
    chars: &Vec<char>,
    from: usize,
    to: usize,
) -> (r: Result<Vec<Single>, ParseModifiersError>)
    requires
        chars@ == text@,
        from <= to <= chars.len(),
    ensures
        numerals_parse_to(
            fpu,
            numerals(text@.subrange(from as int, to as int)),
            match r {
                Ok(v) => Ok(v@),
                Err(e) => Err(e@),
            },
        ),
{
    let ghost list = text@.subrange(from as int, to as int);
    let ghost pieces = split(list, ',');
    let mut values: Vec<Single> = Vec::new();
    let mut p: usize = from;
    assert(pieces.skip(0) =~= pieces);
    loop
        invariant
            chars@ == text@,
            from <= p <= to <= chars.len(),
            list == text@.subrange(from as int, to as int),
            pieces == split(list, ','),
            values.len() < pieces.len(),
            split(text@.subrange(p as int, to as int), ',') == pieces.skip(values.len() as int),
            forall|k: int|
                0 <= k < values.len() ==> parse_gives(fpu, #[trigger] numerals(list)[k], values@[k]),
        decreases to - p,
    {
        let ghost rest = text@.subrange(p as int, to as int);
        let q = find(chars, p, to, ',');
        assert(rest.take(q - p) =~= text@.subrange(p as int, q as int));
        assert(pieces.skip(values.len() as int)[0] == pieces[values.len() as int]);
        assert(pieces[values.len() as int] =~= text@.subrange(p as int, q as int)) by {
            if q == to {
                assert(rest =~= text@.subrange(p as int, q as int));
            }
        }
        let (a, b) = trim_range(chars, p, q);
        let numeral = text.substring_char(a, b);
        let ghost before = values@;
        assert(numeral@ == numerals(list)[before.len() as int]);
        let one = fpu.parse(numeral);
        assert(call_ensures(F::parse, (fpu, numeral), one));
        match one {
            Ok(v) => {
                values.push(v);
                assert(parse_gives(fpu, numeral@, v));
            },
            Err(reason) => {
                let ghost k = before.len() as int;
                let e = ParseModifiersError { numeral: numeral.to_owned(), reason };
                proof {
                    assert(parse_refuses(fpu, numerals(list)[k], e@.reason));
                    let done = numerals(list).take(k);
                    assert forall|i: int| 0 <= i < done.len() implies numeral_parses(
                        fpu,
                        #[trigger] done[i],
                    ) by {
                        assert(done[i] == numerals(list)[i]);
                        assert(parse_gives(fpu, numerals(list)[i], before[i]));
                    }
                    assert(numerals_parse(fpu, done));
                    assert(e@.numeral == numerals(list)[k]);
                    assert(numerals_parse_to(fpu, numerals(list), Err(e@)));
                }
                return Err(e);
            },
        }
        if q == to {
            assert(pieces.skip(before.len() as int).len() == 1);
            return Ok(values);
        }
        proof {
            assert(rest.skip(q - p + 1) =~= text@.subrange(q + 1, to as int));
            lemma_split_is_inhabited(text@.subrange(q + 1, to as int), ',');
            assert(pieces.skip(before.len() as int).drop_first() =~= pieces.skip(
                before.len() as int + 1,
            ));
            assert(split(rest, ',').drop_first() =~= split(rest.skip(q - p + 1), ','));
        }
        p = q + 1;
    }
}

proof fn lemma_split_is_inhabited(s: Seq<char>, separator: char)
    ensures
        split(s, separator).len() >= 1,
{
}

/// Parses the metadata text emitted by the device on GET_META_DATA.
/// Lines are `key=value` pairs; values may be comma-separated per-range lists.
/// Parsing stops at a line containing "END".
pub fn parse_modifiers<F: FloatUnit>(fpu: &F, text: &str) -> (r: Result<
    Modifiers,
    ParseModifiersError,
>)
    ensures
        metadata_leads_to(fpu, text@, parsed(r)),
{
    let chars = to_chars(text);
    let n: usize = chars.len();
    let mut m = Modifiers::default();
    let mut p: usize = 0;
    assert(text@.subrange(0, n as int) =~= text@);
    loop
        invariant
            chars@ == text@,
            n == chars.len(),
            p <= n,
            forall|x: Result<Map<Coefficient, Seq<Single>>, BadNumeral>|
                assignments_lead_to(
                    fpu,
                    m@,
                    assignments(split(text@.subrange(p as int, n as int), '\n')),
                    x,
                ) ==> #[trigger] metadata_leads_to(fpu, text@, x),
        decreases n - p,
    {
        let ghost rest = text@.subrange(p as int, n as int);
        let ghost lines = split(rest, '\n');
        let ghost table = m@;
        let q = find(&chars, p, n, '\n');
        let ghost line = text@.subrange(p as int, q as int);
        assert(rest.take(q - p) =~= line);
        assert(q == n ==> rest =~= line);
        assert(lines.first() == line);
        let (a, b) = trim_range(&chars, p, q);
        let ghost t = trim(line);
        if range_holds(&chars, a, b, "END") {
            assert(assignments(lines) =~= Seq::empty());
            assert(metadata_leads_to(fpu, text@, Ok(m@)));
            return Ok(m);
        }
        let ghost later = assignments(lines.drop_first());
        let e = find(&chars, a, b, '=');
        if e < b {
            assert(t.take(e - a) =~= chars@.subrange(a as int, e as int));
            assert(t.skip(e - a + 1) =~= chars@.subrange(e + 1, b as int));
            let (ka, kb) = trim_range(&chars, a, e);
            let (va, vb) = trim_range(&chars, e + 1, b);
            match find_coefficient(&chars, ka, kb) {
                Some(key) => {
                    let ghost assignment = line_assignment(line).unwrap();
                    assert(assignments(lines) =~= seq![assignment] + later);
                    assert(assignments(lines).drop_first() =~= later);
                    match parse_float_array(fpu, text, &chars, va, vb) {
                        Ok(values) => {
                            m.assign(key, &values);
                            assert(numerals_parse_to(fpu, assignment.values, Ok(values@)));
                        },
                        Err(error) => {
                            assert(numerals_parse_to(fpu, assignment.values, Err(error@)));
                            assert(assignments_lead_to(
                                fpu,
                                table,
                                assignments(lines),
                                Err(error@),
                            ));
                            assert(metadata_leads_to(fpu, text@, Err(error@)));
                            return Err(error);
                        },
                    }
                },
                None => {},
            }
        }
        assert forall|x: Result<Map<Coefficient, Seq<Single>>, BadNumeral>|
            assignments_lead_to(fpu, m@, later, x) implies #[trigger] metadata_leads_to(
            fpu,
            text@,
            x,
        ) by {
            assert(assignments_lead_to(fpu, table, assignments(lines), x));
        }
        if q == n {
            assert(lines.drop_first() =~= Seq::empty());
            assert(assignments_lead_to(fpu, m@, later, Ok(m@)));
            assert(metadata_leads_to(fpu, text@, Ok(m@)));
            return Ok(m);
        }
        assert(rest.skip(q - p + 1) =~= text@.subrange(q + 1, n as int));
        assert(lines.drop_first() =~= split(rest.skip(q - p + 1), '\n'));
        p = q + 1;
    }
}

proof fn lemma_assignments_stop(lines: Seq<Seq<char>>, k: int)
    requires
        0 <= k < lines.len(),
        end_line(lines[k]),
    ensures
        assignments(lines) == assignments(lines.take(k)),
    decreases k,
{
    if k == 0 {
        assert(lines.take(0) =~= Seq::empty());
    } else if !end_line(lines.first()) {
        lemma_assignments_stop(lines.drop_first(), k - 1);
        assert(lines.take(k).drop_first() =~= lines.drop_first().take(k - 1));
    }
}

pub proof fn lemma_assignments_skip(before: Seq<Seq<char>>, line: Seq<char>, after: Seq<Seq<char>>)
    requires
        !end_line(line),
        line_assignment(line) is None,
    ensures
        assignments(before + seq![line] + after) == assignments(before + after),
    decreases before.len(),
{
    let long = before + seq![line] + after;
    if before.len() == 0 {
        assert(long.drop_first() =~= after);
        assert(before + after =~= after);
    } else {
        let rest = before.drop_first();
        lemma_assignments_skip(rest, line, after);
        assert(long.drop_first() =~= rest + seq![line] + after);
        assert((before + after).drop_first() =~= rest + after);
        assert(long.first() == before.first());
        assert((before + after).first() == before.first());
    }
}

/// The lines of a text are those of its part up to a line break, and then those
/// of the rest.
pub proof fn lemma_lines_after(before: Seq<char>) -> (head: Seq<Seq<char>>)
    requires
        before.len() == 0 || before.last() == '\n',
    ensures
        forall|x: Seq<char>| #[trigger] split(before + x, '\n') == head + split(x, '\n'),
{
    if before.len() == 0 {
        let head = Seq::<Seq<char>>::empty();
        assert forall|x: Seq<char>| #[trigger] split(before + x, '\n') == head + split(x, '\n') by {
            assert(before + x =~= x);
            assert(head + split(x, '\n') =~= split(x, '\n'));
        }
        head
    } else {
        let start = before.drop_last();
        let head = split(start, '\n');
        assert forall|x: Seq<char>| #[trigger] split(before + x, '\n') == head + split(x, '\n') by {
            assert(before + x =~= start + seq!['\n'] + x);
            lemma_split_joins(start, '\n', x);
        }
        head
    }
}

/// A text that starts with one line has that line first.
proof fn lemma_lines_before(after: Seq<char>) -> (tail: Seq<Seq<char>>)
    requires
        after.len() == 0 || after.first() == '\n',
    ensures
        forall|line: Seq<char>|
            !line.contains('\n') ==> #[trigger] split(line + after, '\n') == seq![line] + tail,
{
    if after.len() == 0 {
        let tail = Seq::<Seq<char>>::empty();
        assert forall|line: Seq<char>| !line.contains('\n') implies #[trigger] split(
            line + after,
            '\n',
        ) == seq![line] + tail by {
            assert(line + after =~= line);
            lemma_split_of_line(line, '\n');
            assert(seq![line] + tail =~= seq![line]);
        }
        tail
    } else {
        let end = after.drop_first();
        let tail = split(end, '\n');
        assert forall|line: Seq<char>| !line.contains('\n') implies #[trigger] split(
            line + after,
            '\n',
        ) == seq![line] + tail by {
            assert(line + after =~= line + seq!['\n'] + end);
            lemma_split_joins(line, '\n', end);
            lemma_split_of_line(line, '\n');
        }
        tail
    }
}

pub proof fn lemma_empty_line(line: Seq<char>)
    requires
        line.len() == 0,
    ensures
        !line.contains('\n'),
        !end_line(line),
        line_assignment(line) is None,
{
    reveal_strlit("END");
    assert("END"@.len() == 3);
}

/// What is left of a text without one of its lines.
proof fn lemma_without_line(
    before: Seq<char>,
    line: Seq<char>,
    after: Seq<char>,
) -> (r: (Seq<Seq<char>>, Seq<Seq<char>>))
    requires
        before.len() == 0 || before.last() == '\n',
        after.len() == 0 || after.first() == '\n',
        !line.contains('\n'),
    ensures
        split(before + line + after, '\n') == r.0 + seq![line] + r.1,
        assignments(split(before + after, '\n')) == assignments(r.0 + r.1),
        assignments(split(before, '\n')) == assignments(r.0),
{
    let head = lemma_lines_after(before);
    let tail = lemma_lines_before(after);
    let empty = Seq::<char>::empty();
    lemma_empty_line(empty);
    assert(before + line + after =~= before + (line + after));
    assert(split(before + line + after, '\n') =~= head + seq![line] + tail);
    assert(empty + after =~= after);
    assert(split(empty + after, '\n') == seq![empty] + tail);
    assert(split(before + after, '\n') =~= head + seq![empty] + tail);
    lemma_assignments_skip(head, empty, tail);
    assert(before + empty =~= before);
    lemma_split_of_line(empty, '\n');
    let none = Seq::<Seq<char>>::empty();
    assert(split(before + empty, '\n') =~= head + seq![empty] + none);
    lemma_assignments_skip(head, empty, none);
    assert(head + none =~= head);
    (head, tail)
}

/// Nothing after a line that contains "END" is read.
pub proof fn law_nothing_after_the_end_is_read<F: FloatUnit>(
    fpu: &F,
    before: Seq<char>,
    line: Seq<char>,
    after: Seq<char>,
    r: Result<Map<Coefficient, Seq<Single>>, BadNumeral>,
)
    requires
        before.len() == 0 || before.last() == '\n',
        after.len() == 0 || after.first() == '\n',
        !line.contains('\n'),
        holds(line, "END"@),
    ensures
        metadata_leads_to(fpu, before + line + after, r) <==> metadata_leads_to(fpu, before, r),
{
    law_reading_stops_where_parsing_stops(line);
    let (head, tail) = lemma_without_line(before, line, after);
    let all = head + seq![line] + tail;
    assert(all[head.len() as int] == line);
    lemma_assignments_stop(all, head.len() as int);
    assert(all.take(head.len() as int) =~= head);
}

/// A line that has no known key is ignored, wherever it stands, as long as it
/// does not contain "END".
pub proof fn law_unknown_keys_are_ignored<F: FloatUnit>(
    fpu: &F,
    before: Seq<char>,
    line: Seq<char>,
    after: Seq<char>,
    r: Result<Map<Coefficient, Seq<Single>>, BadNumeral>,
)
    requires
        before.len() == 0 || before.last() == '\n',
        after.len() == 0 || after.first() == '\n',
        !line.contains('\n'),
        !holds(line, "END"@),
        line_assignment(line) is None,
    ensures
        metadata_leads_to(fpu, before + line + after, r) <==> metadata_leads_to(
            fpu,
            before + after,
            r,
        ),
{
    law_reading_stops_where_parsing_stops(line);
    let (head, tail) = lemma_without_line(before, line, after);
    lemma_assignments_skip(head, line, tail);
}

/// White space round a line does not matter to whether it contains "END": the
/// line at which reading stops is the line at which parsing stops.
pub proof fn law_reading_stops_where_parsing_stops(line: Seq<char>)
    ensures
        holds(line, "END"@) <==> end_line(line),
{
    reveal_strlit("END");
    assert("END"@.len() == 3 && "END"@[0] == 'E' && "END"@[2] == 'D');
    lemma_trim_keeps_patterns(line, "END"@);
}

/// Coefficients that no line sets keep the values of an uncalibrated device.
pub proof fn law_unset_coefficients_keep_their_values<F: FloatUnit>(
    fpu: &F,
    table: Map<Coefficient, Seq<Single>>,
    assignments: Seq<Assignment>,
    r: Map<Coefficient, Seq<Single>>,
    key: Coefficient,
)
    requires
        assignments_lead_to(fpu, table, assignments, Ok(r)),
        forall|k: int| 0 <= k < assignments.len() ==> (#[trigger] assignments[k]).key != key,
    ensures
        r[key] == table[key],
    decreases assignments.len(),
{
    if assignments.len() > 0 {
        let a = assignments.first();
        let rest = assignments.drop_first();
        let values = choose|values: Seq<Single>| #[trigger]
            numerals_parse_to(fpu, a.values, Ok(values)) && assignments_lead_to(
                fpu,
                table.insert(a.key, filled(table[a.key], values)),
                rest,
                Ok(r),
            );
        assert(assignments[0].key != key);
        assert forall|k: int| 0 <= k < rest.len() implies (#[trigger] rest[k]).key != key by {
            assert(rest[k] == assignments[k + 1]);
        }
        law_unset_coefficients_keep_their_values(
            fpu,
            table.insert(a.key, filled(table[a.key], values)),
            rest,
            r,
            key,
        );
    }
}

} // verus!
