//! Build provenance: which source a build was made from, and when.

use crate::text::{
    digit, holds, integer_value, parse_i64, stands_at, to_chars, trim, trimmed,
};
use vstd::arithmetic::div_mod::{lemma_fundamental_div_mod, lemma_fundamental_div_mod_converse};
use vstd::prelude::*;

verus! {

/// The source that a build was made from, where nothing else is known.
pub open spec fn unknown_sha() -> Seq<char> {
    "unknown"@
}

/// What the build calls its source: a name given from outside, or else the commit
/// that git reports, marked if tracked files were changed.
pub open spec fn sha_text(
    given: Option<Seq<char>>,
    reported: Option<Seq<char>>,
    dirty: bool,
) -> Seq<char> {
    if given is Some && trim(given->0).len() > 0 {
        trim(given->0)
    } else if reported is Some && trim(reported->0).len() > 0 {
        if dirty {
            trim(reported->0) + "-dirty"@
        } else {
            trim(reported->0)
        }
    } else {
        unknown_sha()
    }
}

/// The text of a string slice that may be there.
pub open spec fn optional_str(text: Option<&str>) -> Option<Seq<char>> {
    match text {
        Some(t) => Some(t@),
        None => None,
    }
}

/// What the build calls its source. `given` comes from the environment, `reported`
/// is what git printed if it succeeded.
pub fn git_sha(given: Option<&str>, reported: Option<&str>, dirty: bool) -> (sha: String)
    ensures
        sha@ == sha_text(optional_str(given), optional_str(reported), dirty),
{
    if let Some(text) = given {
        let sha = trimmed(text);
        if to_chars(sha).len() > 0 {
            return sha.to_owned();
        }
    }
    match reported {
        Some(text) => {
            let sha = trimmed(text);
            if to_chars(sha).len() == 0 {
                return "unknown".to_owned();
            }
            let mut r = sha.to_owned();
            if dirty {
                r.append("-dirty");
            }
            r
        },
        None => "unknown".to_owned(),
    }
}

/// A build always names its source.
pub proof fn law_sha_is_never_empty(
    given: Option<Seq<char>>,
    reported: Option<Seq<char>>,
    dirty: bool,
)
    ensures
        sha_text(given, reported, dirty).len() > 0,
{
    reveal_strlit("unknown");
}

pub open spec fn leap_year(y: int) -> bool {
    y % 4 == 0 && (y % 100 != 0 || y % 400 == 0)
}

/// Days from the first day of the year 0 to the first day of the year `y`.
pub open spec fn days_before_year(y: int) -> int {
    365 * y + (y + 3) / 4 - (y + 99) / 100 + (y + 399) / 400
}

pub open spec fn days_in_month(y: int, m: int) -> int {
    if m == 2 {
        if leap_year(y) {
            29
        } else {
            28
        }
    } else if m == 4 || m == 6 || m == 9 || m == 11 {
        30
    } else {
        31
    }
}

/// Days from the first day of the year to the first day of the month.
pub open spec fn days_before_month(y: int, m: int) -> int
    decreases m,
{
    if m <= 1 {
        0
    } else {
        days_before_month(y, m - 1) + days_in_month(y, m - 1)
    }
}

pub open spec fn valid_date(y: int, m: int, d: int) -> bool {
    1 <= m <= 12 && 1 <= d <= days_in_month(y, m)
}

/// Days from 1970-01-01 to a date of the Gregorian calendar.
pub open spec fn day_number(y: int, m: int, d: int) -> int {
    days_before_year(y) + days_before_month(y, m) + d - 719_529
}

pub open spec fn two_digits(n: int) -> Seq<char> {
    seq![digit(n / 10), digit(n % 10)]
}

/// A date as ISO 8601 writes it, for a year of at most four digits.
pub open spec fn iso_text(y: int, m: int, d: int) -> Seq<char> {
    let magnitude = if y < 0 {
        -y
    } else {
        y
    };
    let sign = if y < 0 {
        seq!['-']
    } else {
        Seq::empty()
    };
    sign + two_digits(magnitude / 100) + two_digits(magnitude % 100) + seq!['-'] + two_digits(m)
        + seq!['-'] + two_digits(d)
}

/// `text` is the date, in UTC, of a second counted from 1970-01-01.
pub open spec fn date_at(secs: int, text: Seq<char>) -> bool {
    exists|y: int, m: int, d: int| #[trigger]
        valid_date(y, m, d) && day_number(y, m, d) == secs / 86_400 && text == iso_text(y, m, d)
}

/// The first second of the year -9999.
pub const FIRST_SECOND: i64 = -377_705_116_800;

/// The last second of the year 9999.
pub const LAST_SECOND: i64 = 253_402_300_799;

/// The second lies in a year of at most four digits.
pub open spec fn datable(secs: int) -> bool {
    FIRST_SECOND <= secs <= LAST_SECOND
}

/// `time::OffsetDateTime::from_unix_timestamp`, and the date of its result as
/// `time::Date` prints it. The timestamp is refused where its year has more than
/// four digits; otherwise the text is the Gregorian date in UTC, written
/// year-month-day with four, two and two digits and a minus sign before a year
/// below zero.
#[verifier::external_body]
fn utc_date(secs: i64) -> (r: Option<String>)
    ensures
        match r {
            Some(text) => datable(secs as int) && date_at(secs as int, text@),
            None => !datable(secs as int),
        },
{
    match time::OffsetDateTime::from_unix_timestamp(secs) {
        Ok(moment) => Some(moment.date().to_string()),
        Err(_) => None,
    }
}

/// Which second the build is dated by: the one given from outside, if that is a
/// number and can be dated, or else the present.
pub open spec fn build_second(given: Option<Seq<char>>, now: int) -> int {
    match given {
        Some(text) => match integer_value(trim(text)) {
            Some(secs) => if datable(secs) {
                secs
            } else {
                now
            },
            None => now,
        },
        None => now,
    }
}

/// The date of the build. `given` comes from the environment, `now` from the clock,
/// both in seconds since 1970-01-01.
pub fn build_date(given: Option<&str>, now: i64) -> (date: String)
    requires
        datable(now as int),
    ensures
        date_at(build_second(optional_str(given), now as int), date@),
{
    if let Some(text) = given {
        if let Some(secs) = parse_i64(trimmed(text)) {
            if let Some(date) = utc_date(secs) {
                return date;
            }
        }
    }
    match utc_date(now) {
        Some(date) => date,
        None => {
            assert(false);
            String::new()
        },
    }
}

/// Counting multiples of `d` below a number, rounded up, goes one further exactly
/// after a multiple.
proof fn lemma_multiples_step(y: int, d: int)
    requires
        d >= 1,
    ensures
        (y + d) / d == (y + d - 1) / d + if y % d == 0 {
            1int
        } else {
            0
        },
{
    let q = y / d;
    let r = y % d;
    lemma_fundamental_div_mod(y, d);
    assert(d * q == q * d) by (nonlinear_arith);
    assert((q + 1) * d == q * d + d) by (nonlinear_arith);
    lemma_fundamental_div_mod_converse(y + d, d, q + 1, r);
    if r == 0 {
        lemma_fundamental_div_mod_converse(y + d - 1, d, q, d - 1);
    } else {
        lemma_fundamental_div_mod_converse(y + d - 1, d, q + 1, r - 1);
    }
}

pub proof fn lemma_year_length(y: int)
    ensures
        days_before_year(y + 1) - days_before_year(y) == 365 + if leap_year(y) {
            1int
        } else {
            0
        },
{
    lemma_multiples_step(y, 4);
    lemma_multiples_step(y, 100);
    lemma_multiples_step(y, 400);
    assert(y % 100 == 0 ==> y % 4 == 0);
    assert(y % 400 == 0 ==> y % 100 == 0);
}

proof fn lemma_years_ascend(a: int, b: int)
    requires
        a < b,
    ensures
        days_before_year(a) + 365 + (if leap_year(a) {
            1int
        } else {
            0
        }) <= days_before_year(b),
    decreases b - a,
{
    lemma_year_length(a);
    if a + 1 < b {
        lemma_years_ascend(a + 1, b);
    }
}

proof fn lemma_months_ascend(y: int, a: int, b: int)
    requires
        1 <= a < b,
    ensures
        days_before_month(y, a) + days_in_month(y, a) <= days_before_month(y, b),
    decreases b - a,
{
    if a + 1 < b {
        lemma_months_ascend(y, a, b - 1);
    }
}

proof fn lemma_dates_stay_in_their_year(y: int, m: int, d: int)
    requires
        valid_date(y, m, d),
    ensures
        1 <= days_before_month(y, m) + d <= 365 + if leap_year(y) {
            1int
        } else {
            0
        },
{
    reveal_with_fuel(days_before_month, 13);
}

/// A day has one date: the day number tells the date, so the text of a second's
/// date is determined.
pub proof fn law_a_day_has_one_date(y1: int, m1: int, d1: int, y2: int, m2: int, d2: int)
    requires
        valid_date(y1, m1, d1),
        valid_date(y2, m2, d2),
        day_number(y1, m1, d1) == day_number(y2, m2, d2),
    ensures
        y1 == y2 && m1 == m2 && d1 == d2,
{
    lemma_dates_stay_in_their_year(y1, m1, d1);
    lemma_dates_stay_in_their_year(y2, m2, d2);
    if y1 < y2 {
        lemma_years_ascend(y1, y2);
    } else if y2 < y1 {
        lemma_years_ascend(y2, y1);
    } else if m1 < m2 {
        lemma_months_ascend(y1, m1, m2);
    } else if m2 < m1 {
        lemma_months_ascend(y1, m2, m1);
    }
}

/// What `--version` shows.
pub open spec fn version_text(version: Seq<char>, sha: Seq<char>, date: Seq<char>) -> Seq<char> {
    version + " ("@ + sha + ", built "@ + date + ")"@
}

/// What the chart header shows.
pub open spec fn label_text(version: Seq<char>, sha: Seq<char>, date: Seq<char>) -> Seq<char> {
    "v"@ + version + " · "@ + sha + " · "@ + date
}

/// Long form, shown by `--version`.
pub fn version_string(version: &str, sha: &str, date: &str) -> (text: String)
    ensures
        text@ == version_text(version@, sha@, date@),
{
    let mut text = version.to_owned();
    text.append(" (");
    text.append(sha);
    text.append(", built ");
    text.append(date);
    text.append(")");
    text
}

/// Compact form for the chart header.
pub fn tui_label(version: &str, sha: &str, date: &str) -> (text: String)
    ensures
        text@ == label_text(version@, sha@, date@),
{
    let mut text = "v".to_owned();
    text.append(version);
    text.append(" · ");
    text.append(sha);
    text.append(" · ");
    text.append(date);
    text
}

proof fn lemma_holds_part(before: Seq<char>, part: Seq<char>, after: Seq<char>)
    ensures
        holds(before + part + after, part),
{
    let s = before + part + after;
    let k = before.len() as int;
    assert(s.subrange(k, k + part.len()) =~= part);
    assert(stands_at(s, part, k));
}

/// Both forms name the version, the source and the date, and the long form begins
/// with the version.
pub proof fn law_labels_name_the_build(version: Seq<char>, sha: Seq<char>, date: Seq<char>)
    ensures
        version.is_prefix_of(version_text(version, sha, date)),
        holds(version_text(version, sha, date), sha),
        holds(version_text(version, sha, date), date),
        holds(label_text(version, sha, date), version),
        holds(label_text(version, sha, date), sha),
        holds(label_text(version, sha, date), date),
{
    let long = version_text(version, sha, date);
    let short = label_text(version, sha, date);
    assert(long.take(version.len() as int) =~= version);
    lemma_holds_part(version + " ("@, sha, ", built "@ + date + ")"@);
    assert(long =~= version + " ("@ + sha + (", built "@ + date + ")"@));
    lemma_holds_part(version + " ("@ + sha + ", built "@, date, ")"@);
    lemma_holds_part("v"@, version, " · "@ + sha + " · "@ + date);
    assert(short =~= "v"@ + version + (" · "@ + sha + " · "@ + date));
    lemma_holds_part("v"@ + version + " · "@, sha, " · "@ + date);
    assert(short =~= "v"@ + version + " · "@ + sha + (" · "@ + date));
    lemma_holds_part("v"@ + version + " · "@ + sha + " · "@, date, Seq::empty());
    assert(short =~= "v"@ + version + " · "@ + sha + " · "@ + date + Seq::<char>::empty());
}

} // verus!
