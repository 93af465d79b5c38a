//! Laws on what a build calls itself.

use crate::build_info::{
    build_date, date_at, day_number, days_before_month, git_sha, iso_text, lemma_year_length,
    tui_label, valid_date, version_string,
};
use crate::laws::text::{
    integer_is, lemma_integer_value, lemma_trim_bounds, lemma_trim_is, trims_to,
};
use crate::text::{integer_value, is_white_space, same_text, to_chars, trim};
use vstd::prelude::*;

verus! {

/// The text has something in it besides white space.
pub open spec fn says_something(text: Seq<char>) -> bool {
    exists|a: int, b: int| #[trigger] trims_to(text, a, b) && a < b
}

/// `r` is the text without the white space around it.
pub open spec fn trimmed_to(text: Seq<char>, r: Seq<char>) -> bool {
    exists|a: int, b: int| #[trigger] trims_to(text, a, b) && r == text.subrange(a, b)
}

proof fn lemma_trimmed(text: Seq<char>)
    ensures
        trimmed_to(text, trim(text)),
        says_something(text) <==> trim(text).len() > 0,
{
    let (a, b) = lemma_trim_bounds(text);
    lemma_trim_is(text, a, b);
    if says_something(text) {
        let (c, d) = choose|c: int, d: int| #[trigger] trims_to(text, c, d) && c < d;
        lemma_trim_is(text, c, d);
    }
}

/// The source of a build: what was given, if that says something; or else what git
/// reported, marked where files were changed; or else unknown.
pub proof fn law_the_source_given_comes_first(
    given: Option<&str>,
    reported: Option<&str>,
    dirty: bool,
    sha: String,
)
    requires
        call_ensures(git_sha, (given, reported, dirty), sha),
    ensures
        given is Some && says_something(given->0@) ==> trimmed_to(given->0@, sha@),
        !(given is Some && says_something(given->0@)) ==> {
            &&& reported is Some && says_something(reported->0@) ==> exists|commit: Seq<char>|
                #[trigger] trimmed_to(reported->0@, commit) && sha@ == if dirty {
                    commit + "-dirty"@
                } else {
                    commit
                }
            &&& !(reported is Some && says_something(reported->0@)) ==> sha@ == "unknown"@
        },
{
    if given is Some {
        lemma_trimmed(given->0@);
    }
    if reported is Some {
        lemma_trimmed(reported->0@);
    }
}

/// The text is an integer, with or without white space around it, of a second in the
/// years -9999 to 9999.
pub open spec fn names_second(text: Seq<char>, secs: int) -> bool {
    &&& exists|trimmed: Seq<char>| #[trigger] trimmed_to(text, trimmed) && integer_is(trimmed, secs)
    &&& -377_705_116_800 <= secs <= 253_402_300_799
}

/// The build is dated by the second that was given, if the text given names one, and by
/// the clock otherwise.
pub proof fn law_the_second_given_comes_first(given: Option<&str>, now: i64, date: String)
    requires
        -377_705_116_800 <= now <= 253_402_300_799,
        call_ensures(build_date, (given, now), date),
    ensures
        forall|secs: int|
            given is Some && #[trigger] names_second(given->0@, secs) ==> date_at(secs, date@),
        given is None || !(exists|secs: int| #[trigger] names_second(given->0@, secs)) ==> date_at(
            now as int,
            date@,
        ),
{
    if given is Some {
        let text = given->0@;
        let core = trim(text);
        lemma_trimmed(text);
        lemma_integer_value(core);
        assert forall|secs: int| #[trigger] names_second(text, secs) implies integer_value(core)
            == Some(secs) by {
            let other = choose|other: Seq<char>| #[trigger]
                trimmed_to(text, other) && integer_is(other, secs);
            let (a, b) = choose|a: int, b: int| #[trigger]
                trims_to(text, a, b) && other == text.subrange(a, b);
            lemma_trim_is(text, a, b);
        }
        if let Some(v) = integer_value(core) {
            assert(integer_is(core, v));
            if -377_705_116_800 <= v <= 253_402_300_799 {
                assert(names_second(text, v));
            }
        }
    }
}

/// A date is written with the year in four digits, the month and the day in two.
pub proof fn law_dates_are_written_year_month_day(secs: int, text: Seq<char>)
    requires
        date_at(secs, text),
    ensures
        exists|y: int, m: int, d: int|
            #[trigger] valid_date(y, m, d) && day_number(y, m, d) == secs / 86_400 && (0 <= y
                <= 9999 ==> {
                &&& text.len() == 10
                &&& 1000 * (text[0] as int - 48) + 100 * (text[1] as int - 48) + 10 * (
                text[2] as int - 48) + (text[3] as int - 48) == y
                &&& text[4] == '-'
                &&& 10 * (text[5] as int - 48) + (text[6] as int - 48) == m
                &&& text[7] == '-'
                &&& 10 * (text[8] as int - 48) + (text[9] as int - 48) == d
            }),
{
    let (y, m, d) = choose|y: int, m: int, d: int| #[trigger]
        valid_date(y, m, d) && day_number(y, m, d) == secs / 86_400 && text == iso_text(y, m, d);
    assert(valid_date(y, m, d));
    if 0 <= y <= 9999 {
        assert(text.len() == 10);
        let h = y / 100;
        let l = y % 100;
        assert(h / 10 <= 9 && l / 10 <= 9);
    }
}

/// The days are counted from 1970-01-01 on, one after the other through the months and
/// the years of the Gregorian calendar.
pub proof fn law_days_follow_each_other(y: int, m: int, d: int)
    requires
        valid_date(y, m, d),
    ensures
        day_number(1970, 1, 1) == 0,
        valid_date(y, m, d + 1) ==> day_number(y, m, d + 1) == day_number(y, m, d) + 1,
        !valid_date(y, m, d + 1) && m < 12 ==> day_number(y, m + 1, 1) == day_number(y, m, d) + 1,
        !valid_date(y, m, d + 1) && m == 12 ==> day_number(y + 1, 1, 1) == day_number(y, m, d) + 1,
        m == 1 || m == 3 || m == 5 || m == 7 || m == 8 || m == 10 || m == 12 ==> (valid_date(
            y,
            m,
            d + 1,
        ) <==> d < 31),
        m == 4 || m == 6 || m == 9 || m == 11 ==> (valid_date(y, m, d + 1) <==> d < 30),
        m == 2 && y % 4 != 0 ==> (valid_date(y, m, d + 1) <==> d < 28),
        m == 2 && y % 4 == 0 && y % 100 != 0 ==> (valid_date(y, m, d + 1) <==> d < 29),
        m == 2 && y % 100 == 0 && y % 400 != 0 ==> (valid_date(y, m, d + 1) <==> d < 28),
        m == 2 && y % 400 == 0 ==> (valid_date(y, m, d + 1) <==> d < 29),
{
    reveal_with_fuel(days_before_month, 13);
    lemma_year_length(y);
}

/// The long form and the short form of the version.
pub proof fn law_versions_name_source_and_date(
    version: &str,
    sha: &str,
    date: &str,
    long: String,
    short: String,
)
    requires
        call_ensures(version_string, (version, sha, date), long),
        call_ensures(tui_label, (version, sha, date), short),
    ensures
        long@ == version@ + " ("@ + sha@ + ", built "@ + date@ + ")"@,
        short@ == "v"@ + version@ + " · "@ + sha@ + " · "@ + date@,
{
}

/// Which characters are white space.
pub proof fn law_white_space_is_that_of_unicode(c: char, r: bool)
    requires
        call_ensures(is_white_space, (c,), r),
    ensures
        ({
            let n = c as int;
            r <==> 9 <= n <= 13 || n == 32 || n == 133 || n == 160 || n == 5760 || 8192 <= n
                <= 8202 || n == 8232 || n == 8233 || n == 8239 || n == 8287 || n == 12288
        }),
{
}

/// Texts are compared character by character, and all of them are there.
pub proof fn law_texts_are_compared_by_their_characters(
    a: &str,
    b: &str,
    same: bool,
    chars: Vec<char>,
)
    requires
        call_ensures(same_text, (a, b), same),
        call_ensures(to_chars, (a,), chars),
    ensures
        same <==> a@.len() == b@.len() && forall|k: int|
            0 <= k < a@.len() ==> #[trigger] a@[k] == b@[k],
        chars@.len() == a@.len(),
        forall|k: int| 0 <= k < a@.len() ==> #[trigger] chars@[k] == a@[k],
{
    if a@.len() == b@.len() && forall|k: int| 0 <= k < a@.len() ==> #[trigger] a@[k] == b@[k] {
        assert(a@ =~= b@);
    }
}

} // verus!
