//! Laws on text: what trimming, splitting, searching and numerals give.

use crate::text::{
    decimal, digits_value, find, holds, integer_value, lemma_first_index, lemma_split_joins,
    lemma_split_of_line, parse_i64, push_decimal, range_holds, split, stands_at, text_holds, trim,
    trim_end, trim_range, trim_start, trimmed, white_space,
};
use vstd::prelude::*;

verus! {

/// `s[a..b]` is what is left of `s` without the white space at its ends.
pub open spec fn trims_to(s: Seq<char>, a: int, b: int) -> bool {
    &&& 0 <= a <= b <= s.len()
    &&& forall|k: int| 0 <= k < a ==> white_space(#[trigger] s[k])
    &&& forall|k: int| b <= k < s.len() ==> white_space(#[trigger] s[k])
    &&& a < b ==> !white_space(s[a]) && !white_space(s[b - 1])
}

proof fn lemma_trim_start_at(s: Seq<char>, a: int)
    requires
        0 <= a <= s.len(),
        forall|k: int| 0 <= k < a ==> white_space(#[trigger] s[k]),
        a < s.len() ==> !white_space(s[a]),
    ensures
        trim_start(s) == s.skip(a),
    decreases s.len(),
{
    if a > 0 {
        let rest = s.drop_first();
        assert(white_space(s[0]));
        assert forall|k: int| 0 <= k < a - 1 implies white_space(#[trigger] rest[k]) by {
            assert(white_space(s[k + 1]));
        }
        lemma_trim_start_at(rest, a - 1);
        assert(rest.skip(a - 1) =~= s.skip(a));
    } else {
        assert(s.skip(0) =~= s);
    }
}

proof fn lemma_trim_end_at(s: Seq<char>, b: int)
    requires
        0 <= b <= s.len(),
        forall|k: int| b <= k < s.len() ==> white_space(#[trigger] s[k]),
        b > 0 ==> !white_space(s[b - 1]),
    ensures
        trim_end(s) == s.take(b),
    decreases s.len(),
{
    if b < s.len() {
        let rest = s.drop_last();
        assert(white_space(s[s.len() - 1]));
        assert forall|k: int| b <= k < rest.len() implies white_space(#[trigger] rest[k]) by {
            assert(white_space(s[k]));
        }
        lemma_trim_end_at(rest, b);
        assert(rest.take(b) =~= s.take(b));
    } else {
        assert(s.take(b) =~= s);
    }
}

pub proof fn lemma_trim_is(s: Seq<char>, a: int, b: int)
    requires
        trims_to(s, a, b),
    ensures
        trim(s) == s.subrange(a, b),
{
    if a < b {
        lemma_trim_start_at(s, a);
        let t = s.skip(a);
        assert forall|k: int| b - a <= k < t.len() implies white_space(#[trigger] t[k]) by {
            assert(white_space(s[k + a]));
        }
        assert(t[b - a - 1] == s[b - 1]);
        lemma_trim_end_at(t, b - a);
        assert(t.take(b - a) =~= s.subrange(a, b));
    } else {
        let n = s.len() as int;
        assert forall|k: int| 0 <= k < n implies white_space(#[trigger] s[k]) by {}
        lemma_trim_start_at(s, n);
        assert(s.skip(n) =~= Seq::<char>::empty());
        assert(s.subrange(a, b) =~= Seq::<char>::empty());
    }
}

proof fn lemma_leading(s: Seq<char>) -> (a: int)
    ensures
        0 <= a <= s.len(),
        forall|k: int| 0 <= k < a ==> white_space(#[trigger] s[k]),
        a < s.len() ==> !white_space(s[a]),
    decreases s.len(),
{
    if s.len() > 0 && white_space(s[0]) {
        let rest = s.drop_first();
        let a = lemma_leading(rest);
        assert forall|k: int| 0 <= k < a + 1 implies white_space(#[trigger] s[k]) by {
            if k > 0 {
                assert(s[k] == rest[k - 1]);
            }
        }
        if a < rest.len() {
            assert(s[a + 1] == rest[a]);
        }
        a + 1
    } else {
        0
    }
}

proof fn lemma_trailing(s: Seq<char>, a: int) -> (b: int)
    requires
        0 <= a <= s.len(),
        a < s.len() ==> !white_space(s[a]),
    ensures
        a <= b <= s.len(),
        forall|k: int| b <= k < s.len() ==> white_space(#[trigger] s[k]),
        a < b ==> !white_space(s[b - 1]),
    decreases s.len(),
{
    if s.len() > a && white_space(s[s.len() - 1]) {
        let rest = s.drop_last();
        let b = lemma_trailing(rest, a);
        assert forall|k: int| b <= k < s.len() implies white_space(#[trigger] s[k]) by {
            if k < rest.len() {
                assert(s[k] == rest[k]);
            }
        }
        b
    } else {
        s.len() as int
    }
}

/// Every text can be trimmed.
pub proof fn lemma_trim_bounds(s: Seq<char>) -> (r: (int, int))
    ensures
        trims_to(s, r.0, r.1),
        trim(s) == s.subrange(r.0, r.1),
{
    let a = lemma_leading(s);
    let b = lemma_trailing(s, a);
    lemma_trim_is(s, a, b);
    (a, b)
}

/// Trimming takes white space off both ends, all of it and nothing else.
pub proof fn law_trimming_takes_white_space_off_the_ends(text: &str, r: &str)
    requires
        call_ensures(trimmed, (text,), r),
    ensures
        exists|a: int, b: int| #[trigger] trims_to(text@, a, b) && r@ == text@.subrange(a, b),
{
    let (a, b) = lemma_trim_bounds(text@);
    assert(trims_to(text@, a, b));
}

/// Trimming a range finds where the text without white space at its ends lies.
pub proof fn law_trimmed_ranges_keep_their_text(
    chars: &Vec<char>,
    from: usize,
    to: usize,
    r: (usize, usize),
)
    requires
        from <= to <= chars@.len(),
        call_ensures(trim_range, (chars, from, to), r),
    ensures
        from <= r.0 <= r.1 <= to,
        exists|a: int, b: int| #[trigger]
            trims_to(chars@.subrange(from as int, to as int), a, b) && chars@.subrange(
                r.0 as int,
                r.1 as int,
            ) == chars@.subrange(from as int, to as int).subrange(a, b),
{
    let (a, b) = lemma_trim_bounds(chars@.subrange(from as int, to as int));
    assert(trims_to(chars@.subrange(from as int, to as int), a, b));
}

/// Searching finds the first place of a character, or the end.
pub proof fn law_searching_finds_the_first_place(
    chars: &Vec<char>,
    from: usize,
    to: usize,
    c: char,
    r: usize,
)
    requires
        from <= to <= chars@.len(),
        call_ensures(find, (chars, from, to, c), r),
    ensures
        from <= r <= to,
        r < to ==> chars@[r as int] == c,
        forall|k: int| from <= k < r ==> #[trigger] chars@[k] != c,
{
    let s = chars@.subrange(from as int, to as int);
    lemma_first_index(s, c);
    assert forall|k: int| from <= k < r implies #[trigger] chars@[k] != c by {
        assert(s[k - from] != c);
    }
}

/// The text is the pattern with something before and something after it.
pub open spec fn made_round(text: Seq<char>, pattern: Seq<char>) -> bool {
    exists|before: Seq<char>, after: Seq<char>| text == #[trigger] (before + pattern + after)
}

proof fn lemma_made_round(s: Seq<char>, p: Seq<char>)
    ensures
        holds(s, p) <==> made_round(s, p),
{
    if holds(s, p) {
        let k = choose|k: int| #[trigger] stands_at(s, p, k);
        let before = s.take(k);
        let after = s.skip(k + p.len());
        assert(s.subrange(k, k + p.len()) == p);
        assert(s =~= before + p + after);
    }
    if made_round(s, p) {
        let (before, after) = choose|before: Seq<char>, after: Seq<char>|
            s == #[trigger] (before + p + after);
        let k = before.len() as int;
        assert(s.subrange(k, k + p.len()) =~= p);
        assert(stands_at(s, p, k));
    }
}

/// A text, or a part of one, holds a pattern if and only if it is the pattern with
/// something before and something after it.
pub proof fn law_a_pattern_is_held_where_it_stands(
    text: &str,
    pattern: &str,
    r: bool,
    chars: &Vec<char>,
    from: usize,
    to: usize,
    part: bool,
)
    requires
        call_ensures(text_holds, (text, pattern), r),
        from <= to <= chars@.len(),
        call_ensures(range_holds, (chars, from, to, pattern), part),
    ensures
        r <==> made_round(text@, pattern@),
        part <==> made_round(chars@.subrange(from as int, to as int), pattern@),
{
    lemma_made_round(text@, pattern@);
    lemma_made_round(chars@.subrange(from as int, to as int), pattern@);
}

/// What a numeral is worth, digit by digit from the left.
pub open spec fn worth(s: Seq<char>) -> int
    decreases s.len(),
{
    if s.len() == 0 {
        0
    } else {
        10 * worth(s.drop_last()) + (s[s.len() - 1] as int - 48)
    }
}

/// The text is made of digits only.
pub open spec fn numeral(s: Seq<char>) -> bool {
    s.len() > 0 && forall|k: int| 0 <= k < s.len() ==> '0' <= #[trigger] s[k] <= '9'
}

proof fn lemma_worth(s: Seq<char>)
    ensures
        digits_value(s) == worth(s),
    decreases s.len(),
{
    if s.len() > 0 {
        lemma_worth(s.drop_last());
    }
}

/// `s` is the decimal numeral of `n`: digits that are worth `n`, and no zero before
/// the first digit that counts.
pub open spec fn numeral_of(s: Seq<char>, n: nat) -> bool {
    numeral(s) && worth(s) == n && (s.len() > 1 ==> s[0] != '0')
}

pub proof fn lemma_decimal_is_a_numeral(n: nat)
    ensures
        numeral_of(decimal(n), n),
    decreases n,
{
    if n < 10 {
        let s = decimal(n);
        assert(s.len() == 1);
        assert(worth(s.drop_last()) == 0);
    } else {
        let s = decimal(n);
        let init = decimal(n / 10);
        lemma_decimal_is_a_numeral(n / 10);
        assert(s.drop_last() =~= init);
        assert forall|k: int| 0 <= k < s.len() implies '0' <= #[trigger] s[k] <= '9' by {
            if k < init.len() {
                assert(s[k] == init[k]);
            }
        }
        assert(s[0] == init[0]);
        if init.len() == 1 {
            assert(worth(init.drop_last()) == 0);
            assert(init[0] as int - 48 == n / 10);
        }
    }
}

/// Appending a number appends its decimal numeral, whatever the number.
pub proof fn law_numbers_are_appended_as_numerals(out: &mut String, n: u64)
    requires
        call_ensures(push_decimal, (out, n), ()),
    ensures
        exists|s: Seq<char>| #[trigger] numeral_of(s, n as nat) && final(out)@ == old(out)@ + s,
{
    lemma_decimal_is_a_numeral(n as nat);
    assert(numeral_of(decimal(n as nat), n as nat));
}

/// The integer that a text is, if it is one: digits, after one sign at most.
pub open spec fn integer_is(text: Seq<char>, v: int) -> bool {
    ||| numeral(text) && v == worth(text)
    ||| text.len() > 0 && text[0] == '+' && numeral(text.skip(1)) && v == worth(text.skip(1))
    ||| text.len() > 0 && text[0] == '-' && numeral(text.skip(1)) && v == -worth(text.skip(1))
}

pub proof fn lemma_integer_value(s: Seq<char>)
    ensures
        forall|v: int| #[trigger] integer_is(s, v) ==> integer_value(s) == Some(v),
        integer_value(s) matches Some(v) ==> integer_is(s, v),
{
    lemma_worth(s);
    if s.len() > 0 {
        assert(s.drop_first() =~= s.skip(1));
        lemma_worth(s.skip(1));
    }
}

/// An integer is read if and only if the text is one that fits, and as what it is.
pub proof fn law_integers_are_read_as_what_they_are(text: &str, r: Option<i64>)
    requires
        call_ensures(parse_i64, (text,), r),
    ensures
        forall|v: int| i64::MIN <= v <= i64::MAX && #[trigger] integer_is(text@, v) ==> r == Some(
            v as i64,
        ),
        r matches Some(v) ==> integer_is(text@, v as int),
{
    lemma_integer_value(text@);
}

/// Pieces with a separator between them.
pub open spec fn joined_by(pieces: Seq<Seq<char>>, separator: char) -> Seq<char>
    decreases pieces.len(),
{
    if pieces.len() == 0 {
        Seq::empty()
    } else if pieces.len() == 1 {
        pieces[0]
    } else {
        pieces[0] + seq![separator] + joined_by(pieces.drop_first(), separator)
    }
}

/// Splitting takes apart what joining puts together.
pub proof fn law_splitting_undoes_joining(pieces: Seq<Seq<char>>, separator: char)
    requires
        pieces.len() > 0,
        forall|k: int| 0 <= k < pieces.len() ==> !(#[trigger] pieces[k]).contains(separator),
    ensures
        split(joined_by(pieces, separator), separator) == pieces,
    decreases pieces.len(),
{
    lemma_split_of_line(pieces[0], separator);
    if pieces.len() == 1 {
        assert(seq![pieces[0]] =~= pieces);
    } else {
        let rest = pieces.drop_first();
        assert forall|k: int| 0 <= k < rest.len() implies !(#[trigger] rest[k]).contains(
            separator,
        ) by {
            assert(rest[k] == pieces[k + 1]);
        }
        law_splitting_undoes_joining(rest, separator);
        lemma_split_joins(pieces[0], separator, joined_by(rest, separator));
        assert(seq![pieces[0]] + rest =~= pieces);
    }
}

} // verus!
