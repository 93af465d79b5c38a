//! Text handling: trimming, splitting, searching, and decimal numerals.

use vstd::prelude::*;

verus! {

/// The characters that Unicode gives the property White_Space.
pub open spec fn white_space(c: char) -> bool {
    ||| '\u{9}' <= c <= '\u{D}'
    ||| c == '\u{20}'
    ||| c == '\u{85}'
    ||| c == '\u{A0}'
    ||| c == '\u{1680}'
    ||| '\u{2000}' <= c <= '\u{200A}'
    ||| c == '\u{2028}'
    ||| c == '\u{2029}'
    ||| c == '\u{202F}'
    ||| c == '\u{205F}'
    ||| c == '\u{3000}'
}

pub fn is_white_space(c: char) -> (r: bool)
    ensures
        r == white_space(c),
{
    ('\u{9}' <= c && c <= '\u{D}') || c == '\u{20}' || c == '\u{85}' || c == '\u{A0}' || c
        == '\u{1680}' || ('\u{2000}' <= c && c <= '\u{200A}') || c == '\u{2028}' || c == '\u{2029}'
        || c == '\u{202F}' || c == '\u{205F}' || c == '\u{3000}'
}

pub open spec fn trim_start(s: Seq<char>) -> Seq<char>
    decreases s.len(),
{
    if s.len() > 0 && white_space(s.first()) {
        trim_start(s.drop_first())
    } else {
        s
    }
}

pub open spec fn trim_end(s: Seq<char>) -> Seq<char>
    decreases s.len(),
{
    if s.len() > 0 && white_space(s.last()) {
        trim_end(s.drop_last())
    } else {
        s
    }
}

/// The text without white space at either end.
pub open spec fn trim(s: Seq<char>) -> Seq<char> {
    trim_end(trim_start(s))
}

/// Where `c` first stands in `s`, or the length of `s`.
pub open spec fn first_index(s: Seq<char>, c: char) -> int
    decreases s.len(),
{
    if s.len() == 0 || s.first() == c {
        0
    } else {
        1 + first_index(s.drop_first(), c)
    }
}

/// The pieces between the separators: always at least one.
pub open spec fn split(s: Seq<char>, separator: char) -> Seq<Seq<char>>
    decreases s.len(),
    via split_decreases
{
    let i = first_index(s, separator);
    if i < s.len() {
        seq![s.take(i)] + split(s.skip(i + 1), separator)
    } else {
        seq![s]
    }
}

#[via_fn]
proof fn split_decreases(s: Seq<char>, separator: char) {
    lemma_first_index(s, separator);
}

/// `pattern` stands in `s` at `k`.
pub open spec fn stands_at(s: Seq<char>, pattern: Seq<char>, k: int) -> bool {
    0 <= k <= s.len() - pattern.len() && s.subrange(k, k + pattern.len()) == pattern
}

pub open spec fn holds(s: Seq<char>, pattern: Seq<char>) -> bool {
    exists|k: int| #[trigger] stands_at(s, pattern, k)
}

pub open spec fn digit(d: int) -> char {
    ('0' as int + d) as char
}

/// The decimal numeral of `n`, without leading zeros.
pub open spec fn decimal(n: nat) -> Seq<char>
    decreases n,
{
    if n < 10 {
        seq![digit(n as int)]
    } else {
        decimal(n / 10).push(digit((n % 10) as int))
    }
}

pub open spec fn all_digits(s: Seq<char>) -> bool {
    forall|k: int| 0 <= k < s.len() ==> '0' <= #[trigger] s[k] <= '9'
}

/// The number that a run of digits denotes.
pub open spec fn digits_value(s: Seq<char>) -> int
    decreases s.len(),
{
    if s.len() == 0 {
        0
    } else {
        10 * digits_value(s.drop_last()) + (s.last() as int - '0' as int)
    }
}

/// The number that a decimal integer with an optional sign denotes.
pub open spec fn integer_value(s: Seq<char>) -> Option<int> {
    let signed = s.len() > 0 && (s[0] == '+' || s[0] == '-');
    let digits = if signed {
        s.drop_first()
    } else {
        s
    };
    if digits.len() == 0 || !all_digits(digits) {
        None
    } else if signed && s[0] == '-' {
        Some(-digits_value(digits))
    } else {
        Some(digits_value(digits))
    }
}

pub proof fn lemma_first_index(s: Seq<char>, c: char)
    ensures
        0 <= first_index(s, c) <= s.len(),
        forall|k: int| 0 <= k < first_index(s, c) ==> #[trigger] s[k] != c,
        first_index(s, c) < s.len() ==> s[first_index(s, c)] == c,
    decreases s.len(),
{
    if s.len() > 0 && s.first() != c {
        lemma_first_index(s.drop_first(), c);
        assert forall|k: int| 0 <= k < first_index(s, c) implies #[trigger] s[k] != c by {
            if k > 0 {
                assert(s.drop_first()[k - 1] == s[k]);
            }
        }
    }
}

/// The first index is the only place that has `c` and no earlier `c`.
pub proof fn lemma_first_index_is(s: Seq<char>, c: char, k: int)
    requires
        0 <= k <= s.len(),
        forall|j: int| 0 <= j < k ==> #[trigger] s[j] != c,
        k < s.len() ==> s[k] == c,
    ensures
        first_index(s, c) == k,
{
    lemma_first_index(s, c);
    let i = first_index(s, c);
    if i < k {
        assert(s[i] != c);
    } else if k < i {
        assert(s[k] != c);
    }
}

/// Splitting text that holds a separator is splitting what is on either side.
pub proof fn lemma_split_joins(a: Seq<char>, separator: char, b: Seq<char>)
    ensures
        split(a + seq![separator] + b, separator) == split(a, separator) + split(b, separator),
    decreases a.len(),
{
    let s = a + seq![separator] + b;
    let i = first_index(a, separator);
    lemma_first_index(a, separator);
    assert forall|j: int| 0 <= j < i implies #[trigger] s[j] != separator by {
        assert(s[j] == a[j]);
    }
    lemma_first_index_is(s, separator, i);
    assert(s.take(i) =~= a.take(i));
    if i < a.len() {
        let rest = a.skip(i + 1);
        lemma_split_joins(rest, separator, b);
        assert(s.skip(i + 1) =~= rest + seq![separator] + b);
        assert(split(s, separator) =~= split(a, separator) + split(b, separator));
    } else {
        assert(s.skip(i + 1) =~= b);
        assert(a.take(i) =~= a);
        assert(split(s, separator) =~= split(a, separator) + split(b, separator));
    }
}

/// Text without a separator is one piece.
pub proof fn lemma_split_of_line(line: Seq<char>, separator: char)
    requires
        !line.contains(separator),
    ensures
        split(line, separator) == seq![line],
{
    assert forall|j: int| 0 <= j < line.len() implies #[trigger] line[j] != separator by {
        assert(line.contains(line[j]));
    }
    lemma_first_index_is(line, separator, line.len() as int);
}

proof fn lemma_trim_start(s: Seq<char>) -> (k: int)
    ensures
        0 <= k <= s.len(),
        trim_start(s) == s.skip(k),
        forall|j: int| 0 <= j < k ==> white_space(#[trigger] s[j]),
    decreases s.len(),
{
    if s.len() > 0 && white_space(s.first()) {
        let m = lemma_trim_start(s.drop_first());
        assert(s.drop_first().skip(m) =~= s.skip(m + 1));
        assert forall|j: int| 0 <= j < m + 1 implies white_space(#[trigger] s[j]) by {
            if j > 0 {
                assert(s.drop_first()[j - 1] == s[j]);
            }
        }
        m + 1
    } else {
        assert(s.skip(0) =~= s);
        0
    }
}

proof fn lemma_trim_end(s: Seq<char>) -> (k: int)
    ensures
        0 <= k <= s.len(),
        trim_end(s) == s.take(k),
        forall|j: int| k <= j < s.len() ==> white_space(#[trigger] s[j]),
    decreases s.len(),
{
    if s.len() > 0 && white_space(s.last()) {
        let m = lemma_trim_end(s.drop_last());
        assert(s.drop_last().take(m) =~= s.take(m));
        assert forall|j: int| m <= j < s.len() implies white_space(#[trigger] s[j]) by {
            if j < s.len() - 1 {
                assert(s.drop_last()[j] == s[j]);
            }
        }
        m
    } else {
        assert(s.take(s.len() as int) =~= s);
        s.len() as int
    }
}

/// A pattern that neither starts nor ends with white space stands in a text if
/// and only if it stands in the trimmed text.
pub proof fn lemma_trim_keeps_patterns(s: Seq<char>, pattern: Seq<char>)
    requires
        pattern.len() > 0,
        !white_space(pattern.first()),
        !white_space(pattern.last()),
    ensures
        holds(s, pattern) <==> holds(trim(s), pattern),
{
    let a = lemma_trim_start(s);
    let t = trim_start(s);
    let b = lemma_trim_end(t);
    let u = trim(s);
    let n = pattern.len() as int;
    if holds(s, pattern) {
        let k = choose|k: int| #[trigger] stands_at(s, pattern, k);
        assert(s.subrange(k, k + n)[0] == pattern[0]);
        assert(s.subrange(k, k + n)[n - 1] == pattern[n - 1]);
        if k < a {
            assert(white_space(s[k]));
        }
        if k + n > a + b {
            assert(t[k + n - 1 - a] == s[k + n - 1]);
            assert(white_space(t[k + n - 1 - a]));
        }
        assert(u.subrange(k - a, k - a + n) =~= s.subrange(k, k + n));
        assert(stands_at(u, pattern, k - a));
    }
    if holds(u, pattern) {
        let k = choose|k: int| #[trigger] stands_at(u, pattern, k);
        assert(s.subrange(k + a, k + a + n) =~= u.subrange(k, k + n));
        assert(stands_at(s, pattern, k + a));
    }
}

/// All characters of a text.
pub fn to_chars(text: &str) -> (chars: Vec<char>)
    ensures
        chars@ == text@,
{
    let mut chars: Vec<char> = Vec::new();
    for c in it: text.chars()
        invariant
            chars@ == it.seq().take(it.index() as int),
            it.seq() == text@,
    {
        chars.push(c);
    }
    chars
}

pub fn same_text(a: &str, b: &str) -> (r: bool)
    ensures
        r == (a@ == b@),
{
    let x = to_chars(a);
    let y = to_chars(b);
    if x.len() != y.len() {
        return false;
    }
    let mut k: usize = 0;
    while k < x.len()
        invariant
            x@ == a@,
            y@ == b@,
            x@.len() == y@.len(),
            k <= x.len(),
            x@.take(k as int) == y@.take(k as int),
        decreases x.len() - k,
    {
        if x[k] != y[k] {
            assert(x@[k as int] != y@[k as int]);
            return false;
        }
        assert(x@.take(k + 1) =~= x@.take(k as int).push(x@[k as int]));
        assert(y@.take(k + 1) =~= y@.take(k as int).push(y@[k as int]));
        k += 1;
    }
    assert(x@.take(k as int) =~= x@);
    assert(y@.take(k as int) =~= y@);
    true
}

/// The bounds of `chars[from..to]` without white space at either end.
pub fn trim_range(chars: &Vec<char>, from: usize, to: usize) -> (r: (usize, usize))
    requires
        from <= to <= chars.len(),
    ensures
        from <= r.0 <= r.1 <= to,
        chars@.subrange(r.0 as int, r.1 as int) == trim(chars@.subrange(from as int, to as int)),
{
    let mut a: usize = from;
    while a < to && is_white_space(chars[a])
        invariant
            from <= a <= to <= chars.len(),
            trim_start(chars@.subrange(a as int, to as int)) == trim_start(
                chars@.subrange(from as int, to as int),
            ),
        decreases to - a,
    {
        assert(chars@.subrange(a as int, to as int).drop_first() =~= chars@.subrange(
            a + 1,
            to as int,
        ));
        a += 1;
    }
    let mut b: usize = to;
    while a < b && is_white_space(chars[b - 1])
        invariant
            a <= b <= to <= chars.len(),
            trim_end(chars@.subrange(a as int, b as int)) == trim_end(
                chars@.subrange(a as int, to as int),
            ),
        decreases b - a,
    {
        assert(chars@.subrange(a as int, b as int).drop_last() =~= chars@.subrange(
            a as int,
            b - 1,
        ));
        b -= 1;
    }
    (a, b)
}

/// Where `c` first stands in `chars[from..to]`, or `to`.
pub fn find(chars: &Vec<char>, from: usize, to: usize, c: char) -> (r: usize)
    requires
        from <= to <= chars.len(),
    ensures
        from <= r <= to,
        r == from + first_index(chars@.subrange(from as int, to as int), c),
{
    let mut k: usize = from;
    while k < to && chars[k] != c
        invariant
            from <= k <= to <= chars.len(),
            forall|j: int| from <= j < k ==> #[trigger] chars@[j] != c,
        decreases to - k,
    {
        k += 1;
    }
    proof {
        let s = chars@.subrange(from as int, to as int);
        assert forall|j: int| 0 <= j < k - from implies #[trigger] s[j] != c by {
            assert(s[j] == chars@[from + j]);
        }
        lemma_first_index_is(s, c, k - from);
    }
    k
}

/// Whether `pattern` stands anywhere in `chars[from..to]`.
pub fn range_holds(chars: &Vec<char>, from: usize, to: usize, pattern: &str) -> (r: bool)
    requires
        from <= to <= chars.len(),
    ensures
        r == holds(chars@.subrange(from as int, to as int), pattern@),
{
    let p = to_chars(pattern);
    let ghost s = chars@.subrange(from as int, to as int);
    let mut k: usize = from;
    while to - k >= p.len()
        invariant_except_break
            from <= k <= to <= chars.len(),
            p@ == pattern@,
            s == chars@.subrange(from as int, to as int),
            forall|i: int| 0 <= i < k - from ==> !#[trigger] stands_at(s, pattern@, i),
        ensures
            forall|i: int| !#[trigger] stands_at(s, pattern@, i),
        decreases to - k,
    {
        let mut j: usize = 0;
        while j < p.len() && chars[k + j] == p[j]
            invariant
                from <= k <= to <= chars.len(),
                to - k >= p.len(),
                j <= p.len(),
                s == chars@.subrange(from as int, to as int),
                forall|i: int| 0 <= i < j ==> #[trigger] p@[i] == s[k - from + i],
            decreases p.len() - j,
        {
            assert(s[k - from + j] == chars@[k + j]);
            j += 1;
        }
        if j == p.len() {
            assert(s.subrange(k - from, k - from + p@.len()) =~= p@);
            assert(stands_at(s, pattern@, k - from));
            return true;
        }
        assert(!stands_at(s, pattern@, k - from)) by {
            assert(s[k - from + j] == chars@[k + j]);
            assert(s.subrange(k - from, k - from + p@.len())[j as int] == s[k - from + j]);
        }
        if k == to {
            break ;
        }
        k += 1;
    }
    false
}

pub fn text_holds(text: &str, pattern: &str) -> (r: bool)
    ensures
        r == holds(text@, pattern@),
{
    let chars = to_chars(text);
    assert(chars@.subrange(0, chars@.len() as int) =~= text@);
    range_holds(&chars, 0, chars.len(), pattern)
}

/// The text without white space at either end.
pub fn trimmed(text: &str) -> (r: &str)
    ensures
        r@ == trim(text@),
{
    let chars = to_chars(text);
    assert(chars@.subrange(0, chars@.len() as int) =~= text@);
    let (a, b) = trim_range(&chars, 0, chars.len());
    text.substring_char(a, b)
}

fn digit_text(d: u64) -> (r: &'static str)
    requires
        d < 10,
    ensures
        r@ == seq![digit(d as int)],
{
    proof {
        reveal_strlit("0");
        reveal_strlit("1");
        reveal_strlit("2");
        reveal_strlit("3");
        reveal_strlit("4");
        reveal_strlit("5");
        reveal_strlit("6");
        reveal_strlit("7");
        reveal_strlit("8");
        reveal_strlit("9");
    }
    let r = if d == 0 {
        "0"
    } else if d == 1 {
        "1"
    } else if d == 2 {
        "2"
    } else if d == 3 {
        "3"
    } else if d == 4 {
        "4"
    } else if d == 5 {
        "5"
    } else if d == 6 {
        "6"
    } else if d == 7 {
        "7"
    } else if d == 8 {
        "8"
    } else {
        "9"
    };
    assert(r@ =~= seq![digit(d as int)]);
    r
}

/// Appends the decimal numeral of `n`.
pub fn push_decimal(out: &mut String, n: u64)
    ensures
        final(out)@ == old(out)@ + decimal(n as nat),
    decreases n,
{
    if n < 10 {
        out.append(digit_text(n));
    } else {
        push_decimal(out, n / 10);
        out.append(digit_text(n % 10));
        assert(out@ =~= old(out)@ + decimal(n as nat));
    }
}

proof fn lemma_digits_prefix(s: Seq<char>, k: int)
    requires
        all_digits(s),
        0 <= k <= s.len(),
    ensures
        0 <= digits_value(s.take(k)) <= digits_value(s),
    decreases s.len(),
{
    if s.len() > 0 {
        let init = s.drop_last();
        assert forall|i: int| 0 <= i < init.len() implies '0' <= #[trigger] init[i] <= '9' by {
            assert(init[i] == s[i]);
        }
        assert('0' <= s[s.len() - 1] <= '9');
        if k < s.len() {
            lemma_digits_prefix(init, k);
            assert(init.take(k) =~= s.take(k));
        } else {
            lemma_digits_prefix(init, init.len() as int);
            assert(init.take(init.len() as int) =~= init);
            assert(s.take(k) =~= s);
        }
    } else {
        assert(s.take(k) =~= s);
    }
}

/// Reads a decimal integer with an optional sign, as far as it fits.
pub fn parse_i64(text: &str) -> (r: Option<i64>)
    ensures
        match integer_value(text@) {
            Some(v) => if i64::MIN <= v <= i64::MAX {
                r == Some(v as i64)
            } else {
                r is None
            },
            None => r is None,
        },
{
    let chars = to_chars(text);
    let signed = chars.len() > 0 && (chars[0] == '+' || chars[0] == '-');
    let negative = signed && chars[0] == '-';
    let first: usize = if signed {
        1
    } else {
        0
    };
    let ghost digits = if signed {
        text@.drop_first()
    } else {
        text@
    };
    assert(digits =~= text@.skip(first as int));
    if chars.len() == first {
        return None;
    }
    let limit: i128 = 0x8000_0000_0000_0000;
    let mut value: i128 = 0;
    let mut k: usize = first;
    while k < chars.len()
        invariant
            first <= k <= chars.len(),
            chars@ == text@,
            digits == text@.skip(first as int),
            digits == if signed {
                text@.drop_first()
            } else {
                text@
            },
            digits.len() > 0,
            signed == (text@.len() > 0 && (text@[0] == '+' || text@[0] == '-')),
            first == if signed {
                1int
            } else {
                0int
            },
            all_digits(digits.take(k - first)),
            value == digits_value(digits.take(k - first)),
            0 <= value <= limit,
            limit == 0x8000_0000_0000_0000,
        decreases chars.len() - k,
    {
        let c = chars[k];
        assert(digits[k - first] == c);
        if !('0' <= c && c <= '9') {
            assert(!all_digits(digits));
            return None;
        }
        value = value * 10 + (c as u32 - '0' as u32) as i128;
        proof {
            let next = digits.take(k - first + 1);
            assert(next.drop_last() =~= digits.take(k - first));
            assert forall|i: int| 0 <= i < next.len() implies '0' <= #[trigger] next[i] <= '9' by {
                if i < k - first {
                    assert(digits.take(k - first)[i] == next[i]);
                }
            }
        }
        if value > limit {
            proof {
                if all_digits(digits) {
                    lemma_digits_prefix(digits, k - first + 1);
                }
            }
            return None;
        }
        k += 1;
    }
    assert(digits.take(k - first) =~= digits);
    if negative {
        Some((0 - value) as i64)
    } else if value < limit {
        Some(value as i64)
    } else {
        None
    }
}

} // verus!
