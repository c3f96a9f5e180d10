//! Character-level helpers shared by the parsers: blanks, trimming and
//! decimal numerals. Indices count characters.
//!
//! Blanks are the ASCII whitespace characters only: command lines, address
//! fields and argument lists are trimmed and split on these, and other
//! Unicode spaces count as ordinary text.
use vstd::prelude::*;
use vstd::string::*;

verus! {

/// The ASCII whitespace characters: space, tab, newline, carriage return,
/// vertical tab and form feed. Unicode spaces beyond ASCII are not blanks.
pub open spec fn is_blank(c: char) -> bool {
    c == ' ' || c == '\t' || c == '\n' || c == '\r' || c == '\x0B' || c == '\x0C'
}

pub open spec fn is_digit(c: char) -> bool {
    '0' <= c <= '9'
}

/// Number of blanks at the start of `s`.
pub open spec fn lead_blanks(s: Seq<char>) -> nat
    decreases s.len(),
{
    if s.len() > 0 && is_blank(s[0]) {
        1 + lead_blanks(s.drop_first())
    } else {
        0
    }
}

/// Number of blanks at the end of `s`.
pub open spec fn trail_blanks(s: Seq<char>) -> nat
    decreases s.len(),
{
    if s.len() > 0 && is_blank(s.last()) {
        1 + trail_blanks(s.drop_last())
    } else {
        0
    }
}

/// `s` without its leading blanks.
pub open spec fn trim_start(s: Seq<char>) -> Seq<char> {
    s.subrange(lead_blanks(s) as int, s.len() as int)
}

/// `s` without its leading and trailing blanks.
pub open spec fn trimmed(s: Seq<char>) -> Seq<char> {
    let t = trim_start(s);
    t.subrange(0, t.len() - trail_blanks(t))
}

/// Number of decimal digits at the start of `s`.
pub open spec fn digit_run(s: Seq<char>) -> nat
    decreases s.len(),
{
    if s.len() > 0 && is_digit(s[0]) {
        1 + digit_run(s.drop_first())
    } else {
        0
    }
}

/// Every character of `s` is a decimal digit.
pub open spec fn all_digits(s: Seq<char>) -> bool {
    forall|i: int| 0 <= i < s.len() ==> #[trigger] is_digit(s[i])
}

/// The value of a decimal digit.
pub open spec fn digit_of(c: char) -> nat {
    (c as int - '0' as int) as nat
}

/// The value of a decimal numeral.
pub open spec fn digits_value(s: Seq<char>) -> nat
    decreases s.len(),
{
    if s.len() == 0 {
        0
    } else {
        digits_value(s.drop_last()) * 10 + digit_of(s.last())
    }
}

/// The number written in `s`, when `s` is a non-empty numeral whose value
/// fits in a `usize`.
pub open spec fn numeral(s: Seq<char>) -> Option<usize> {
    if s.len() > 0 && all_digits(s) && digits_value(s) <= usize::MAX {
        Some(digits_value(s) as usize)
    } else {
        None
    }
}

proof fn lemma_lead_blanks_bound(s: Seq<char>)
    ensures
        lead_blanks(s) <= s.len(),
        forall|i: int| 0 <= i < lead_blanks(s) ==> is_blank(#[trigger] s[i]),
        lead_blanks(s) < s.len() ==> !is_blank(s[lead_blanks(s) as int]),
    decreases s.len(),
{
    if s.len() > 0 && is_blank(s[0]) {
        lemma_lead_blanks_bound(s.drop_first());
        assert forall|i: int| 0 <= i < lead_blanks(s) implies is_blank(#[trigger] s[i]) by {
            if i > 0 {
                assert(s[i] == s.drop_first()[i - 1]);
            }
        }
    }
}

proof fn lemma_trail_blanks_bound(s: Seq<char>)
    ensures
        trail_blanks(s) <= s.len(),
    decreases s.len(),
{
    if s.len() > 0 && is_blank(s.last()) {
        lemma_trail_blanks_bound(s.drop_last());
    }
}

proof fn lemma_lead_step(s: Seq<char>, i: int)
    requires
        0 <= i < s.len(),
        is_blank(s[i]),
    ensures
        lead_blanks(s.subrange(i, s.len() as int)) == 1 + lead_blanks(s.subrange(i + 1, s.len() as int)),
{
    assert(s.subrange(i, s.len() as int).drop_first() =~= s.subrange(i + 1, s.len() as int));
}

proof fn lemma_trail_step(s: Seq<char>, j: int)
    requires
        0 < j <= s.len(),
        is_blank(s[j - 1]),
    ensures
        trail_blanks(s.subrange(0, j)) == 1 + trail_blanks(s.subrange(0, j - 1)),
{
    assert(s.subrange(0, j).drop_last() =~= s.subrange(0, j - 1));
}

proof fn lemma_digit_step(s: Seq<char>, i: int)
    requires
        0 <= i < s.len(),
        is_digit(s[i]),
    ensures
        digit_run(s.subrange(i, s.len() as int)) == 1 + digit_run(s.subrange(i + 1, s.len() as int)),
{
    assert(s.subrange(i, s.len() as int).drop_first() =~= s.subrange(i + 1, s.len() as int));
}

/// Digits extend a numeral's value by place.
proof fn lemma_digits_push(s: Seq<char>, j: int)
    requires
        0 <= j < s.len(),
    ensures
        digits_value(s.subrange(0, j + 1)) == digits_value(s.subrange(0, j)) * 10 + digit_of(s[j]),
{
    assert(s.subrange(0, j + 1).drop_last() =~= s.subrange(0, j));
}

/// A longer numeral is worth at least as much as its prefix.
proof fn lemma_digits_monotone(s: Seq<char>, j: int, k: int)
    requires
        0 <= j <= k <= s.len(),
        all_digits(s),
    ensures
        digits_value(s.subrange(0, j)) <= digits_value(s.subrange(0, k)),
    decreases k - j,
{
    if j < k {
        lemma_digits_monotone(s, j, k - 1);
        lemma_digits_push(s, k - 1);
        assert(is_digit(s[k - 1]));
    }
}

/// Number of leading blanks of `s`.
pub fn count_lead_blanks(s: &str) -> (n: usize)
    ensures
        n == lead_blanks(s@),
{
    let len = s.unicode_len();
    let mut i: usize = 0;
    proof {
        assert(s@.subrange(0, s@.len() as int) =~= s@);
    }
    while i < len && is_blank_char(s.get_char(i))
        invariant
            0 <= i <= len,
            len == s@.len(),
            lead_blanks(s@) == i + lead_blanks(s@.subrange(i as int, len as int)),
        decreases len - i,
    {
        proof {
            lemma_lead_step(s@, i as int);
        }
        i += 1;
    }
    proof {
        if i < len {
            assert(s@.subrange(i as int, len as int)[0] == s@[i as int]);
        }
    }
    i
}

/// Number of trailing blanks of `s`.
pub fn count_trail_blanks(s: &str) -> (n: usize)
    ensures
        n == trail_blanks(s@),
{
    let len = s.unicode_len();
    let mut j: usize = len;
    proof {
        assert(s@.subrange(0, s@.len() as int) =~= s@);
    }
    while j > 0 && is_blank_char(s.get_char(j - 1))
        invariant
            0 <= j <= len,
            len == s@.len(),
            trail_blanks(s@) == (len - j) + trail_blanks(s@.subrange(0, j as int)),
        decreases j,
    {
        proof {
            lemma_trail_step(s@, j as int);
        }
        j -= 1;
    }
    proof {
        if j > 0 {
            assert(s@.subrange(0, j as int).last() == s@[j - 1]);
        }
    }
    (len - j) as usize
}

/// Whether `c` is an ASCII whitespace character.
pub fn is_blank_char(c: char) -> (r: bool)
    ensures
        r == is_blank(c),
{
    c == ' ' || c == '\t' || c == '\n' || c == '\r' || c == '\x0B' || c == '\x0C'
}

/// `s` without leading and trailing blanks.
pub fn trim(s: &str) -> (r: &str)
    ensures
        r@ == trimmed(s@),
{
    let a = count_lead_blanks(s);
    proof {
        lemma_lead_blanks_bound(s@);
    }
    let t = s.substring_char(a, s.unicode_len());
    let b = count_trail_blanks(t);
    proof {
        lemma_trail_blanks_bound(t@);
    }
    t.substring_char(0, t.unicode_len() - b)
}

/// Number of decimal digits at the start of `s@[from..]`.
pub fn count_digits(s: &str, from: usize) -> (n: usize)
    requires
        from <= s@.len(),
    ensures
        n == digit_run(s@.subrange(from as int, s@.len() as int)),
        from + n <= s@.len(),
{
    let len = s.unicode_len();
    let mut i: usize = from;
    while i < len && is_digit_char(s.get_char(i))
        invariant
            from <= i <= len,
            len == s@.len(),
            digit_run(s@.subrange(from as int, len as int)) == (i - from) + digit_run(
                s@.subrange(i as int, len as int),
            ),
        decreases len - i,
    {
        proof {
            lemma_digit_step(s@, i as int);
        }
        i += 1;
    }
    proof {
        if i < len {
            assert(s@.subrange(i as int, len as int)[0] == s@[i as int]);
        }
    }
    i - from
}

/// Whether `c` is a decimal digit.
pub fn is_digit_char(c: char) -> (r: bool)
    ensures
        r == is_digit(c),
{
    '0' <= c && c <= '9'
}

/// The value of the numeral `s`, or `None` when `s` is empty, holds a
/// character other than a digit, or is too large for a `usize`.
pub fn parse_number(s: &str) -> (r: Option<usize>)
    ensures
        r == numeral(s@),
{
    let len = s.unicode_len();
    if len == 0 {
        return None;
    }
    let mut acc: usize = 0;
    let mut i: usize = 0;
    while i < len
        invariant
            0 <= i <= len,
            len == s@.len(),
            all_digits(s@.subrange(0, i as int)),
            acc == digits_value(s@.subrange(0, i as int)),
        decreases len - i,
    {
        let c = s.get_char(i);
        if !is_digit_char(c) {
            proof {
                assert(!all_digits(s@));
            }
            return None;
        }
        let d = (c as u32 - '0' as u32) as usize;
        proof {
            lemma_digits_push(s@, i as int);
        }
        if acc > (usize::MAX - d) / 10 {
            proof {
                assert(acc * 10 + d > usize::MAX) by (nonlinear_arith)
                    requires
                        acc > (usize::MAX - d) / 10,
                        d <= 9,
                ;
                if all_digits(s@) {
                    lemma_digits_monotone(s@, i as int + 1, len as int);
                    assert(s@.subrange(0, len as int) =~= s@);
                }
            }
            return None;
        }
        proof {
            assert(acc * 10 + d <= usize::MAX) by (nonlinear_arith)
                requires
                    acc <= (usize::MAX - d) / 10,
                    d <= 9,
            ;
            assert forall|k: int| 0 <= k < i + 1 implies #[trigger] is_digit(
                s@.subrange(0, i + 1)[k],
            ) by {
                if k < i {
                    assert(s@.subrange(0, i as int)[k] == s@.subrange(0, i + 1)[k]);
                }
            }
        }
        acc = acc * 10 + d;
        i += 1;
    }
    proof {
        assert(s@.subrange(0, len as int) =~= s@);
    }
    Some(acc)
}

} // verus!
