//! Parsing command lines: locating the operation character and resolving
//! address expressions against a buffer.
use vstd::prelude::*;
use vstd::string::*;

use crate::quote::{is_quoted, quoted};
use crate::buffer::{backward_order, first_matching, forward_order, is_marker_label, marker_index, Buffer};
use crate::error::RedError;
use crate::pattern::regex_compiles;
use crate::text::{count_digits, digit_run, is_digit, numeral, parse_number, trim, trimmed};

verus! {

/// Which search delimiters are open after reading `k` characters of `t`,
/// and whether the last of them was an unpaired backslash. An unescaped
/// `/` or `?` outside quotes opens or closes its kind, unless the other
/// kind is open.
pub open spec fn regex_scan(t: Seq<char>, k: int) -> (bool, bool, bool)
    decreases k,
{
    if k <= 0 {
        (false, false, false)
    } else {
        let (slash, question, esc) = regex_scan(t, k - 1);
        let c = t[k - 1];
        if c == '\\' {
            (slash, question, !esc)
        } else if c == '/' && !esc && !quoted(t.subrange(0, k - 1)) && !question {
            (!slash, question, false)
        } else if c == '?' && !esc && !quoted(t.subrange(0, k - 1)) && !slash {
            (slash, !question, false)
        } else {
            (slash, question, false)
        }
    }
}

/// Whether position `k` of `t` lies inside `/.../` or `?...?`.
pub open spec fn in_regex(t: Seq<char>, k: int) -> bool {
    let (slash, question, _) = regex_scan(t, k);
    slash || question
}

/// Return true if position `indx` of `text` lies inside a search
/// expression, `/.../` or `?...?`.
pub fn is_in_regex(text: &str, indx: usize) -> (r: bool)
    requires
        indx <= text@.len(),
    ensures
        r == in_regex(text@, indx as int),
{
    let mut slash = false;
    let mut question = false;
    let mut escaped = false;
    let mut k: usize = 0;
    while k < indx
        invariant
            0 <= k <= indx <= text@.len(),
            (slash, question, escaped) == regex_scan(text@, k as int),
        decreases indx - k,
    {
        let c = text.get_char(k);
        if c == '\\' {
            escaped = !escaped;
        } else {
            if c == '/' && !escaped && !question && !is_quoted(text, k) {
                slash = !slash;
            } else if c == '?' && !escaped && !slash && !is_quoted(text, k) {
                question = !question;
            }
            escaped = false;
        }
        k += 1;
    }
    slash || question
}

pub open spec fn is_ascii_alpha(c: char) -> bool {
    ('a' <= c <= 'z') || ('A' <= c <= 'Z')
}

/// Position `k` of `t` holds an operation character: a letter outside any
/// search expression.
pub open spec fn is_op_at(t: Seq<char>, k: int) -> bool {
    0 <= k < t.len() && is_ascii_alpha(t[k]) && !in_regex(t, k)
}

/// The first operation character of `t` at or after `from`.
pub open spec fn first_op_from(t: Seq<char>, from: int) -> Option<int>
    decreases t.len() - from,
{
    if from < 0 || from >= t.len() {
        None
    } else if is_op_at(t, from) {
        Some(from)
    } else {
        first_op_from(t, from + 1)
    }
}

proof fn lemma_first_op(t: Seq<char>, from: int, k: int)
    requires
        0 <= from <= k,
        is_op_at(t, k),
        forall|j: int| from <= j < k ==> !is_op_at(t, j),
    ensures
        first_op_from(t, from) == Some(k),
    decreases k - from,
{
    if from < k {
        lemma_first_op(t, from + 1, k);
    }
}

proof fn lemma_no_op(t: Seq<char>, from: int)
    requires
        0 <= from,
        forall|j: int| from <= j < t.len() ==> !is_op_at(t, j),
    ensures
        first_op_from(t, from) == None::<int>,
    decreases t.len() - from,
{
    if from < t.len() {
        lemma_no_op(t, from + 1);
    }
}

/// Find the operation character of a command line: the first letter of the
/// trimmed line that is not inside `/.../` or `?...?`. The index counts
/// characters of the trimmed line.
pub fn get_opchar_index(cmd_input: &str) -> (r: Result<(usize, char), crate::error::RedError>)
    ensures
        match r {
            Ok((k, c)) => {
                &&& is_op_at(trimmed(cmd_input@), k as int)
                &&& c == trimmed(cmd_input@)[k as int]
                &&& forall|j: int| 0 <= j < k ==> !is_op_at(trimmed(cmd_input@), j)
            },
            Err(e) => {
                &&& e == crate::error::RedError::OpCharIndex
                &&& forall|j: int| 0 <= j < trimmed(cmd_input@).len() ==> !is_op_at(trimmed(cmd_input@), j)
            },
        },
{
    let t = trim(cmd_input);
    let len = t.unicode_len();
    let mut k: usize = 0;
    while k < len
        invariant
            0 <= k <= len,
            len == t@.len(),
            t@ == trimmed(cmd_input@),
            forall|j: int| 0 <= j < k ==> !is_op_at(t@, j),
        decreases len - k,
    {
        let c = t.get_char(k);
        if (('a' <= c && c <= 'z') || ('A' <= c && c <= 'Z')) && !is_in_regex(t, k) {
            return Ok((k, c));
        }
        k += 1;
    }
    Err(crate::error::RedError::OpCharIndex)
}

/// Test whether `ch` separates two addresses.
pub fn is_address_separator(ch: char) -> (r: bool)
    ensures
        r == (ch == ',' || ch == ';'),
{
    ch == ',' || ch == ';'
}

/// Position `k` of `t` holds a separator outside any search expression.
pub open spec fn is_sep_at(t: Seq<char>, k: int) -> bool {
    0 <= k < t.len() && (t[k] == ',' || t[k] == ';') && !in_regex(t, k)
}

/// The first separator of `s` outside a search expression, at or after
/// `from`.
pub open spec fn first_sep_from(s: Seq<char>, from: int) -> Option<int>
    decreases s.len() - from,
{
    if from < 0 || from >= s.len() {
        None
    } else if is_sep_at(s, from) {
        Some(from)
    } else {
        first_sep_from(s, from + 1)
    }
}

/// The two fields of an address list: split at the first separator outside
/// a search expression, each side trimmed; with no separator the left field
/// is empty.
pub open spec fn address_list_spec(s: Seq<char>) -> (Seq<char>, Seq<char>) {
    match first_sep_from(s, 0) {
        Some(k) => (trimmed(s.subrange(0, k)), trimmed(s.subrange(k + 1, s.len() as int))),
        None => (Seq::empty(), trimmed(s)),
    }
}

/// Turn an address list into its two address fields.
pub fn parse_address_list(s: &str) -> (r: (&str, &str))
    ensures
        r.0@ == address_list_spec(s@).0,
        r.1@ == address_list_spec(s@).1,
{
    let len = s.unicode_len();
    let mut k: usize = 0;
    while k < len
        invariant
            0 <= k <= len,
            len == s@.len(),
            first_sep_from(s@, 0) == first_sep_from(s@, k as int),
        decreases len - k,
    {
        let c = s.get_char(k);
        if is_address_separator(c) && !is_in_regex(s, k) {
            proof {
                assert(is_sep_at(s@, k as int));
                assert(first_sep_from(s@, k as int) == Some(k as int));
            }
            let left = trim(s.substring_char(0, k));
            let right = trim(s.substring_char(k + 1, len));
            return (left, right);
        }
        k += 1;
    }
    proof {
        reveal_strlit("");
    }
    ("", trim(s))
}


/// Signed total of a chain of terms `+N`, `-N`, `+` or `-` (a bare sign
/// counts 1); the empty chain totals 0. `None` when `s` is not such a
/// chain or a numeral does not fit in a `usize`.
pub open spec fn terms_value(s: Seq<char>) -> Option<int>
    decreases s.len(),
{
    if s.len() == 0 {
        Some(0)
    } else if s[0] == '+' || s[0] == '-' {
        let k = digit_run(s.drop_first()) as int;
        if 1 + k <= s.len() {
            let num = if k == 0 { Some(1usize) } else { numeral(s.subrange(1, 1 + k)) };
            match (num, terms_value(s.subrange(1 + k, s.len() as int))) {
                (Some(n), Some(r)) => Some(if s[0] == '+' { n + r } else { r - n }),
                _ => None,
            }
        } else {
            None
        }
    } else {
        None
    }
}

/// Length of the base of an arithmetic address: `.` or `$`, or a run of
/// digits (possibly empty).
pub open spec fn arith_base_len(f: Seq<char>) -> nat {
    if f.len() > 0 && (f[0] == '.' || f[0] == '$') { 1 } else { digit_run(f) }
}

/// Value of an arithmetic address, before clamping: a base (`.` or empty
/// for the current line, `$` for the last, or a number) followed by at
/// least one term.
pub open spec fn arith_value(f: Seq<char>, cur: int, total: int) -> Option<int> {
    let k = arith_base_len(f);
    let base: Option<int> = if k == 0 || f[0] == '.' {
        Some(cur)
    } else if f[0] == '$' {
        Some(total)
    } else {
        match numeral(f.subrange(0, k as int)) {
            Some(n) => Some(n as int),
            None => None,
        }
    };
    if k <= f.len() && k < f.len() {
        match (base, terms_value(f.subrange(k as int, f.len() as int))) {
            (Some(b), Some(t)) => Some(b + t),
            _ => None,
        }
    } else {
        None
    }
}

/// A line number pulled into `[1, total]`: below 1 gives 1, above the last
/// line gives the last line.
pub open spec fn clamp_line(v: int, total: int) -> int {
    if v < 1 { 1 } else if v > total { total } else { v }
}

/// `f` is `c`, text without `c`, then `c` again.
pub open spec fn delimited(f: Seq<char>, c: char) -> bool {
    f.len() >= 2 && f[0] == c && f[f.len() - 1] == c && forall|j: int| 1 <= j < f.len() - 1 ==> #[trigger] f[j] != c
}

pub open spec fn search_result(found: Option<int>) -> Option<usize> {
    match found {
        Some(a) => Some(a as usize),
        None => None,
    }
}

/// The meaning of an address field in buffer `b`: `Some(r)` for the
/// result `r`, `None` for a syntax error.
pub open spec fn field_value(f: Seq<char>, b: Buffer) -> Option<Option<usize>> {
    let cur = b.cursor() as int;
    let total = b.len() as int;
    if f.len() == 0 {
        Some(Some(cur as usize))
    } else if delimited(f, '/') {
        let re = f.subrange(1, f.len() - 1);
        if regex_compiles(re) {
            Some(search_result(first_matching(re, b.text(), forward_order(cur, total))))
        } else {
            None
        }
    } else if delimited(f, '?') {
        let re = f.subrange(1, f.len() - 1);
        if regex_compiles(re) {
            Some(search_result(first_matching(re, b.text(), backward_order(cur, total))))
        } else {
            None
        }
    } else if arith_value(f, cur, total) is Some {
        Some(Some(clamp_line(arith_value(f, cur, total)->Some_0, total) as usize))
    } else if f == seq!['.'] {
        Some(Some(cur as usize))
    } else if f == seq!['$'] {
        Some(Some(total as usize))
    } else if f.len() == 2 && f[0] == '\'' {
        Some(Some(if is_marker_label(f[1]) { b.marks()[marker_index(f[1])] } else { 0 }))
    } else if numeral(f) is Some {
        Some(Some(clamp_line(numeral(f)->Some_0 as int, total) as usize))
    } else {
        None
    }
}

/// Ensure a line number is in the buffer's range.
pub fn normalize_line_num(buffer: &Buffer, line_num: usize) -> (r: usize)
    requires
        buffer.wf(),
    ensures
        r == clamp_line(line_num as int, buffer.len() as int),
{
    let total = buffer.num_lines();
    if line_num > total {
        total
    } else if line_num < 1 {
        1
    } else {
        line_num
    }
}

/// Whether `f` is `c`, text without `c`, then `c` again.
fn is_delimited(f: &str, c: char) -> (r: bool)
    ensures
        r == delimited(f@, c),
{
    let len = f.unicode_len();
    if len < 2 || f.get_char(0) != c || f.get_char(len - 1) != c {
        return false;
    }
    let mut j: usize = 1;
    while j < len - 1
        invariant
            1 <= j <= len - 1,
            len == f@.len(),
            len >= 2,
            forall|k: int| 1 <= k < j ==> #[trigger] f@[k] != c,
        decreases len - 1 - j,
    {
        if f.get_char(j) == c {
            return false;
        }
        j += 1;
    }
    true
}

proof fn lemma_terms_step(s: Seq<char>, i: int, k: int)
    requires
        0 <= i < s.len(),
        s[i] == '+' || s[i] == '-',
        k == digit_run(s.subrange(i + 1, s.len() as int)),
        i + 1 + k <= s.len(),
    ensures
        terms_value(s.subrange(i, s.len() as int)) == match (
            if k == 0 { Some(1usize) } else { numeral(s.subrange(i + 1, i + 1 + k)) },
            terms_value(s.subrange(i + 1 + k, s.len() as int)),
        ) {
            (Some(n), Some(r)) => Some(if s[i] == '+' { n + r } else { r - n }),
            _ => None,
        },
{
    let t = s.subrange(i, s.len() as int);
    assert(t.drop_first() =~= s.subrange(i + 1, s.len() as int));
    assert(t.subrange(1, 1 + k) =~= s.subrange(i + 1, i + 1 + k));
    assert(t.subrange(1 + k, t.len() as int) =~= s.subrange(i + 1 + k, s.len() as int));
}

proof fn lemma_terms_bad(s: Seq<char>, i: int)
    requires
        0 <= i < s.len(),
        !(s[i] == '+' || s[i] == '-'),
    ensures
        terms_value(s.subrange(i, s.len() as int)) == None::<int>,
{
    assert(s.subrange(i, s.len() as int)[0] == s[i]);
}

/// The total of the chain of terms `f@[from..]`, when it is one.
fn sum_terms(f: &str, from: usize) -> (r: Option<(u128, u128)>)
    requires
        from <= f@.len(),
    ensures
        match r {
            Some((adds, subs)) => terms_value(f@.subrange(from as int, f@.len() as int)) == Some(adds - subs)
                && adds <= f@.len() * (usize::MAX as int) && f@.len() <= usize::MAX,
            None => terms_value(f@.subrange(from as int, f@.len() as int)) is None,
        },
{
    let len = f.unicode_len();
    let mut adds: u128 = 0;
    let mut subs: u128 = 0;
    let mut i: usize = from;
    while i < len
        invariant
            from <= i <= len,
            len == f@.len(),
            len <= usize::MAX,
            adds <= i as int * (usize::MAX as int),
            subs <= i as int * (usize::MAX as int),
            terms_value(f@.subrange(from as int, len as int)) == match terms_value(f@.subrange(i as int, len as int)) {
                Some(r) => Some(adds - subs + r),
                None => None,
            },
        decreases len - i,
    {
        let c = f.get_char(i);
        if c != '+' && c != '-' {
            proof {
                lemma_terms_bad(f@, i as int);
            }
            return None;
        }
        let k = count_digits(f, i + 1);
        let n: usize = if k == 0 {
            1
        } else {
            match parse_number(f.substring_char(i + 1, i + 1 + k)) {
                Some(n) => n,
                None => {
                    proof {
                        lemma_terms_step(f@, i as int, k as int);
                    }
                    return None;
                },
            }
        };
        proof {
            lemma_terms_step(f@, i as int, k as int);
            assert((i + 1 + k) as int * (usize::MAX as int) >= i as int * (usize::MAX as int) + usize::MAX as int)
                by (nonlinear_arith)
                requires
                    k >= 0,
            ;
            assert((i + 1 + k) as int * (usize::MAX as int) <= (usize::MAX as int) * (usize::MAX as int))
                by (nonlinear_arith)
                requires
                    i + 1 + k <= usize::MAX,
            ;
        }
        if c == '+' {
            adds = adds + n as u128;
        } else {
            subs = subs + n as u128;
        }
        i = i + 1 + k;
    }
    proof {
        assert(f@.subrange(len as int, len as int) =~= Seq::<char>::empty());
    }
    Some((adds, subs))
}

/// Calculate the line named by an arithmetic address, clamped into the
/// buffer; `None` when `address` is not one.
pub fn calc_address_field(address: &str, buffer: &Buffer) -> (r: Option<usize>)
    requires
        buffer.wf(),
    ensures
        match r {
            Some(v) => (arith_value(address@, buffer.cursor() as int, buffer.len() as int) matches Some(x)
                && v == clamp_line(x, buffer.len() as int)),
            None => arith_value(address@, buffer.cursor() as int, buffer.len() as int) is None,
        },
{
    let len = address.unicode_len();
    let k: usize = if len > 0 && (address.get_char(0) == '.' || address.get_char(0) == '$') {
        1
    } else {
        count_digits(address, 0)
    };
    proof {
        assert(address@.subrange(0, len as int) =~= address@);
    }
    if k >= len {
        return None;
    }
    let base: usize = if k == 0 || address.get_char(0) == '.' {
        buffer.get_current_address()
    } else if address.get_char(0) == '$' {
        buffer.num_lines()
    } else {
        match parse_number(address.substring_char(0, k)) {
            Some(n) => n,
            None => {
                return None;
            },
        }
    };
    let (adds, subs) = match sum_terms(address, k) {
        Some(t) => t,
        None => {
            return None;
        },
    };
    let total = buffer.num_lines();
    proof {
        assert(adds <= (usize::MAX as int) * (usize::MAX as int)) by (nonlinear_arith)
            requires
                adds <= address@.len() * (usize::MAX as int),
                address@.len() <= usize::MAX,
        ;
        assert((usize::MAX as int) * (usize::MAX as int) + usize::MAX as int <= u128::MAX) by (nonlinear_arith);
    }
    let up: u128 = base as u128 + adds;
    if subs >= up {
        Some(1)
    } else {
        let v = up - subs;
        if v > total as u128 {
            Some(total)
        } else {
            Some(v as usize)
        }
    }
}

/// Convert one address field into a line number: empty or `.` for the
/// current line, `$` for the last, `'x` for the line marked `x`, `/re/` and
/// `?re?` for the next or previous line matching `re` (`None` when no line
/// matches), an arithmetic chain or a bare number clamped into
/// `[1, last line]`. Anything else is a syntax error naming the field.
pub fn parse_address_field(address: &str, buffer: &Buffer) -> (r: Result<Option<usize>, RedError>)
    requires
        buffer.wf(),
    ensures
        match r {
            Ok(x) => field_value(address@, *buffer) == Some(x),
            Err(e) => field_value(address@, *buffer) is None && (e matches RedError::AddressSyntax { address: a } && a@ == address@),
        },
{
    let len = address.unicode_len();
    if len == 0 {
        return Ok(Some(buffer.get_current_address()));
    }
    if is_delimited(address, '/') {
        let re = address.substring_char(1, len - 1);
        return match buffer.find_match(re) {
            Ok(found) => Ok(found),
            Err(_) => Err(RedError::AddressSyntax { address: address.to_string() }),
        };
    }
    if is_delimited(address, '?') {
        let re = address.substring_char(1, len - 1);
        return match buffer.find_match_reverse(re) {
            Ok(found) => Ok(found),
            Err(_) => Err(RedError::AddressSyntax { address: address.to_string() }),
        };
    }
    match calc_address_field(address, buffer) {
        Some(v) => {
            return Ok(Some(v));
        },
        None => {},
    }
    let c0 = address.get_char(0);
    if len == 1 && c0 == '.' {
        proof {
            assert(address@ =~= seq!['.']);
        }
        return Ok(Some(buffer.get_current_address()));
    }
    if len == 1 && c0 == '$' {
        proof {
            assert(address@ =~= seq!['$']);
        }
        return Ok(Some(buffer.num_lines()));
    }
    proof {
        if len == 1 {
            assert(address@ != seq!['.'] && address@ != seq!['$']) by {
                assert(address@[0] == c0);
            }
        } else {
            assert(address@.len() != seq!['.'].len());
        }
    }
    if len == 2 && c0 == '\'' {
        return Ok(Some(buffer.get_marked_line(address.get_char(1))));
    }
    match parse_number(address) {
        Some(n) => Ok(Some(normalize_line_num(buffer, n))),
        None => Err(RedError::AddressSyntax { address: address.to_string() }),
    }
}


/// The range an address list names in buffer `b`, `None` when a field is
/// malformed or a search finds nothing. `%` and a bare `,` name the whole
/// buffer, a bare `;` the current line to the last. Otherwise the right
/// field is resolved, and the left one defaults to it when empty.
pub open spec fn range_value(s: Seq<char>, b: Buffer) -> Option<(usize, usize)> {
    let t = trimmed(s);
    if t == seq!['%'] || t == seq![','] {
        Some((1, b.len() as usize))
    } else if t == seq![';'] {
        Some((b.cursor(), b.len() as usize))
    } else {
        let (l, r) = address_list_spec(t);
        match field_value(r, b) {
            Some(Some(rv)) => if l.len() == 0 {
                Some((rv, rv))
            } else {
                match field_value(l, b) {
                    Some(Some(lv)) => Some((lv, rv)),
                    _ => None,
                }
            },
            _ => None,
        }
    }
}

fn is_single(s: &str, c: char) -> (r: bool)
    ensures
        r == (s@ == seq![c]),
{
    let r = s.unicode_len() == 1 && s.get_char(0) == c;
    proof {
        if s@.len() == 1 {
            assert(r ==> s@ =~= seq![c]);
        }
        if s@ == seq![c] {
            assert(s@.len() == 1);
        }
    }
    r
}

fn resolve_field(field: &str, buffer: &Buffer) -> (r: Result<usize, RedError>)
    requires
        buffer.wf(),
    ensures
        match r {
            Ok(v) => field_value(field@, *buffer) == Some(Some(v)),
            Err(e) => !(field_value(field@, *buffer) matches Some(Some(_))) && (e matches RedError::AddressSyntax { .. }),
        },
{
    match parse_address_field(field, buffer) {
        Ok(Some(v)) => Ok(v),
        Ok(None) => Err(RedError::AddressSyntax { address: field.to_string() }),
        Err(e) => Err(e),
    }
}

/// Resolve an address list into the first and last line of a range.
pub fn get_address_range(address_string: &str, buffer: &Buffer) -> (r: Result<(usize, usize), RedError>)
    requires
        buffer.wf(),
    ensures
        match r {
            Ok(range) => range_value(address_string@, *buffer) == Some(range),
            Err(e) => range_value(address_string@, *buffer) is None && (e matches RedError::AddressSyntax { .. }),
        },
{
    let t = trim(address_string);
    if is_single(t, '%') || is_single(t, ',') {
        return Ok((1, buffer.num_lines()));
    }
    if is_single(t, ';') {
        return Ok((buffer.get_current_address(), buffer.num_lines()));
    }
    let (left, right) = parse_address_list(t);
    let result_right = resolve_field(right, buffer)?;
    if left.unicode_len() == 0 {
        return Ok((result_right, result_right));
    }
    let result_left = resolve_field(left, buffer)?;
    Ok((result_left, result_right))
}

/// One parsed command line: the addressed range, the operation character
/// and the text after it. Addresses `(0, 0)` mean no address was given.
#[derive(Debug, Clone, PartialEq, Eq)]
pub struct Command {
    pub address_initial: usize,
    pub address_final: usize,
    pub operation: char,
    pub parameters: String,
}

/// What `parse_command` makes of command line `line`, with the operation
/// character at position `k` of the trimmed line.
pub open spec fn command_at(line: Seq<char>, k: int, b: Buffer, c: Command) -> bool {
    let t = trimmed(line);
    let addrs = t.subrange(0, k);
    &&& c.operation == t[k]
    &&& c.parameters@ == trimmed(t.subrange(k + 1, t.len() as int))
    &&& if trimmed(addrs).len() == 0 {
        c.address_initial == 0 && c.address_final == 0
    } else {
        range_value(addrs, b) == Some((c.address_initial, c.address_final))
    }
}

/// Parse a command line against `buffer`: locate the operation character,
/// resolve the address list before it, and keep the trimmed text after it
/// as parameters.
pub fn parse_command(cmd_input: &str, buffer: &Buffer) -> (r: Result<Command, RedError>)
    requires
        buffer.wf(),
    ensures
        match first_op_from(trimmed(cmd_input@), 0) {
            None => r == Err::<Command, RedError>(RedError::OpCharIndex),
            Some(k) => match r {
                Ok(c) => command_at(cmd_input@, k, *buffer, c),
                Err(e) => (e matches RedError::AddressSyntax { .. }) && trimmed(trimmed(cmd_input@).subrange(0, k)).len() > 0
                    && range_value(trimmed(cmd_input@).subrange(0, k), *buffer) is None,
            },
        },
{
    let found = get_opchar_index(cmd_input);
    let (op_indx, operation) = match found {
        Ok(x) => x,
        Err(e) => {
            proof {
                lemma_no_op(trimmed(cmd_input@), 0);
            }
            return Err(e);
        },
    };
    proof {
        lemma_first_op(trimmed(cmd_input@), 0, op_indx as int);
    }
    let t = trim(cmd_input);
    let tl = t.unicode_len();
    let addrs = t.substring_char(0, op_indx);
    let parameters = trim(t.substring_char(op_indx + 1, tl)).to_string();
    if trim(addrs).unicode_len() == 0 {
        return Ok(Command { address_initial: 0, address_final: 0, operation, parameters });
    }
    match get_address_range(addrs, buffer) {
        Ok((address_initial, address_final)) => Ok(Command { address_initial, address_final, operation, parameters }),
        Err(e) => Err(e),
    }
}

} // verus!
