//! Regular expressions, through the `regex` crate.
//!
//! A [`Pattern`] pairs a compiled expression with the text it was compiled
//! from; every contract here speaks of that text.
use vstd::prelude::*;

verus! {

#[verifier::external_type_specification]
#[verifier::external_body]
pub struct ExRegex(regex::Regex);

/// Whether `pattern` is a valid expression in the regex syntax.
pub uninterp spec fn regex_compiles(pattern: Seq<char>) -> bool;

/// Whether `pattern` matches somewhere in `text`.
pub uninterp spec fn regex_is_match(pattern: Seq<char>, text: Seq<char>) -> bool;

/// The parts of `text` that lie between successive non-overlapping matches
/// of `pattern`, first to last.
pub uninterp spec fn regex_split(pattern: Seq<char>, text: Seq<char>) -> Seq<Seq<char>>;

/// For each successive non-overlapping match of `pattern` in `text`, the
/// text of each capture group; group 0 is the whole match and a group that
/// took no part in the match is empty.
pub uninterp spec fn regex_captures(pattern: Seq<char>, text: Seq<char>) -> Seq<Seq<Seq<char>>>;

/// The whole matched text of each match.
pub open spec fn whole_matches(caps: Seq<Seq<Seq<char>>>) -> Seq<Seq<char>> {
    Seq::new(caps.len(), |i: int| if caps[i].len() > 0 { caps[i][0] } else { Seq::empty() })
}

/// `gaps[0] + pieces[0] + gaps[1] + ... + pieces[n-1] + gaps[n]`.
pub open spec fn weave(gaps: Seq<Seq<char>>, pieces: Seq<Seq<char>>) -> Seq<char>
    decreases pieces.len(),
{
    if pieces.len() == 0 {
        if gaps.len() > 0 { gaps[0] } else { Seq::empty() }
    } else {
        weave(gaps.drop_last(), pieces.drop_last()) + pieces.last() + if gaps.len() > pieces.len() {
            gaps[pieces.len() as int]
        } else {
            Seq::empty()
        }
    }
}

/// The view of a vector of strings.
pub open spec fn strings_view(v: Seq<String>) -> Seq<Seq<char>> {
    v.map_values(|s: String| s@)
}

/// A compiled regular expression together with its source text.
pub struct Pattern {
    source: String,
    re: regex::Regex,
}

impl Pattern {
    /// The text the expression was compiled from.
    pub closed spec fn source(&self) -> Seq<char> {
        self.source@
    }
}

/// Relies on regex::Regex::new: it succeeds exactly on valid expressions.
#[verifier::external_body]
pub(crate) fn compile(pattern: &str) -> (r: Option<Pattern>)
    ensures
        r.is_some() == regex_compiles(pattern@),
        r matches Some(p) ==> p.source() == pattern@,
{
    match regex::Regex::new(pattern) {
        Ok(re) => Some(Pattern { source: pattern.to_string(), re }),
        Err(_) => None,
    }
}

/// Relies on regex::Regex::is_match: whether the expression matches anywhere
/// in `text`.
#[verifier::external_body]
pub(crate) fn is_match(p: &Pattern, text: &str) -> (r: bool)
    ensures
        r == regex_is_match(p.source(), text@),
{
    p.re.is_match(text)
}

/// Relies on regex::Regex::split: the parts of `text` between successive
/// matches, one more than there are matches, which together with the
/// matches make up `text`.
#[verifier::external_body]
pub(crate) fn split(p: &Pattern, text: &str) -> (r: Vec<String>)
    ensures
        strings_view(r@) == regex_split(p.source(), text@),
        r@.len() == regex_captures(p.source(), text@).len() + 1,
        text@ == weave(strings_view(r@), whole_matches(regex_captures(p.source(), text@))),
{
    p.re.split(text).map(|s| s.to_string()).collect()
}

/// Relies on regex::Regex::captures_iter: the capture groups of each
/// successive match; group 0, the whole match, is always present.
#[verifier::external_body]
pub(crate) fn captures(p: &Pattern, text: &str) -> (r: Vec<Vec<String>>)
    ensures
        r@.len() == regex_captures(p.source(), text@).len(),
        forall|i: int|
            0 <= i < r@.len() ==> #[trigger] strings_view(r@[i]@) == regex_captures(p.source(), text@)[i]
                && r@[i]@.len() > 0,
{
    p.re.captures_iter(text).map(|c| {
        c.iter().map(|g| g.map_or(String::new(), |m| m.as_str().to_string())).collect()
    }).collect()
}

} // verus!
