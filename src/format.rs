//! The on-disk form of a buffer: every line followed by a newline.
use vstd::prelude::*;
use vstd::string::*;

use crate::pattern::strings_view;

verus! {

/// How a file is to be opened.
#[derive(Debug, Clone, Copy, Default, PartialEq, Eq, Structural)]
pub struct FileMode {
    pub f_write: bool,
    pub f_read: bool,
    pub f_append: bool,
    pub f_truncate: bool,
    pub f_create: bool,
    pub f_create_new: bool,
}

/// The text written for `lines`: each line followed by `'\n'`.
pub open spec fn rendered(lines: Seq<Seq<char>>) -> Seq<char>
    decreases lines.len(),
{
    if lines.len() == 0 {
        Seq::empty()
    } else {
        lines[0] + seq!['\n'] + rendered(lines.drop_first())
    }
}

/// The first newline of `s` at or after `from`.
pub open spec fn first_newline_from(s: Seq<char>, from: int) -> Option<int>
    decreases s.len() - from,
{
    if from < 0 || from >= s.len() {
        None
    } else if s[from] == '\n' {
        Some(from)
    } else {
        first_newline_from(s, from + 1)
    }
}

/// The lines of a text: the pieces between newlines, where a final newline
/// ends the last line rather than starting an empty one.
pub open spec fn lines_of(s: Seq<char>) -> Seq<Seq<char>>
    decreases s.len(),
{
    if s.len() == 0 {
        Seq::empty()
    } else {
        match first_newline_from(s, 0) {
            None => seq![s],
            Some(k) => if 0 <= k < s.len() {
                seq![s.subrange(0, k)] + lines_of(s.subrange(k + 1, s.len() as int))
            } else {
                Seq::empty()
            },
        }
    }
}

/// No line holds a newline.
pub open spec fn no_newlines(lines: Seq<Seq<char>>) -> bool {
    forall|i: int, j: int| 0 <= i < lines.len() && 0 <= j < lines[i].len() ==> #[trigger] lines[i][j] != '\n'
}

proof fn lemma_first_newline_at(s: Seq<char>, from: int, m: int)
    requires
        0 <= from <= m < s.len(),
        s[m] == '\n',
        forall|j: int| from <= j < m ==> s[j] != '\n',
    ensures
        first_newline_from(s, from) == Some(m),
    decreases m - from,
{
    if from < m {
        lemma_first_newline_at(s, from + 1, m);
    }
}

proof fn lemma_first_newline_none(s: Seq<char>, from: int)
    requires
        0 <= from <= s.len(),
        forall|j: int| from <= j < s.len() ==> s[j] != '\n',
    ensures
        first_newline_from(s, from) == None::<int>,
    decreases s.len() - from,
{
    if from < s.len() {
        lemma_first_newline_none(s, from + 1);
    }
}

/// Reading back what was written gives the same lines, as long as no line
/// holds a newline.
pub proof fn lemma_round_trip(lines: Seq<Seq<char>>)
    requires
        no_newlines(lines),
    ensures
        lines_of(rendered(lines)) == lines,
    decreases lines.len(),
{
    if lines.len() > 0 {
        let rest = lines.drop_first();
        assert(no_newlines(rest)) by {
            assert forall|i: int, j: int| 0 <= i < rest.len() && 0 <= j < rest[i].len() implies #[trigger] rest[i][j]
                != '\n' by {
                assert(rest[i] == lines[i + 1]);
                assert(lines[i + 1][j] != '\n');
            }
        }
        lemma_round_trip(rest);
        let s = rendered(lines);
        let a = lines[0];
        assert(s == a + seq!['\n'] + rendered(rest));
        assert forall|j: int| 0 <= j < a.len() implies s[j] != '\n' by {
            assert(s[j] == a[j]);
            assert(lines[0][j] != '\n');
        }
        assert(s[a.len() as int] == '\n');
        lemma_first_newline_at(s, 0, a.len() as int);
        assert(s.subrange(0, a.len() as int) =~= a);
        assert(s.subrange(a.len() + 1 as int, s.len() as int) =~= rendered(rest));
        assert(seq![a] + rest =~= lines);
    }
}

/// The text to write for `lines`: every line followed by a newline.
pub fn render_lines(lines: &[String]) -> (r: String)
    ensures
        r@ == rendered(strings_view(lines@)),
{
    let ghost v = strings_view(lines@);
    let n = lines.len();
    let mut k: usize = n;
    let mut tail = String::new();
    // built from the back so that each step matches the definition
    while k > 0
        invariant
            0 <= k <= n,
            n == lines@.len(),
            v == strings_view(lines@),
            tail@ == rendered(v.subrange(k as int, n as int)),
        decreases k,
    {
        let mut piece = lines[k - 1].clone();
        proof {
            reveal_strlit("\n");
            assert("\n"@ =~= seq!['\n']);
        }
        piece.append("\n");
        piece.append(tail.as_str());
        proof {
            let t = v.subrange(k - 1, n as int);
            assert(t.drop_first() =~= v.subrange(k as int, n as int));
            assert(t[0] == lines@[k - 1]@);
            assert(piece@ =~= t[0] + seq!['\n'] + rendered(t.drop_first()));
        }
        tail = piece;
        k -= 1;
    }
    proof {
        assert(v.subrange(0, n as int) =~= v);
    }
    tail
}

/// Split a text into lines at each newline; a final newline ends the last
/// line rather than starting an empty one.
pub fn split_lines(text: &str) -> (r: Vec<String>)
    ensures
        strings_view(r@) == lines_of(text@),
{
    let len = text.unicode_len();
    let mut out: Vec<String> = Vec::new();
    let mut start: usize = 0;
    let mut k: usize = 0;
    proof {
        assert(text@.subrange(0, len as int) =~= text@);
    }
    while k < len
        invariant
            0 <= start <= k <= len,
            len == text@.len(),
            strings_view(out@) + lines_of(text@.subrange(start as int, len as int)) == lines_of(text@),
            forall|j: int| start <= j < k ==> text@[j] != '\n',
        decreases len - k,
    {
        if text.get_char(k) == '\n' {
            let ghost t = text@.subrange(start as int, len as int);
            proof {
                assert forall|j: int| 0 <= j < k - start implies t[j] != '\n' by {
                    assert(t[j] == text@[start + j]);
                }
                lemma_first_newline_at(t, 0, k - start);
                assert(t.subrange(0, k - start) =~= text@.subrange(start as int, k as int));
                assert(t.subrange(k - start + 1, t.len() as int) =~= text@.subrange(k + 1, len as int));
            }
            let piece = text.substring_char(start, k).to_string();
            let ghost before = out@;
            out.push(piece);
            proof {
                assert(strings_view(out@) =~= strings_view(before).push(text@.subrange(start as int, k as int)));
                assert(strings_view(out@) + lines_of(text@.subrange(k + 1, len as int)) =~= strings_view(before)
                    + (seq![text@.subrange(start as int, k as int)] + lines_of(text@.subrange(k + 1, len as int))));
            }
            start = k + 1;
        }
        k += 1;
    }
    if start < len {
        let ghost t = text@.subrange(start as int, len as int);
        proof {
            assert forall|j: int| 0 <= j < t.len() implies t[j] != '\n' by {
                assert(t[j] == text@[start + j]);
            }
            lemma_first_newline_none(t, 0);
        }
        let piece = text.substring_char(start, len).to_string();
        let ghost before = out@;
        out.push(piece);
        proof {
            assert(strings_view(out@) =~= strings_view(before) + seq![t]);
        }
    } else {
        proof {
            assert(text@.subrange(start as int, len as int) =~= Seq::<char>::empty());
            assert(strings_view(out@) + Seq::<Seq<char>>::empty() =~= strings_view(out@));
        }
    }
    out
}

} // verus!
