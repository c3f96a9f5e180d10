//! Properties that relate several operations of the editor.
use vstd::prelude::*;

use crate::buffer::{marker_after_delete, marker_after_insert, Buffer, NUM_LC};
use crate::format::{lemma_round_trip, lines_of, no_newlines, rendered};
use crate::ops::{recorded, undo_done, EditorState};
use crate::undo::{replay, replayable};
use crate::parse::{arith_base_len, arith_value, clamp_line, delimited, field_value, terms_value};
use crate::pattern::{regex_captures, regex_split, weave, whole_matches};
use crate::subst::{expand, sub_pieces, substituted, WhichMatch};

verus! {

/// Writing the whole buffer and reading the text back gives the same lines,
/// provided no line holds a newline.
pub proof fn lemma_buffer_round_trip(b: Buffer)
    requires
        b.wf(),
        no_newlines(b.text()),
    ensures
        lines_of(rendered(b.text().subrange(0, b.len() as int))) == b.text(),
{
    assert(b.text().subrange(0, b.len() as int) =~= b.text());
    lemma_round_trip(b.text());
}

/// Inserting a line after address `a` and then deleting line `a + 1`
/// gives back the lines as they were, and so their count. `b1` is `b0`
/// after `append_line(a, t)` and `b2` is `b1` after `delete_line(a + 1)`,
/// which succeeds since `a + 1` names a line of `b1`.
pub proof fn lemma_insert_delete_inverse(b0: Buffer, b1: Buffer, b2: Buffer, a: usize, t: Seq<char>)
    requires
        b0.wf(),
        a <= b0.len(),
        b1.text() == b0.text().insert(a as int, t),
        b2.text() == b1.text().remove((a + 1) - 1),
    ensures
        1 <= a + 1 <= b1.len(),
        b2.text() == b0.text(),
        b2.len() == b0.len(),
{
    assert(b0.text().insert(a as int, t).remove(a as int) =~= b0.text());
}

/// Inserting after address `a` moves every marker below `a` down by
/// exactly one and leaves the others; `b1` is `b0` after
/// `append_line(a, t)`.
pub proof fn lemma_marker_shift_insert(b0: Buffer, b1: Buffer, a: usize)
    requires
        b0.wf(),
        forall|k: int| 0 <= k < NUM_LC ==> b1.marks()[k] == marker_after_insert(#[trigger] b0.marks()[k], a),
    ensures
        forall|k: int|
            0 <= k < NUM_LC ==> (b0.marks()[k] > a ==> b1.marks()[k] == b0.marks()[k] + 1) && (b0.marks()[k] <= a
                ==> b1.marks()[k] == b0.marks()[k]),
{
}

/// Deleting line `a` moves every marker below it up by one, unsets a
/// marker on it, and leaves the markers above it; `b1` is `b0` after a
/// successful `delete_line(a)`.
pub proof fn lemma_marker_shift_delete(b0: Buffer, b1: Buffer, a: usize)
    requires
        b0.wf(),
        forall|k: int| 0 <= k < NUM_LC ==> b1.marks()[k] == marker_after_delete(#[trigger] b0.marks()[k], a),
    ensures
        forall|k: int|
            0 <= k < NUM_LC ==> (b0.marks()[k] > a ==> b1.marks()[k] == b0.marks()[k] - 1) && (b0.marks()[k] == a
                ==> b1.marks()[k] == 0) && (b0.marks()[k] < a ==> b1.marks()[k] == b0.marks()[k]),
{
}

/// Undoing right after an operation that began an undo step restores the
/// lines, the cursor and the markers as they were before the operation.
/// `s1` is any state whose log leads back to `s0`: what every undoable
/// operation leaves when started unlocked (`undo_step`), kept by lines
/// typed in insert mode and by `finish_command`; `s2` is `s1` after a
/// successful undo.
pub proof fn lemma_undo_restores(s0: EditorState, s1: EditorState, s2: EditorState)
    requires
        s0.wf(),
        recorded(s0.buffer.text(), s0.buffer.cursor(), s0.buffer.marks(), s1),
        undo_done(s1, s2, Ok(())),
    ensures
        s2.buffer.text() == s0.buffer.text(),
        s2.buffer.cursor() == s0.buffer.cursor(),
        s2.buffer.marks() == s0.buffer.marks(),
{
    s0.buffer.lemma_wf();
    assert(s2.buffer.marks() =~= s0.buffer.marks());
}

/// Text typed in insert mode joins the undo step that the insert began:
/// what the log leads back to is unchanged by each line added.
pub proof fn lemma_insert_session_step(
    t0: Seq<Seq<char>>,
    c0: usize,
    m0: Seq<usize>,
    s1: EditorState,
    s2: EditorState,
)
    requires
        recorded(t0, c0, m0, s1),
        replay(s2.buffer.text(), s2.undo.log()) == replay(s1.buffer.text(), s1.undo.log()),
        replayable(s2.buffer.text(), s2.undo.log()) == replayable(s1.buffer.text(), s1.undo.log()),
        s2.undo.saved_cursor() == s1.undo.saved_cursor(),
        s2.undo.saved_marks() == s1.undo.saved_marks(),
    ensures
        recorded(t0, c0, m0, s2),
{
}

proof fn lemma_terms_start(s: Seq<char>)
    requires
        s.len() > 0,
        terms_value(s) is Some,
    ensures
        s[0] == '+' || s[0] == '-',
{
}

/// An arithmetic address never looks like a search, so its value, clamped
/// into `[1, last line]`, is what the field means: below 1 gives 1, past
/// the last line gives the last line.
pub proof fn lemma_address_clamping(f: Seq<char>, b: Buffer)
    requires
        b.wf(),
        arith_value(f, b.cursor() as int, b.len() as int) is Some,
    ensures
        field_value(f, b) == Some(Some(clamp_line(arith_value(f, b.cursor() as int, b.len() as int)->Some_0, b.len() as int) as usize)),
        arith_value(f, b.cursor() as int, b.len() as int)->Some_0 < 1 ==> field_value(f, b) == Some(Some(1usize)),
        arith_value(f, b.cursor() as int, b.len() as int)->Some_0 > b.len() ==> field_value(f, b) == Some(Some(b.len() as usize)),
{
    let k = arith_base_len(f);
    assert(k < f.len());
    if k == 0 {
        assert(f.subrange(0, f.len() as int) =~= f);
        lemma_terms_start(f);
    } else if !(f[0] == '.' || f[0] == '$') {
        assert(crate::text::digit_run(f) > 0);
        assert(crate::text::is_digit(f[0]));
    }
    assert(!delimited(f, '/'));
    assert(!delimited(f, '?'));
}

/// With `N` matches in a line, substituting the `k`-th (`1 <= k <= N`)
/// replaces that match alone: the text between matches and every other
/// match stay as they were. Substituting globally replaces all `N`.
pub proof fn lemma_substitution_selectivity(pattern: Seq<char>, line: Seq<char>, rep: Seq<char>, k: usize)
    requires
        1 <= k <= regex_captures(pattern, line).len(),
    ensures
        substituted(pattern, line, rep, WhichMatch::Number(k)) == weave(
            regex_split(pattern, line),
            whole_matches(regex_captures(pattern, line)).update(k - 1, expand(rep, regex_captures(pattern, line)[k - 1])),
        ),
        substituted(pattern, line, rep, WhichMatch::Global) == weave(
            regex_split(pattern, line),
            Seq::new(
                regex_captures(pattern, line).len(),
                |i: int| expand(rep, regex_captures(pattern, line)[i]),
            ),
        ),
{
    let caps = regex_captures(pattern, line);
    assert(sub_pieces(caps, rep, WhichMatch::Number(k)) =~= whole_matches(caps).update(k - 1, expand(rep, caps[k - 1])));
    assert(sub_pieces(caps, rep, WhichMatch::Global) =~= Seq::new(caps.len(), |i: int| expand(rep, caps[i])));
}

} // verus!
