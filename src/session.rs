//! Decisions of the session loop that waits on the outside world: how
//! often to retry storing a new buffer's mirror, and which line the
//! interactive global command visits next with which commands.
use vstd::prelude::*;
use vstd::string::*;

use crate::buffer::Buffer;
use crate::error::RedError;
use crate::ops::line_at;
use crate::pattern::{compile, regex_compiles, regex_is_match};
use crate::text::{trim, trimmed};

verus! {

/// How many times storing a new buffer's mirror is attempted.
pub const SAVE_RETRIES: usize = 3;

/// What to do after an attempt to store a new buffer's mirror.
#[derive(Debug, Clone, Copy, PartialEq, Eq, Structural)]
pub enum StoreAction {
    /// The mirror is stored; the buffer is ready.
    Done,
    /// Wait a little and try again.
    Retry,
    /// Give up and report the failure.
    GiveUp,
}

/// The next step after attempt number `attempt` (counting from 1) to store
/// a new buffer's mirror: done once it is stored, otherwise retry until
/// `SAVE_RETRIES` attempts have failed.
pub fn store_step(attempt: usize, stored: bool) -> (a: StoreAction)
    ensures
        a == if stored {
            StoreAction::Done
        } else if attempt < SAVE_RETRIES {
            StoreAction::Retry
        } else {
            StoreAction::GiveUp
        },
{
    if stored {
        StoreAction::Done
    } else if attempt < SAVE_RETRIES {
        StoreAction::Retry
    } else {
        StoreAction::GiveUp
    }
}

/// Whether the interactive global command on `pat` visits line `a`.
pub open spec fn visits(pat: Seq<char>, b: Buffer, a: int, inverse: bool) -> bool {
    regex_is_match(pat, line_at(b, a)) != inverse
}

/// The next line the interactive global command visits: the first line
/// of `[from, last]` that lies in the buffer and that `pattern` matches
/// (or, when `inverse`, does not match). Fails when `pattern` is not a
/// valid expression.
pub fn next_selected(buffer: &Buffer, pattern: &str, inverse: bool, from: usize, last: usize) -> (r: Result<Option<usize>, RedError>)
    requires
        buffer.wf(),
    ensures
        r is Ok == regex_compiles(pattern@),
        r matches Ok(Some(a)) ==> from <= a <= last && a <= buffer.len() && visits(pattern@, *buffer, a as int, inverse)
            && forall|b: int| from <= b < a ==> !visits(pattern@, *buffer, b, inverse),
        r matches Ok(None) ==> forall|b: int|
            from <= b <= last && b <= buffer.len() ==> !visits(pattern@, *buffer, b, inverse),
{
    let p = match compile(pattern) {
        Some(p) => p,
        None => {
            return Err(RedError::ParameterSyntax { parameter: pattern.to_string() });
        },
    };
    let total = buffer.num_lines();
    let stop = if last < total { last } else { total };
    let mut a = from;
    while a <= stop
        invariant
            buffer.wf(),
            p.source() == pattern@,
            regex_compiles(pattern@),
            total == buffer.len(),
            stop == if last < total { last } else { total },
            from <= a,
            forall|b: int| from <= b < a ==> !visits(pattern@, *buffer, b, inverse),
        decreases stop + 1 - a,
    {
        if buffer.matches_line(&p, a) != inverse {
            return Ok(Some(a));
        }
        assert(!visits(pattern@, *buffer, a as int, inverse));
        if a == stop {
            assert forall|b: int| from <= b <= last && b <= buffer.len() implies !visits(pattern@, *buffer, b, inverse) by {
                if b < a {
                }
            }
            return Ok(None);
        }
        a += 1;
    }
    assert forall|b: int| from <= b <= last && b <= buffer.len() implies !visits(pattern@, *buffer, b, inverse) by {
        if b < a {
        }
    }
    Ok(None)
}

/// The commands to run on a visited line: the text typed, or the previous
/// commands again when it is a lone `&`.
pub fn commands_for(input: &str, last_input: &str) -> (r: String)
    ensures
        r@ == if trimmed(input@) == seq!['&'] { last_input@ } else { input@ },
{
    let t = trim(input);
    if t.unicode_len() == 1 && t.get_char(0) == '&' {
        proof {
            assert(t@ =~= seq!['&']);
        }
        last_input.to_string()
    } else {
        proof {
            if t@ == seq!['&'] {
                assert(t@.len() == 1 && t@[0] == '&');
            }
        }
        input.to_string()
    }
}

} // verus!
