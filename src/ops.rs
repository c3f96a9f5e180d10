//! Operations callable by the user: the table from operation characters to
//! operations with their default addresses, the editor state, and the
//! operations themselves. Work that needs the terminal or the disk is
//! handed back to the caller as an [`Effect`].
use vstd::prelude::*;
use vstd::string::*;

use crate::buffer::{marker_after_insert, moved, Buffer, NUM_LC};
use crate::error::{addresses_ok, RedError};
use crate::parse::{field_value, parse_address_field, parse_command, Command};
use crate::pattern::regex_compiles;
use crate::replay::{lemma_replay_addition, lemma_replay_append, lemma_replay_removal};
use crate::subst::WhichMatch;
use crate::text::{numeral, parse_number};
use crate::undo::{addition_log, char_of, removal_log, replay, replayable, Undo, ChangeView};

verus! {

/// Where an operation's address defaults to when none is given.
#[derive(Debug, Clone, Copy, PartialEq, Eq, Structural)]
pub enum NotableLine {
    FirstLine,
    LastLine,
    CurrentLine,
    CurrentPlusOneLine,
    LineNotApplicable,
}

/// Whether input lines are commands or text to insert.
#[derive(Debug, Clone, Copy, PartialEq, Eq, Structural)]
pub enum EditorMode {
    Command,
    Insert,
}

/// The operations of the editor.
#[derive(Debug, Clone, Copy, PartialEq, Eq, Structural)]
pub enum Operation {
    Append,
    Change,
    Delete,
    Edit,
    EditUnsafe,
    Filename,
    Global,
    GlobalInteractive,
    HelpRecall,
    HelpToggle,
    Insert,
    Join,
    Mark,
    List,
    Move,
    PrintNumbered,
    Print,
    Prompt,
    Quit,
    Read,
    Substitute,
    Transfer,
    Undo,
    GlobalInverse,
    GlobalInverseInteractive,
    WriteToDisk,
    AppendToDisk,
}

/// One entry of the operation table.
#[derive(Debug, Clone, Copy, PartialEq, Eq, Structural)]
pub struct OpData {
    pub key: char,
    pub operation: Operation,
    pub default_initial_address: NotableLine,
    pub default_final_address: NotableLine,
}

/// Work left to the caller: output, files, and the interactive loop.
#[derive(Debug, Clone, PartialEq, Eq)]
pub enum Effect {
    /// A line of output.
    Print(String),
    /// A line of output preceded by its number, right-aligned in `width`
    /// columns, and `|`.
    Numbered { number: usize, width: usize, line: String },
    /// Show lines `[first, last]` unambiguously, fitted to the terminal.
    List { first: usize, last: usize },
    /// Write lines `[first, last]` to `file_name` (the buffer's own file
    /// when empty), appending or replacing.
    Write { file_name: String, append: bool, first: usize, last: usize },
    /// Replace the buffer by one read from `source`; when `checked`, only if
    /// the current one can be closed.
    Edit { source: String, checked: bool },
    /// Associate the buffer with file `name`.
    SetFilename(String),
    /// Show the associated file name.
    ShowFilename,
    /// Close the buffer and leave.
    Quit,
    /// For each line of `[first, last]` that matches `pattern` (or, when
    /// `inverse`, does not), show it and run commands read for it.
    Interactive { pattern: String, inverse: bool, first: usize, last: usize },
}

/// The parts of a substitution parameter.
#[derive(Debug, Clone, PartialEq, Eq)]
pub struct Substitution {
    pub to_match: String,
    pub to_sub: String,
    pub which: WhichMatch,
}

/// The operation table: each operation character with its operation and
/// its default addresses.
pub open spec fn op_table() -> Seq<OpData> {
    seq![
        op('a', Operation::Append, NotableLine::CurrentLine, NotableLine::CurrentLine),
        op('c', Operation::Change, NotableLine::CurrentLine, NotableLine::CurrentLine),
        op('d', Operation::Delete, NotableLine::CurrentLine, NotableLine::CurrentLine),
        op('e', Operation::Edit, NotableLine::LineNotApplicable, NotableLine::LineNotApplicable),
        op('E', Operation::EditUnsafe, NotableLine::LineNotApplicable, NotableLine::LineNotApplicable),
        op('f', Operation::Filename, NotableLine::LineNotApplicable, NotableLine::LineNotApplicable),
        op('g', Operation::Global, NotableLine::FirstLine, NotableLine::LastLine),
        op('G', Operation::GlobalInteractive, NotableLine::FirstLine, NotableLine::LastLine),
        op('h', Operation::HelpRecall, NotableLine::LineNotApplicable, NotableLine::LineNotApplicable),
        op('H', Operation::HelpToggle, NotableLine::LineNotApplicable, NotableLine::LineNotApplicable),
        op('i', Operation::Insert, NotableLine::CurrentLine, NotableLine::CurrentLine),
        op('j', Operation::Join, NotableLine::CurrentLine, NotableLine::CurrentPlusOneLine),
        op('k', Operation::Mark, NotableLine::CurrentLine, NotableLine::CurrentLine),
        op('l', Operation::List, NotableLine::CurrentLine, NotableLine::CurrentLine),
        op('m', Operation::Move, NotableLine::CurrentLine, NotableLine::CurrentLine),
        op('n', Operation::PrintNumbered, NotableLine::CurrentLine, NotableLine::CurrentLine),
        op('p', Operation::Print, NotableLine::CurrentLine, NotableLine::CurrentLine),
        op('P', Operation::Prompt, NotableLine::LineNotApplicable, NotableLine::LineNotApplicable),
        op('q', Operation::Quit, NotableLine::LineNotApplicable, NotableLine::LineNotApplicable),
        op('r', Operation::Read, NotableLine::LastLine, NotableLine::LastLine),
        op('s', Operation::Substitute, NotableLine::CurrentLine, NotableLine::CurrentLine),
        op('t', Operation::Transfer, NotableLine::CurrentLine, NotableLine::CurrentLine),
        op('u', Operation::Undo, NotableLine::LineNotApplicable, NotableLine::LineNotApplicable),
        op('v', Operation::GlobalInverse, NotableLine::FirstLine, NotableLine::LastLine),
        op('V', Operation::GlobalInverseInteractive, NotableLine::FirstLine, NotableLine::LastLine),
        op('w', Operation::WriteToDisk, NotableLine::FirstLine, NotableLine::LastLine),
        op('W', Operation::AppendToDisk, NotableLine::FirstLine, NotableLine::LastLine),
    ]
}

pub open spec fn op(key: char, operation: Operation, i: NotableLine, f: NotableLine) -> OpData {
    OpData { key, operation, default_initial_address: i, default_final_address: f }
}

/// The first table entry for `c`, if any.
pub open spec fn lookup_from(t: Seq<OpData>, c: char, from: int) -> Option<OpData>
    decreases t.len() - from,
{
    if from < 0 || from >= t.len() {
        None
    } else if t[from].key == c {
        Some(t[from])
    } else {
        lookup_from(t, c, from + 1)
    }
}

/// The line an address policy names, in a buffer with `total` lines and
/// the cursor at `cur`.
pub open spec fn notable(n: NotableLine, cur: usize, total: usize) -> usize {
    match n {
        NotableLine::FirstLine => 1,
        NotableLine::LastLine => total,
        NotableLine::CurrentLine => cur,
        NotableLine::CurrentPlusOneLine => if cur < usize::MAX { (cur + 1) as usize } else { cur },
        NotableLine::LineNotApplicable => 1,
    }
}

/// The addresses an operation receives: the given ones; the operation's
/// defaults when none was given; from line 1 when only the last was.
pub open spec fn defaulted(c: Command, d: OpData, cur: usize, total: usize) -> (usize, usize) {
    if c.address_initial == 0 {
        if c.address_final == 0 {
            (notable(d.default_initial_address, cur, total), notable(d.default_final_address, cur, total))
        } else {
            (1, c.address_final)
        }
    } else {
        (c.address_initial, c.address_final)
    }
}

/// The operation table.
pub struct Operations {
    operation_map: Vec<OpData>,
}

impl Operations {
    pub closed spec fn table(&self) -> Seq<OpData> {
        self.operation_map@
    }

    /// Build the operation table.
    pub fn new() -> (ops: Operations)
        ensures
            ops.table() == op_table(),
    {
        let operation_map = vec![
            OpData { key: 'a', operation: Operation::Append, default_initial_address: NotableLine::CurrentLine, default_final_address: NotableLine::CurrentLine },
            OpData { key: 'c', operation: Operation::Change, default_initial_address: NotableLine::CurrentLine, default_final_address: NotableLine::CurrentLine },
            OpData { key: 'd', operation: Operation::Delete, default_initial_address: NotableLine::CurrentLine, default_final_address: NotableLine::CurrentLine },
            OpData { key: 'e', operation: Operation::Edit, default_initial_address: NotableLine::LineNotApplicable, default_final_address: NotableLine::LineNotApplicable },
            OpData { key: 'E', operation: Operation::EditUnsafe, default_initial_address: NotableLine::LineNotApplicable, default_final_address: NotableLine::LineNotApplicable },
            OpData { key: 'f', operation: Operation::Filename, default_initial_address: NotableLine::LineNotApplicable, default_final_address: NotableLine::LineNotApplicable },
            OpData { key: 'g', operation: Operation::Global, default_initial_address: NotableLine::FirstLine, default_final_address: NotableLine::LastLine },
            OpData { key: 'G', operation: Operation::GlobalInteractive, default_initial_address: NotableLine::FirstLine, default_final_address: NotableLine::LastLine },
            OpData { key: 'h', operation: Operation::HelpRecall, default_initial_address: NotableLine::LineNotApplicable, default_final_address: NotableLine::LineNotApplicable },
            OpData { key: 'H', operation: Operation::HelpToggle, default_initial_address: NotableLine::LineNotApplicable, default_final_address: NotableLine::LineNotApplicable },
            OpData { key: 'i', operation: Operation::Insert, default_initial_address: NotableLine::CurrentLine, default_final_address: NotableLine::CurrentLine },
            OpData { key: 'j', operation: Operation::Join, default_initial_address: NotableLine::CurrentLine, default_final_address: NotableLine::CurrentPlusOneLine },
            OpData { key: 'k', operation: Operation::Mark, default_initial_address: NotableLine::CurrentLine, default_final_address: NotableLine::CurrentLine },
            OpData { key: 'l', operation: Operation::List, default_initial_address: NotableLine::CurrentLine, default_final_address: NotableLine::CurrentLine },
            OpData { key: 'm', operation: Operation::Move, default_initial_address: NotableLine::CurrentLine, default_final_address: NotableLine::CurrentLine },
            OpData { key: 'n', operation: Operation::PrintNumbered, default_initial_address: NotableLine::CurrentLine, default_final_address: NotableLine::CurrentLine },
            OpData { key: 'p', operation: Operation::Print, default_initial_address: NotableLine::CurrentLine, default_final_address: NotableLine::CurrentLine },
            OpData { key: 'P', operation: Operation::Prompt, default_initial_address: NotableLine::LineNotApplicable, default_final_address: NotableLine::LineNotApplicable },
            OpData { key: 'q', operation: Operation::Quit, default_initial_address: NotableLine::LineNotApplicable, default_final_address: NotableLine::LineNotApplicable },
            OpData { key: 'r', operation: Operation::Read, default_initial_address: NotableLine::LastLine, default_final_address: NotableLine::LastLine },
            OpData { key: 's', operation: Operation::Substitute, default_initial_address: NotableLine::CurrentLine, default_final_address: NotableLine::CurrentLine },
            OpData { key: 't', operation: Operation::Transfer, default_initial_address: NotableLine::CurrentLine, default_final_address: NotableLine::CurrentLine },
            OpData { key: 'u', operation: Operation::Undo, default_initial_address: NotableLine::LineNotApplicable, default_final_address: NotableLine::LineNotApplicable },
            OpData { key: 'v', operation: Operation::GlobalInverse, default_initial_address: NotableLine::FirstLine, default_final_address: NotableLine::LastLine },
            OpData { key: 'V', operation: Operation::GlobalInverseInteractive, default_initial_address: NotableLine::FirstLine, default_final_address: NotableLine::LastLine },
            OpData { key: 'w', operation: Operation::WriteToDisk, default_initial_address: NotableLine::FirstLine, default_final_address: NotableLine::LastLine },
            OpData { key: 'W', operation: Operation::AppendToDisk, default_initial_address: NotableLine::FirstLine, default_final_address: NotableLine::LastLine },
        ];
        let ops = Operations { operation_map };
        assert(ops.table() =~= op_table());
        ops
    }

    /// The table entry for operation character `c`.
    pub fn lookup(&self, c: char) -> (r: Option<OpData>)
        ensures
            r == lookup_from(self.table(), c, 0),
    {
        let mut k: usize = 0;
        while k < self.operation_map.len()
            invariant
                0 <= k <= self.operation_map@.len(),
                lookup_from(self.table(), c, 0) == lookup_from(self.table(), c, k as int),
            decreases self.operation_map@.len() - k,
        {
            if self.operation_map[k].key == c {
                return Some(self.operation_map[k]);
            }
            k += 1;
        }
        None
    }
}


/// State of one editing session.
pub struct EditorState {
    /// Whether input lines are commands or text.
    pub mode: EditorMode,
    /// Whether to show informational output.
    pub show_messages: bool,
    /// Whether to show help, warnings and error messages.
    pub show_help: bool,
    pub prompt: String,
    /// The text being edited.
    pub buffer: Buffer,
    /// File name or command the text came from.
    pub source: String,
    /// Most recent help, warning or error message.
    pub last_help: String,
    /// Last expression used in an address search.
    pub last_regex: String,
    /// Enough to roll back the latest change.
    pub undo: Undo,
    /// Work left to the caller, oldest first.
    pub effects: Vec<Effect>,
}

/// After a step that started from lines `t0`, cursor `c0` and markers
/// `m0`, the undo log of `s` leads back there.
pub open spec fn recorded(t0: Seq<Seq<char>>, c0: usize, m0: Seq<usize>, s: EditorState) -> bool {
    &&& replayable(s.buffer.text(), s.undo.log())
    &&& replay(s.buffer.text(), s.undo.log()) == t0
    &&& s.undo.saved_cursor() == c0
    &&& s.undo.saved_marks() == m0
}

/// What a step that begins an undo step leaves: if the log was unlocked,
/// it now leads back to the state before the step; it is locked either way.
pub open spec fn undo_step(old: EditorState, new: EditorState) -> bool {
    &&& !old.undo.locked() ==> recorded(old.buffer.text(), old.buffer.cursor(), old.buffer.marks(), new)
    &&& new.undo.locked()
}

/// The number of decimal digits of `n`.
pub open spec fn digit_count(n: nat) -> nat
    decreases n,
{
    if n < 10 { 1 } else { 1 + digit_count(n / 10) }
}

proof fn lemma_digit_count(n: nat)
    ensures
        n >= 1 ==> digit_count(n) <= n,
        n >= 10 ==> digit_count(n) >= 2,
    decreases n,
{
    if n >= 10 {
        lemma_digit_count(n / 10);
    }
}

/// The number of decimal digits of `n`.
pub fn count_decimal_digits(n: usize) -> (d: usize)
    ensures
        d == digit_count(n as nat),
{
    let mut m = n;
    let mut d: usize = 1;
    while m >= 10
        invariant
            d + digit_count(m as nat) == digit_count(n as nat) + 1,
            m <= n,
        decreases m,
    {
        proof {
            lemma_digit_count(n as nat);
            lemma_digit_count(m as nat);
        }
        m = m / 10;
        d = d + 1;
    }
    d
}

impl EditorState {
    pub open spec fn wf(&self) -> bool {
        self.buffer.wf()
    }

    /// A fresh session on `buffer`, in command mode.
    pub fn new(buffer: Buffer) -> (s: EditorState)
        requires
            buffer.wf(),
        ensures
            s.wf(),
            s.buffer == buffer,
            s.mode == EditorMode::Command,
            s.show_help,
            s.show_messages,
            !s.undo.locked(),
            s.undo.log().len() == 0,
            s.effects@.len() == 0,
    {
        let mut prompt = String::new();
        proof {
            reveal_strlit("%");
        }
        prompt.append("%");
        EditorState {
            mode: EditorMode::Command,
            show_messages: true,
            show_help: true,
            prompt,
            buffer,
            source: String::new(),
            last_help: String::new(),
            last_regex: String::new(),
            undo: Undo::new(),
            effects: Vec::new(),
        }
    }

    /// Remember the last search expression.
    pub fn store_last_regex(&mut self, re_str: &str)
        ensures
            final(self).last_regex@ == re_str@,
            final(self).buffer == old(self).buffer,
            final(self).undo == old(self).undo,
    {
        self.last_regex = re_str.to_string();
    }

    /// The last search expression.
    pub fn get_last_regex(&self) -> (r: String)
        ensures
            r@ == self.last_regex@,
    {
        self.last_regex.clone()
    }

    /// Begin an undo step, unless the log is locked.
    pub fn u_reset(&mut self)
        requires
            old(self).wf(),
        ensures
            final(self).wf(),
            final(self).buffer == old(self).buffer,
            old(self).undo.locked() ==> final(self).undo == old(self).undo,
            !old(self).undo.locked() ==> {
                &&& final(self).undo.log().len() == 0
                &&& final(self).undo.saved_cursor() == old(self).buffer.cursor()
                &&& final(self).undo.saved_marks() == old(self).buffer.marks()
                &&& !final(self).undo.locked()
            },
    {
        self.undo.reset(&self.buffer);
    }

    /// Lock the undo log.
    pub fn u_lock(&mut self)
        ensures
            final(self).buffer == old(self).buffer,
            final(self).undo.locked(),
            final(self).undo.log() == old(self).undo.log(),
            final(self).undo.saved_cursor() == old(self).undo.saved_cursor(),
            final(self).undo.saved_marks() == old(self).undo.saved_marks(),
    {
        self.undo.lock();
    }

    /// Unlock the undo log.
    pub fn u_unlock(&mut self)
        ensures
            final(self).buffer == old(self).buffer,
            !final(self).undo.locked(),
            final(self).undo.log() == old(self).undo.log(),
            final(self).undo.saved_cursor() == old(self).undo.saved_cursor(),
            final(self).undo.saved_marks() == old(self).undo.saved_marks(),
    {
        self.undo.unlock();
    }

    /// Record that the line at `address` was added.
    pub fn u_added_line(&mut self, address: usize)
        ensures
            final(self).buffer == old(self).buffer,
            final(self).undo.log() == old(self).undo.log() + addition_log(address as int, address as int),
    {
        self.undo.added_lines(address, address);
    }

    /// Record that the current line was added.
    pub fn u_added_current_line(&mut self)
        ensures
            final(self).buffer == old(self).buffer,
            final(self).undo.log() == old(self).undo.log() + addition_log(
                old(self).buffer.cursor() as int,
                old(self).buffer.cursor() as int,
            ),
    {
        let a = self.buffer.get_current_address();
        self.undo.added_lines(a, a);
    }

    /// Record that lines `[initial, fin]` were added.
    pub fn u_added_lines(&mut self, initial: usize, fin: usize)
        ensures
            final(self).buffer == old(self).buffer,
            final(self).undo.log() == old(self).undo.log() + addition_log(initial as int, fin as int),
    {
        self.undo.added_lines(initial, fin);
    }

    /// Record that the current line is about to be removed.
    pub fn u_deleting_current_line(&mut self)
        requires
            old(self).wf(),
            1 <= old(self).buffer.cursor(),
        ensures
            final(self).buffer == old(self).buffer,
            final(self).undo.log() == old(self).undo.log() + removal_log(
                old(self).buffer.text(),
                old(self).buffer.cursor() as int,
                old(self).buffer.cursor() as int,
            ),
    {
        proof {
            self.buffer.lemma_wf();
        }
        let a = self.buffer.get_current_address();
        self.undo.deleting_line(&self.buffer, a);
    }

    /// Record that the line at `address` is about to be removed.
    pub fn u_deleting_line(&mut self, address: usize)
        requires
            old(self).wf(),
            1 <= address <= old(self).buffer.len(),
        ensures
            final(self).buffer == old(self).buffer,
            final(self).undo.log() == old(self).undo.log() + removal_log(old(self).buffer.text(), address as int, address as int),
    {
        self.undo.deleting_line(&self.buffer, address);
    }

    /// Record that lines `[initial, fin]` are about to be removed.
    pub fn u_deleting_lines(&mut self, initial: usize, fin: usize)
        requires
            old(self).wf(),
            1 <= initial <= fin <= old(self).buffer.len(),
        ensures
            final(self).buffer == old(self).buffer,
            final(self).undo.log() == old(self).undo.log() + removal_log(old(self).buffer.text(), initial as int, fin as int),
    {
        self.undo.deleting_lines(&self.buffer, initial, fin);
    }

    /// The markers saved for undo.
    pub fn u_get_markers(&self) -> (m: Vec<usize>)
        ensures
            m@ == self.undo.saved_marks(),
    {
        self.undo.get_markers()
    }

    /// The changes saved for undo.
    pub fn u_get_changes(&self) -> (c: Vec<crate::undo::Change>)
        ensures
            crate::undo::changes_view(c@) == self.undo.log(),
    {
        self.undo.get_changes()
    }

    /// The cursor saved for undo.
    pub fn u_get_wascurrent_address(&self) -> (a: usize)
        ensures
            a == self.undo.saved_cursor(),
    {
        self.undo.get_wascurrent_address()
    }

    /// In insert mode, add `line` after the current line and record it.
    pub fn insert_text(&mut self, line: &str)
        requires
            old(self).wf(),
            old(self).buffer.len() < usize::MAX,
        ensures
            final(self).wf(),
            final(self).buffer.text() == old(self).buffer.text().insert(old(self).buffer.cursor() as int, line@),
            final(self).buffer.cursor() == old(self).buffer.cursor() + 1,
            replay(final(self).buffer.text(), final(self).undo.log()) == replay(old(self).buffer.text(), old(self).undo.log()),
            replayable(final(self).buffer.text(), final(self).undo.log()) == replayable(old(self).buffer.text(), old(self).undo.log()),
            final(self).undo.saved_cursor() == old(self).undo.saved_cursor(),
            final(self).undo.saved_marks() == old(self).undo.saved_marks(),
            final(self).undo.locked() == old(self).undo.locked(),
    {
        proof {
            self.buffer.lemma_wf();
        }
        let ghost t0 = self.buffer.text();
        let ghost l0 = self.undo.log();
        self.buffer.append_here(line);
        let a = self.buffer.get_current_address();
        self.undo.added_lines(a, a);
        proof {
            let t1 = self.buffer.text();
            let add = addition_log(a as int, a as int);
            assert(add =~= seq![ChangeView::Add { address: a }]);
            lemma_replay_append(t1, l0, add);
            assert(add.drop_last() =~= Seq::<ChangeView>::empty());
            assert(t1.remove(a - 1) =~= t0);
            assert(crate::undo::reverse_one(t1, add.last()) == t0);
            reveal_with_fuel(replay, 2);
            reveal_with_fuel(replayable, 2);
            assert(replay(t1, add) == t0);
            assert(replayable(t1, add));
        }
    }

    /// End of a command: outside insert mode the undo step is complete.
    pub fn finish_command(&mut self)
        ensures
            final(self).buffer == old(self).buffer,
            final(self).undo.locked() == (old(self).undo.locked() && old(self).mode == EditorMode::Insert),
            final(self).undo.log() == old(self).undo.log(),
            final(self).undo.saved_cursor() == old(self).undo.saved_cursor(),
            final(self).undo.saved_marks() == old(self).undo.saved_marks(),
            final(self).mode == old(self).mode,
            final(self).effects == old(self).effects,
    {
        if self.mode == EditorMode::Command {
            self.undo.unlock();
        }
    }
}


/// The undo log after a step that recorded `added`: appended to the old
/// log when it was locked, or starting a fresh step (with the cursor and
/// markers saved) when it was not. The log is locked afterwards.
pub open spec fn logged(old: EditorState, new: EditorState, added: Seq<ChangeView>) -> bool {
    &&& new.undo.locked()
    &&& if old.undo.locked() {
        &&& new.undo.log() == old.undo.log() + added
        &&& new.undo.saved_cursor() == old.undo.saved_cursor()
        &&& new.undo.saved_marks() == old.undo.saved_marks()
    } else {
        &&& new.undo.log() == added
        &&& new.undo.saved_cursor() == old.buffer.cursor()
        &&& new.undo.saved_marks() == old.buffer.marks()
    }
}

/// The error for a range that does not name existing lines in order.
pub open spec fn range_error(i: usize, f: usize, total: usize) -> RedError {
    RedError::GetLineOutOfBounds { address: if 0 < i && i <= total { f } else { i } }
}

fn range_err(i: usize, f: usize, total: usize) -> (e: RedError)
    ensures
        e == range_error(i, f, total),
{
    RedError::GetLineOutOfBounds { address: if 0 < i && i <= total { f } else { i } }
}

/// What `delete` does.
pub open spec fn delete_done(old: EditorState, new: EditorState, i: usize, f: usize, r: Result<(), RedError>) -> bool {
    &&& r is Ok == addresses_ok(i, f, old.buffer.len() as usize)
    &&& r is Err ==> new == old && r == Err::<(), RedError>(range_error(i, f, old.buffer.len() as usize))
    &&& r is Ok ==> {
            &&& new.buffer.text() == old.buffer.text().subrange(0, i - 1) + old.buffer.text().subrange(
                f as int,
                old.buffer.len() as int,
            )
            &&& new.buffer.cursor() == i - 1
            &&& logged(old, new, removal_log(old.buffer.text(), i as int, f as int))
            &&& undo_step(old, new)
            &&& new.mode == old.mode
            &&& new.effects == old.effects
    }
}

/// What `change` does.
pub open spec fn change_done(old: EditorState, new: EditorState, i: usize, f: usize, r: Result<(), RedError>) -> bool {
    &&& r is Ok == addresses_ok(i, f, old.buffer.len() as usize)
    &&& r is Err ==> new == old
    &&& r is Ok ==> {
            &&& new.buffer.text() == old.buffer.text().subrange(0, i - 1) + old.buffer.text().subrange(
                f as int,
                old.buffer.len() as int,
            )
            &&& new.buffer.cursor() == i - 1
            &&& new.mode == EditorMode::Insert
            &&& logged(old, new, removal_log(old.buffer.text(), i as int, f as int))
            &&& undo_step(old, new)
    }
}

/// What `join` does.
pub open spec fn join_done(old: EditorState, new: EditorState, i: usize, f: usize, r: Result<(), RedError>) -> bool {
    &&& r is Ok == addresses_ok(i, f, old.buffer.len() as usize)
    &&& r is Err ==> new == old
    &&& r is Ok ==> {
            &&& new.buffer.text() == old.buffer.text().subrange(0, i - 1).push(
                crate::buffer::joined(old.buffer.text().subrange(i - 1, f as int)),
            ) + old.buffer.text().subrange(f as int, old.buffer.len() as int)
            &&& new.buffer.cursor() == i
            &&& logged(old, new, removal_log(old.buffer.text(), i as int, f as int) + addition_log(i as int, i as int))
            &&& undo_step(old, new)
    }
}

/// What `transfer` does.
pub open spec fn transfer_done(old: EditorState, new: EditorState, i: usize, f: usize, d: usize, r: Result<(), RedError>) -> bool {
    &&& r is Ok == (addresses_ok(i, f, old.buffer.len() as usize) && d <= old.buffer.len()
            && old.buffer.len() + (f - i + 1) <= usize::MAX)
    &&& r is Err ==> new == old
    &&& r is Ok ==> {
            &&& new.buffer.text() == old.buffer.text().subrange(0, d as int) + old.buffer.text().subrange(
                i - 1,
                f as int,
            ) + old.buffer.text().subrange(d as int, old.buffer.len() as int)
            &&& new.buffer.cursor() == d + (f - i + 1)
            &&& logged(old, new, addition_log(d + 1, d + (f - i + 1)))
            &&& undo_step(old, new)
    }
}

/// What `move` does.
pub open spec fn move_done(old: EditorState, new: EditorState, i: usize, f: usize, d: usize, r: Result<(), RedError>) -> bool {
    &&& r is Ok == (addresses_ok(i, f, old.buffer.len() as usize) && d <= old.buffer.len())
    &&& r is Err ==> new == old
    &&& r is Ok ==> {
            &&& new.buffer.text() == moved(old.buffer.text(), i as int, f as int, d as int)
            &&& new.buffer.cursor() == moved_to(i as int, f as int, d as int) + (f - i + 1)
            &&& logged(
                old,
                new,
                removal_log(old.buffer.text(), i as int, f as int) + addition_log(
                    moved_to(i as int, f as int, d as int) + 1,
                    moved_to(i as int, f as int, d as int) + (f - i + 1),
                ),
            )
            &&& undo_step(old, new)
    }
}

/// What `substitute` does.
pub open spec fn substitute_done(old: EditorState, new: EditorState, i: usize, f: usize, to_match: Seq<char>, to_sub: Seq<char>, which: WhichMatch, r: Result<(), RedError>) -> bool {
    &&& r is Ok == (addresses_ok(i, f, old.buffer.len() as usize) && regex_compiles(to_match))
    &&& r is Err ==> new == old
    &&& r is Ok ==> {
            &&& new.buffer.text() == Seq::new(
                old.buffer.len(),
                |k: int|
                    if i - 1 <= k < f {
                        crate::subst::substituted(to_match, old.buffer.text()[k], to_sub, which)
                    } else {
                        old.buffer.text()[k]
                    },
            )
            &&& new.buffer.cursor() == old.buffer.cursor()
            &&& logged(old, new, removal_log(old.buffer.text(), i as int, f as int) + addition_log(i as int, f as int))
            &&& undo_step(old, new)
    }
}

/// What `mark` does.
pub open spec fn mark_done(old: EditorState, new: EditorState, f: usize, params: Seq<char>, r: Result<(), RedError>) -> bool {
    &&& r is Ok == (params.len() == 1 && crate::buffer::is_marker_label(params[0]) && f <= old.buffer.len())
    &&& !(params.len() == 1 && crate::buffer::is_marker_label(params[0])) ==> (r matches Err(
        RedError::ParameterSyntax { parameter },
    ) && parameter@ == params)
    &&& params.len() == 1 && crate::buffer::is_marker_label(params[0]) && f > old.buffer.len() ==> r == Err::<
        (),
        RedError,
    >(RedError::GetLineOutOfBounds { address: f })
    &&& r is Err ==> new == old
    &&& r is Ok ==> {
            &&& new.buffer.marks() == old.buffer.marks().update(crate::buffer::marker_index(params[0]), f)
            &&& new.buffer.text() == old.buffer.text()
            &&& new.buffer.cursor() == old.buffer.cursor()
            &&& new.undo == old.undo
    }
}

/// What `undo` does.
pub open spec fn undo_done(old: EditorState, new: EditorState, r: Result<(), RedError>) -> bool {
    &&& r is Ok == crate::undo::fits(old.buffer.len() as int, old.undo.log())
    &&& r is Err ==> new == old
    &&& r is Ok ==> recorded(old.buffer.text(), old.buffer.cursor(), old.buffer.marks(), new)
    &&& r is Ok ==> replayable(old.buffer.text(), old.undo.log())
    &&& replayable(old.buffer.text(), old.undo.log()) && old.buffer.len() + old.undo.log().len()
            < usize::MAX ==> r is Ok
    &&& r is Ok ==> {
            &&& new.buffer.text() == replay(old.buffer.text(), old.undo.log())
            &&& new.buffer.cursor() == if old.undo.saved_cursor() <= new.buffer.len() {
                old.undo.saved_cursor() as int
            } else {
                new.buffer.len() as int
            }
            &&& new.buffer.marks() == Seq::new(
                NUM_LC as nat,
                |k: int|
                    if old.undo.saved_marks().len() == NUM_LC && old.undo.saved_marks()[k] <= new.buffer.len() {
                        old.undo.saved_marks()[k]
                    } else {
                        0usize
                    },
            )
    }
}

/// What `print` does.
pub open spec fn print_done(old: EditorState, new: EditorState, i: usize, f: usize, r: Result<(), RedError>) -> bool {
    &&& r is Ok == (addresses_ok(i, f, old.buffer.len() as usize) && old.buffer.len() < usize::MAX)
    &&& r is Err ==> new == old
    &&& r is Ok ==> {
            &&& new.buffer.text() == old.buffer.text()
            &&& new.buffer.cursor() == f
            &&& new.undo == old.undo
            &&& new.effects@.len() == old.effects@.len() + (f - i + 1)
            &&& forall|k: int|
                0 <= k <= f - i ==> prints(#[trigger] new.effects@[old.effects@.len() + k], old.buffer.text()[i - 1 + k])
            &&& forall|k: int| 0 <= k < old.effects@.len() ==> #[trigger] new.effects@[k] == old.effects@[k]
    }
}

/// What `print_numbered` does.
pub open spec fn print_numbered_done(old: EditorState, new: EditorState, i: usize, f: usize, r: Result<(), RedError>) -> bool {
    &&& r is Ok == (addresses_ok(i, f, old.buffer.len() as usize) && old.buffer.len() < usize::MAX)
    &&& r is Err ==> new == old
    &&& r is Ok ==> {
            &&& new.buffer.text() == old.buffer.text()
            &&& new.buffer.cursor() == f
            &&& new.undo == old.undo
            &&& new.effects@.len() == old.effects@.len() + (f - i + 1)
            &&& forall|k: int|
                0 <= k <= f - i ==> prints_numbered(
                    #[trigger] new.effects@[old.effects@.len() + k],
                    i + k,
                    digit_count(old.buffer.len() + 1) as int,
                    old.buffer.text()[i - 1 + k],
                )
    }
}

/// Begin a step of the undo log: reset it unless locked, then lock it.
fn begin_step(state: &mut EditorState)
    requires
        old(state).wf(),
    ensures
        final(state).wf(),
        final(state).buffer == old(state).buffer,
        final(state).mode == old(state).mode,
        final(state).effects == old(state).effects,
        logged(*old(state), *final(state), Seq::empty()),
{
    state.undo.reset(&state.buffer);
    proof {
        if !old(state).undo.locked() {
            assert(state.undo.log() =~= Seq::<ChangeView>::empty());
        }
    }
    state.undo.lock();
    proof {
        assert(old(state).undo.log() + Seq::<ChangeView>::empty() =~= old(state).undo.log());
    }
}

/// Delete lines `[i, f]`; the cursor moves to the line before them.
pub fn delete(state: &mut EditorState, i: usize, f: usize) -> (r: Result<(), RedError>)
    requires
        old(state).wf(),
    ensures
        final(state).wf(),
        delete_done(*old(state), *final(state), i, f, r),
{
    let total = state.buffer.num_lines();
    if !crate::error::assert_addresses(i, f, total) {
        return Err(range_err(i, f, total));
    }
    let ghost t0 = state.buffer.text();
    begin_step(state);
    state.undo.deleting_lines(&state.buffer, i, f);
    proof {
        assert(Seq::<ChangeView>::empty() + removal_log(t0, i as int, f as int) =~= removal_log(t0, i as int, f as int));
        assert(t0.subrange(0, i - 1) + t0.subrange(i - 1, t0.len() as int) =~= t0);
    }
    let n = f - i + 1;
    let mut k: usize = 0;
    while k < n
        invariant
            state.wf(),
            0 <= k <= n,
            n == f - i + 1,
            1 <= i <= f <= t0.len(),
            state.buffer.text() == t0.subrange(0, i - 1) + t0.subrange(i - 1 + k, t0.len() as int),
            logged(*old(state), *state, removal_log(t0, i as int, f as int)),
            t0 == old(state).buffer.text(),
            state.mode == old(state).mode,
            state.effects == old(state).effects,
        decreases n - k,
    {
        let _ = state.buffer.delete_line(i);
        proof {
            assert((t0.subrange(0, i - 1) + t0.subrange(i - 1 + k, t0.len() as int)).remove(i - 1) =~= t0.subrange(0, i - 1)
                + t0.subrange(i + k, t0.len() as int));
        }
        k += 1;
    }
    state.buffer.set_current_address(i - 1);
    proof {
        if !old(state).undo.locked() {
            lemma_replay_removal(t0, i as int, f as int);
        }
    }
    Ok(())
}

/// Position the cursor on `f` and switch to inserting text after it.
pub fn append(state: &mut EditorState, f: usize)
    requires
        old(state).wf(),
    ensures
        final(state).wf(),
        final(state).buffer.text() == old(state).buffer.text(),
        final(state).buffer.cursor() == if f < old(state).buffer.len() { f as int } else { old(state).buffer.len() as int },
        final(state).mode == EditorMode::Insert,
        logged(*old(state), *final(state), Seq::empty()),
        undo_step(*old(state), *final(state)),
{
    begin_step(state);
    state.buffer.set_current_address(f);
    state.mode = EditorMode::Insert;
    proof {
        reveal_with_fuel(replayable, 1);
    }
}

/// Switch to inserting text before line `f`.
pub fn insert(state: &mut EditorState, f: usize)
    requires
        old(state).wf(),
    ensures
        final(state).wf(),
        final(state).buffer.text() == old(state).buffer.text(),
        final(state).buffer.cursor() == if f >= 1 && f - 1 < old(state).buffer.len() {
            f - 1
        } else if f == 0 {
            0
        } else {
            old(state).buffer.len() as int
        },
        final(state).mode == EditorMode::Insert,
        logged(*old(state), *final(state), Seq::empty()),
        undo_step(*old(state), *final(state)),
{
    begin_step(state);
    state.buffer.set_current_address(if f >= 1 { f - 1 } else { 0 });
    state.mode = EditorMode::Insert;
}

/// Delete lines `[i, f]` and switch to inserting text in their place, as
/// one undo step.
pub fn change(state: &mut EditorState, i: usize, f: usize) -> (r: Result<(), RedError>)
    requires
        old(state).wf(),
    ensures
        final(state).wf(),
        change_done(*old(state), *final(state), i, f, r),
{
    let total = state.buffer.num_lines();
    if !crate::error::assert_addresses(i, f, total) {
        return Err(range_err(i, f, total));
    }
    let ghost t0 = state.buffer.text();
    begin_step(state);
    let ghost s1 = *state;
    let _ = delete(state, i, f);
    proof {
        assert(Seq::<ChangeView>::empty() + removal_log(t0, i as int, f as int) =~= removal_log(t0, i as int, f as int));
        if old(state).undo.locked() {
            assert(old(state).undo.log() + Seq::<ChangeView>::empty() + removal_log(t0, i as int, f as int)
                =~= old(state).undo.log() + removal_log(t0, i as int, f as int));
        } else {
            lemma_replay_removal(t0, i as int, f as int);
        }
    }
    state.buffer.set_current_address(i - 1);
    state.mode = EditorMode::Insert;
    Ok(())
}


/// Join lines `[i, f]` into one.
pub fn join(state: &mut EditorState, i: usize, f: usize) -> (r: Result<(), RedError>)
    requires
        old(state).wf(),
    ensures
        final(state).wf(),
        join_done(*old(state), *final(state), i, f, r),
{
    let total = state.buffer.num_lines();
    if !crate::error::assert_addresses(i, f, total) {
        return Err(range_err(i, f, total));
    }
    let ghost t0 = state.buffer.text();
    begin_step(state);
    state.undo.deleting_lines(&state.buffer, i, f);
    let _ = state.buffer.join_lines(i, f);
    let a = state.buffer.get_current_address();
    state.undo.added_lines(a, a);
    proof {
        let rem = removal_log(t0, i as int, f as int);
        let add = addition_log(i as int, i as int);
        assert(Seq::<ChangeView>::empty() + rem =~= rem);
        if old(state).undo.locked() {
            assert(old(state).undo.log() + Seq::<ChangeView>::empty() + rem + add =~= old(state).undo.log() + (rem + add));
        } else {
            let t1 = state.buffer.text();
            lemma_replay_append(t1, rem, add);
            assert(add =~= seq![ChangeView::Add { address: i }]);
            reveal_with_fuel(replay, 2);
            reveal_with_fuel(replayable, 2);
            assert(t1.remove(i - 1) =~= t0.subrange(0, i - 1) + t0.subrange(f as int, t0.len() as int));
            lemma_replay_removal(t0, i as int, f as int);
        }
    }
    Ok(())
}

/// The destination address named by a parameter: `0` for the top,
/// otherwise an address field; a search that finds nothing means the
/// current line.
pub fn destination_of(params: &str, buffer: &Buffer) -> (r: Result<usize, RedError>)
    requires
        buffer.wf(),
    ensures
        match r {
            Ok(d) => if params@ == seq!['0'] {
                d == 0
            } else {
                field_value(params@, *buffer) == Some(Some(d)) || (field_value(params@, *buffer) == Some(None::<usize>)
                    && d == buffer.cursor())
            },
            Err(e) => params@ != seq!['0'] && field_value(params@, *buffer) is None,
        },
{
    if params.unicode_len() == 1 && params.get_char(0) == '0' {
        proof {
            assert(params@ =~= seq!['0']);
        }
        return Ok(0);
    }
    proof {
        if params@ == seq!['0'] {
            assert(params@.len() == 1 && params@[0] == '0');
        }
    }
    match parse_address_field(params, buffer) {
        Ok(Some(v)) => Ok(v),
        Ok(None) => Ok(buffer.get_current_address()),
        Err(e) => Err(e),
    }
}

/// Copy lines `[i, f]` after line `d`.
pub fn transfer(state: &mut EditorState, i: usize, f: usize, d: usize) -> (r: Result<(), RedError>)
    requires
        old(state).wf(),
    ensures
        final(state).wf(),
        transfer_done(*old(state), *final(state), i, f, d, r),
{
    let total = state.buffer.num_lines();
    if !crate::error::assert_addresses(i, f, total) {
        return Err(range_err(i, f, total));
    }
    if d > total || total > usize::MAX - (f - i + 1) {
        return Err(RedError::GetLineOutOfBounds { address: d });
    }
    let ghost t0 = state.buffer.text();
    begin_step(state);
    let _ = state.buffer.copy_lines(i, f, d);
    let n = f - i + 1;
    state.undo.added_lines(d + 1, d + n);
    proof {
        let add = addition_log(d + 1, d + n);
        assert(Seq::<ChangeView>::empty() + add =~= add);
        if old(state).undo.locked() {
            assert(old(state).undo.log() + Seq::<ChangeView>::empty() + add =~= old(state).undo.log() + add);
        } else {
            let block = t0.subrange(i - 1, f as int);
            lemma_replay_addition(t0, d as int, block);
        }
    }
    Ok(())
}

/// Where the moved block starts, less one, once a move of `[i, f]` to
/// follow `d` is done.
pub open spec fn moved_to(i: int, f: int, d: int) -> int {
    if i - 1 <= d <= f {
        i - 1
    } else if d < i - 1 {
        d
    } else {
        d - (f - i + 1)
    }
}

proof fn lemma_move_replay(t0: Seq<Seq<char>>, i: int, f: int, d: int)
    requires
        1 <= i <= f <= t0.len(),
        0 <= d <= t0.len(),
        t0.len() <= usize::MAX,
    ensures
        replay(moved(t0, i, f, d), removal_log(t0, i, f) + addition_log(moved_to(i, f, d) + 1, moved_to(i, f, d) + (f - i + 1))) == t0,
        replayable(moved(t0, i, f, d), removal_log(t0, i, f) + addition_log(moved_to(i, f, d) + 1, moved_to(i, f, d) + (f - i + 1))),
{
    let t1 = moved(t0, i, f, d);
    let dest = moved_to(i, f, d);
    let rem = removal_log(t0, i, f);
    let add = addition_log(dest + 1, dest + (f - i + 1));
    let base = t0.subrange(0, i - 1) + t0.subrange(f, t0.len() as int);
    let block = t0.subrange(i - 1, f);
    assert(t1 =~= base.subrange(0, dest) + block + base.subrange(dest, base.len() as int));
    lemma_replay_addition(base, dest, block);
    lemma_replay_append(t1, rem, add);
    lemma_replay_removal(t0, i, f);
}

/// Move lines `[i, f]` to follow line `d`.
pub fn move_lines(state: &mut EditorState, i: usize, f: usize, d: usize) -> (r: Result<(), RedError>)
    requires
        old(state).wf(),
    ensures
        final(state).wf(),
        move_done(*old(state), *final(state), i, f, d, r),
{
    let total = state.buffer.num_lines();
    if !crate::error::assert_addresses(i, f, total) {
        return Err(range_err(i, f, total));
    }
    if d > total {
        return Err(RedError::GetLineOutOfBounds { address: d });
    }
    let ghost t0 = state.buffer.text();
    begin_step(state);
    state.undo.deleting_lines(&state.buffer, i, f);
    let _ = state.buffer.move_lines(&i, &f, &d);
    let n = f - i + 1;
    let dest: usize = if i - 1 <= d && d <= f {
        i - 1
    } else if d < i - 1 {
        d
    } else {
        d - n
    };
    state.buffer.set_current_address(dest + n);
    state.undo.added_lines(dest + 1, dest + n);
    proof {
        let rem = removal_log(t0, i as int, f as int);
        let add = addition_log(dest + 1, dest + n);
        assert(Seq::<ChangeView>::empty() + rem =~= rem);
        if old(state).undo.locked() {
            assert(old(state).undo.log() + Seq::<ChangeView>::empty() + rem + add =~= old(state).undo.log() + (rem + add));
        } else {
            lemma_move_replay(t0, i as int, f as int, d as int);
        }
    }
    Ok(())
}

/// Replace the matches that `which` selects of `to_match` by `to_sub` in
/// lines `[i, f]`.
pub fn substitute(state: &mut EditorState, i: usize, f: usize, sub: &Substitution) -> (r: Result<(), RedError>)
    requires
        old(state).wf(),
    ensures
        final(state).wf(),
        substitute_done(*old(state), *final(state), i, f, sub.to_match@, sub.to_sub@, sub.which, r),
{
    let total = state.buffer.num_lines();
    if !crate::error::assert_addresses(i, f, total) {
        return Err(range_err(i, f, total));
    }
    match crate::pattern::compile(sub.to_match.as_str()) {
        Some(_) => {},
        None => {
            return Err(RedError::ParameterSyntax { parameter: sub.to_match.clone() });
        },
    }
    let ghost t0 = state.buffer.text();
    begin_step(state);
    state.undo.deleting_lines(&state.buffer, i, f);
    let _ = state.buffer.substitute(sub.to_match.as_str(), sub.to_sub.as_str(), sub.which, i, f);
    state.undo.added_lines(i, f);
    proof {
        let rem = removal_log(t0, i as int, f as int);
        let add = addition_log(i as int, f as int);
        assert(Seq::<ChangeView>::empty() + rem =~= rem);
        if old(state).undo.locked() {
            assert(old(state).undo.log() + Seq::<ChangeView>::empty() + rem + add =~= old(state).undo.log() + (rem + add));
        } else {
            let t1 = state.buffer.text();
            let base = t0.subrange(0, i - 1) + t0.subrange(f as int, t0.len() as int);
            let block = t1.subrange(i - 1, f as int);
            assert(t1 =~= base.subrange(0, i - 1) + block + base.subrange(i - 1, base.len() as int));
            lemma_replay_addition(base, i - 1, block);
            assert(add =~= addition_log(i - 1 + 1, i - 1 + block.len()));
            lemma_replay_append(t1, rem, add);
            lemma_replay_removal(t0, i as int, f as int);
        }
    }
    Ok(())
}

/// Mark line `f` with the letter given as parameter.
pub fn mark(state: &mut EditorState, f: usize, params: &str) -> (r: Result<(), RedError>)
    requires
        old(state).wf(),
    ensures
        final(state).wf(),
        mark_done(*old(state), *final(state), f, params@, r),
{
    if params.unicode_len() != 1 {
        return Err(RedError::ParameterSyntax { parameter: params.to_string() });
    }
    let c = params.get_char(0);
    if !('a' <= c && c <= 'z') {
        return Err(RedError::ParameterSyntax { parameter: params.to_string() });
    }
    if f > state.buffer.num_lines() {
        return Err(RedError::GetLineOutOfBounds { address: f });
    }
    state.buffer.set_marker(c, f);
    Ok(())
}

/// Reverse the last undo step: added lines are removed and removed lines
/// put back, last change first; then the cursor and markers saved at the
/// start of the step are restored. The reversal is itself recorded, so
/// undoing twice redoes.
pub fn undo(state: &mut EditorState) -> (r: Result<(), RedError>)
    requires
        old(state).wf(),
    ensures
        final(state).wf(),
        undo_done(*old(state), *final(state), r),
{
    let address = state.undo.get_wascurrent_address();
    let markers = state.undo.get_markers();
    let changes = state.undo.get_changes();
    let ghost log = state.undo.log();
    let ghost t0 = state.buffer.text();
    proof {
        crate::undo::lemma_fits(t0, log);
        assert(log.subrange(0, log.len() as int) =~= log);
    }
    let mut n = state.buffer.num_lines();
    let mut k = changes.len();
    while k > 0
        invariant
            0 <= k <= changes@.len(),
            crate::undo::changes_view(changes@) == log,
            log == old(state).undo.log(),
            *state == *old(state),
            state.wf(),
            t0 == old(state).buffer.text(),
            crate::undo::fits(t0.len() as int, log) == crate::undo::fits(n as int, log.subrange(0, k as int)),
        decreases k,
    {
        let ghost pre = log.subrange(0, k as int);
        proof {
            assert(pre.drop_last() =~= log.subrange(0, k - 1));
            assert(pre.last() == changes@[k - 1]@);
        }
        match &changes[k - 1] {
            crate::undo::Change::Add { address: a } => {
                if *a < 1 || *a > n {
                    proof {
                        assert(pre.last() == (ChangeView::Add { address: *a }));
                        assert(!crate::undo::fits(n as int, pre));
                        crate::undo::lemma_fits(t0, log);
                    }
                    return Err(RedError::GetLineOutOfBounds { address: *a });
                }
                n = n - 1;
            },
            crate::undo::Change::Remove { address: a, .. } => {
                if *a < 1 || *a - 1 > n || n == usize::MAX {
                    proof {
                        assert(pre.last() matches ChangeView::Remove { address, .. } && address == *a);
                        assert(!crate::undo::fits(n as int, pre));
                        crate::undo::lemma_fits(t0, log);
                    }
                    return Err(RedError::SetLineOutOfBounds { address: *a });
                }
                n = n + 1;
            },
        }
        k -= 1;
    }
    proof {
        assert(log.subrange(0, 0) =~= Seq::<ChangeView>::empty());
    }
    state.undo.unlock();
    state.undo.reset(&state.buffer);
    state.undo.lock();
    proof {
        reveal_with_fuel(replay, 1);
        reveal_with_fuel(replayable, 1);
    }
    let mut k = changes.len();
    proof {
        assert(log.subrange(0, k as int) =~= log);
    }
    while k > 0
        invariant
            state.wf(),
            0 <= k <= changes@.len(),
            crate::undo::changes_view(changes@) == log,
            replay(t0, log) == replay(state.buffer.text(), log.subrange(0, k as int)),
            replayable(t0, log) == replayable(state.buffer.text(), log.subrange(0, k as int)),
            crate::undo::fits(state.buffer.len() as int, log.subrange(0, k as int)),
            t0 == old(state).buffer.text(),
            log == old(state).undo.log(),
            replayable(state.buffer.text(), state.undo.log()),
            replay(state.buffer.text(), state.undo.log()) == t0,
            state.undo.saved_cursor() == old(state).buffer.cursor(),
            state.undo.saved_marks() == old(state).buffer.marks(),
        decreases k,
    {
        let ghost pre = log.subrange(0, k as int);
        let ghost text = state.buffer.text();
        let ghost ulog = state.undo.log();
        proof {
            assert(pre.drop_last() =~= log.subrange(0, k - 1));
            assert(pre.last() == changes@[k - 1]@);
        }
        match &changes[k - 1] {
            crate::undo::Change::Add { address: a } => {
                let a = *a;
                if a < 1 || a > state.buffer.num_lines() {
                    return Err(RedError::GetLineOutOfBounds { address: a });
                }
                state.undo.deleting_line(&state.buffer, a);
                let _ = state.buffer.delete_line(a);
                proof {
                    let e = ChangeView::Remove { address: a, content: text[a - 1] };
                    assert(removal_log(text, a as int, a as int) =~= seq![e]);
                    assert(state.undo.log() =~= ulog.push(e));
                    crate::replay::lemma_replay_push(state.buffer.text(), ulog, e);
                    assert(crate::undo::reverse_one(state.buffer.text(), e) =~= text);
                }
            },
            crate::undo::Change::Remove { address: a, content } => {
                let a = *a;
                if a < 1 || a - 1 > state.buffer.num_lines() || state.buffer.num_lines() == usize::MAX {
                    return Err(RedError::SetLineOutOfBounds { address: a });
                }
                state.undo.added_lines(a, a);
                state.buffer.append_line(a - 1, content.as_str());
                proof {
                    let e = ChangeView::Add { address: a };
                    assert(addition_log(a as int, a as int) =~= seq![e]);
                    assert(state.undo.log() =~= ulog.push(e));
                    crate::replay::lemma_replay_push(state.buffer.text(), ulog, e);
                    assert(crate::undo::reverse_one(state.buffer.text(), e) =~= text);
                }
            },
        }
        k -= 1;
    }
    proof {
        assert(log.subrange(0, 0) =~= Seq::<ChangeView>::empty());
    }
    let ghost t1 = state.buffer.text();
    let ghost u1 = state.undo;
    state.buffer.set_current_address(address);
    proof {
        state.buffer.lemma_wf();
    }
    let mut j: usize = 0;
    while j < NUM_LC
        invariant
            state.wf(),
            0 <= j <= NUM_LC,
            state.buffer.text() == t1,
            markers@ == old(state).undo.saved_marks(),
            state.buffer.cursor() == if address <= t1.len() { address as int } else { t1.len() as int },
            address == old(state).undo.saved_cursor(),
            state.undo == u1,
            state.buffer.marks().len() == NUM_LC,
            forall|q: int| 0 <= q < j ==> #[trigger] state.buffer.marks()[q] == if markers@.len() == NUM_LC && markers@[q] <= t1.len() { markers@[q] } else { 0usize },
        decreases NUM_LC - j,
    {
        proof {
            state.buffer.lemma_wf();
        }
        let m: usize = if markers.len() == NUM_LC && markers[j] <= state.buffer.num_lines() { markers[j] } else { 0 };
        state.buffer.set_marker(char_of(j), m);
        j += 1;
    }
    proof {
        state.buffer.lemma_wf();
        assert(state.buffer.marks() =~= Seq::new(
            NUM_LC as nat,
            |k: int| if markers@.len() == NUM_LC && markers@[k] <= t1.len() { markers@[k] } else { 0usize },
        ));
    }
    Ok(())
}


/// `e` prints `line`.
pub open spec fn prints(e: Effect, line: Seq<char>) -> bool {
    match e {
        Effect::Print(l) => l@ == line,
        _ => false,
    }
}

/// `e` prints `line` after number `number` in `width` columns.
pub open spec fn prints_numbered(e: Effect, number: int, width: int, line: Seq<char>) -> bool {
    match e {
        Effect::Numbered { number: n, width: w, line: l } => n == number && w == width && l@ == line,
        _ => false,
    }
}

/// Queue lines `[i, f]` for output; the cursor moves to `f`.
pub fn print(state: &mut EditorState, i: usize, f: usize) -> (r: Result<(), RedError>)
    requires
        old(state).wf(),
    ensures
        final(state).wf(),
        print_done(*old(state), *final(state), i, f, r),
{
    print_lines(state, i, f, false)
}

/// Queue lines `[i, f]` for output, each after its number; the cursor
/// moves to `f`.
pub fn print_numbered(state: &mut EditorState, i: usize, f: usize) -> (r: Result<(), RedError>)
    requires
        old(state).wf(),
    ensures
        final(state).wf(),
        print_numbered_done(*old(state), *final(state), i, f, r),
{
    print_lines(state, i, f, true)
}

fn print_lines(state: &mut EditorState, i: usize, f: usize, numbered: bool) -> (r: Result<(), RedError>)
    requires
        old(state).wf(),
    ensures
        final(state).wf(),
        r is Ok == (addresses_ok(i, f, old(state).buffer.len() as usize) && old(state).buffer.len() < usize::MAX),
        r is Err ==> *final(state) == *old(state),
        r is Ok ==> {
            &&& final(state).buffer.text() == old(state).buffer.text()
            &&& final(state).buffer.cursor() == f
            &&& final(state).undo == old(state).undo
            &&& final(state).effects@.len() == old(state).effects@.len() + (f - i + 1)
            &&& forall|k: int|
                0 <= k <= f - i ==> if numbered {
                    prints_numbered(
                        #[trigger] final(state).effects@[old(state).effects@.len() + k],
                        i + k,
                        digit_count(old(state).buffer.len() + 1) as int,
                        old(state).buffer.text()[i - 1 + k],
                    )
                } else {
                    prints(final(state).effects@[old(state).effects@.len() + k], old(state).buffer.text()[i - 1 + k])
                }
            &&& forall|k: int| 0 <= k < old(state).effects@.len() ==> #[trigger] final(state).effects@[k] == old(state).effects@[k]
        },
{
    let total = state.buffer.num_lines();
    if !crate::error::assert_addresses(i, f, total) || total == usize::MAX {
        return Err(range_err(i, f, total));
    }
    let width = count_decimal_digits(total + 1);
    let ghost e0 = state.effects@;
    let mut a = i;
    while a <= f
        invariant
            state.wf(),
            1 <= i <= a <= f + 1,
            f <= total,
            total == state.buffer.len(),
            total < usize::MAX,
            state.buffer == old(state).buffer,
            state.undo == old(state).undo,
            e0 == old(state).effects@,
            width == digit_count(total as nat + 1),
            state.effects@.len() == e0.len() + (a - i),
            forall|k: int| 0 <= k < e0.len() ==> #[trigger] state.effects@[k] == e0[k],
            forall|k: int|
                0 <= k < a - i ==> if numbered {
                    prints_numbered(#[trigger] state.effects@[e0.len() + k], i + k, width as int, state.buffer.text()[i - 1 + k])
                } else {
                    prints(state.effects@[e0.len() + k], state.buffer.text()[i - 1 + k])
                },
        decreases f + 1 - a,
    {
        let line = state.buffer.get_line_content(a).unwrap().to_string();
        if numbered {
            state.effects.push(Effect::Numbered { number: a, width, line });
        } else {
            state.effects.push(Effect::Print(line));
        }
        a += 1;
    }
    state.buffer.set_current_address(f);
    Ok(())
}

/// The first `c` in `s` at or after `from`.
pub open spec fn first_char_from(s: Seq<char>, c: char, from: int) -> Option<int>
    decreases s.len() - from,
{
    if from < 0 || from >= s.len() {
        None
    } else if s[from] == c {
        Some(from)
    } else {
        first_char_from(s, c, from + 1)
    }
}

fn find_char(s: &str, c: char, from: usize) -> (r: Option<usize>)
    ensures
        match r {
            Some(k) => first_char_from(s@, c, from as int) == Some(k as int) && from <= k < s@.len(),
            None => first_char_from(s@, c, from as int) is None,
        },
{
    let len = s.unicode_len();
    let mut k = from;
    while k < len
        invariant
            from <= k,
            len == s@.len(),
            first_char_from(s@, c, from as int) == first_char_from(s@, c, k as int),
        decreases len - k,
    {
        if s.get_char(k) == c {
            return Some(k);
        }
        k += 1;
    }
    None
}

/// The pattern, replacement and selector of a substitution parameter
/// `/pattern/replacement/flags`, where the first character is the
/// delimiter. The flags are `g` for every match, a number `n >= 1` for the
/// n-th, or nothing (as is the last delimiter) for the first.
pub open spec fn sub_param_spec(p: Seq<char>) -> Option<(Seq<char>, Seq<char>, WhichMatch)> {
    if p.len() == 0 {
        None
    } else {
        match first_char_from(p, p[0], 1) {
            None => None,
            Some(a) => match first_char_from(p, p[0], a + 1) {
                None => Some((p.subrange(1, a), p.subrange(a + 1, p.len() as int), WhichMatch::Number(1))),
                Some(b) => {
                    let flags = p.subrange(b + 1, p.len() as int);
                    if flags.len() == 0 {
                        Some((p.subrange(1, a), p.subrange(a + 1, b), WhichMatch::Number(1)))
                    } else if flags == seq!['g'] {
                        Some((p.subrange(1, a), p.subrange(a + 1, b), WhichMatch::Global))
                    } else {
                        match numeral(flags) {
                            Some(n) => if n >= 1 {
                                Some((p.subrange(1, a), p.subrange(a + 1, b), WhichMatch::Number(n)))
                            } else {
                                None
                            },
                            None => None,
                        }
                    }
                },
            },
        }
    }
}

/// Split a substitution parameter into pattern, replacement and selector.
pub fn parse_substitution_parameter(p: &str) -> (r: Result<Substitution, RedError>)
    ensures
        match r {
            Ok(sub) => sub_param_spec(p@) == Some((sub.to_match@, sub.to_sub@, sub.which)),
            Err(e) => sub_param_spec(p@) is None && (e matches RedError::ParameterSyntax { parameter } && parameter@ == p@),
        },
{
    let len = p.unicode_len();
    if len == 0 {
        return Err(RedError::ParameterSyntax { parameter: p.to_string() });
    }
    let d = p.get_char(0);
    let a = match find_char(p, d, 1) {
        Some(a) => a,
        None => {
            return Err(RedError::ParameterSyntax { parameter: p.to_string() });
        },
    };
    let to_match = p.substring_char(1, a).to_string();
    match find_char(p, d, a + 1) {
        None => Ok(Substitution { to_match, to_sub: p.substring_char(a + 1, len).to_string(), which: WhichMatch::Number(1) }),
        Some(b) => {
            let to_sub = p.substring_char(a + 1, b).to_string();
            let flags = p.substring_char(b + 1, len);
            if flags.unicode_len() == 0 {
                Ok(Substitution { to_match, to_sub, which: WhichMatch::Number(1) })
            } else if flags.unicode_len() == 1 && flags.get_char(0) == 'g' {
                proof {
                    assert(flags@ =~= seq!['g']);
                }
                Ok(Substitution { to_match, to_sub, which: WhichMatch::Global })
            } else {
                proof {
                    if flags@ == seq!['g'] {
                        assert(flags@.len() == 1 && flags@[0] == 'g');
                    }
                }
                match parse_number(flags) {
                    Some(n) => if n >= 1 {
                        Ok(Substitution { to_match, to_sub, which: WhichMatch::Number(n) })
                    } else {
                        Err(RedError::ParameterSyntax { parameter: p.to_string() })
                    },
                    None => Err(RedError::ParameterSyntax { parameter: p.to_string() }),
                }
            }
        },
    }
}

/// The pattern and command list of a global parameter `/pattern/commands`,
/// where the first character is the delimiter.
pub open spec fn global_param_spec(p: Seq<char>) -> Option<(Seq<char>, Seq<char>)> {
    if p.len() == 0 {
        None
    } else {
        match first_char_from(p, p[0], 1) {
            None => None,
            Some(a) => Some((p.subrange(1, a), p.subrange(a + 1, p.len() as int))),
        }
    }
}

/// Split a global parameter into its pattern and its command list.
pub fn parse_global_op(p: &str) -> (r: Result<(String, String), RedError>)
    ensures
        match r {
            Ok((pattern, commands)) => global_param_spec(p@) == Some((pattern@, commands@)),
            Err(e) => global_param_spec(p@) is None && (e matches RedError::ParameterSyntax { parameter } && parameter@ == p@),
        },
{
    let len = p.unicode_len();
    if len == 0 {
        return Err(RedError::ParameterSyntax { parameter: p.to_string() });
    }
    let d = p.get_char(0);
    match find_char(p, d, 1) {
        Some(a) => Ok((p.substring_char(1, a).to_string(), p.substring_char(a + 1, len).to_string())),
        None => Err(RedError::ParameterSyntax { parameter: p.to_string() }),
    }
}

/// Return the pair of addresses an operation receives: the command's own,
/// or the operation's defaults when both are 0, or from line 1 when only
/// the first is 0.
pub fn default_addrs(state: &EditorState, command: &Command, data: &OpData) -> (r: (usize, usize))
    requires
        state.wf(),
    ensures
        r == defaulted(*command, *data, state.buffer.cursor(), state.buffer.len() as usize),
{
    let cur = state.buffer.get_current_address();
    let total = state.buffer.num_lines();
    if command.address_initial == 0 {
        if command.address_final == 0 {
            (notable_line(data.default_initial_address, cur, total), notable_line(data.default_final_address, cur, total))
        } else {
            (1, command.address_final)
        }
    } else {
        (command.address_initial, command.address_final)
    }
}

fn notable_line(n: NotableLine, cur: usize, total: usize) -> (r: usize)
    ensures
        r == notable(n, cur, total),
{
    match n {
        NotableLine::FirstLine => 1,
        NotableLine::LastLine => total,
        NotableLine::CurrentLine => cur,
        NotableLine::CurrentPlusOneLine => if cur < usize::MAX { cur + 1 } else { cur },
        NotableLine::LineNotApplicable => 1,
    }
}


/// The last effect queued is the only change.
pub open spec fn queued(old: EditorState, new: EditorState) -> bool {
    &&& new.buffer == old.buffer
    &&& new.undo == old.undo
    &&& new.effects@.len() == old.effects@.len() + 1
    &&& new.effects@.subrange(0, old.effects@.len() as int) == old.effects@
}

pub open spec fn last_effect(s: EditorState) -> Effect {
    s.effects@.last()
}

/// `e` asks to write lines `[i, f]` to `name`.
pub open spec fn is_write(e: Effect, name: Seq<char>, append: bool, i: usize, f: usize) -> bool {
    match e {
        Effect::Write { file_name, append: a, first, last } => file_name@ == name && a == append && first == i && last == f,
        _ => false,
    }
}

/// `e` asks to edit `src`.
pub open spec fn is_edit(e: Effect, src: Seq<char>, checked: bool) -> bool {
    match e {
        Effect::Edit { source, checked: c } => source@ == src && c == checked,
        _ => false,
    }
}

/// `e` asks for the interactive global loop.
pub open spec fn is_interactive(e: Effect, pat: Seq<char>, inverse: bool, i: usize, f: usize) -> bool {
    match e {
        Effect::Interactive { pattern, inverse: v, first, last } => pattern@ == pat && v == inverse && first == i && last == f,
        _ => false,
    }
}

/// The destination a parameter names in buffer `b`.
pub open spec fn dest_spec(params: Seq<char>, b: Buffer) -> Option<usize> {
    if params == seq!['0'] {
        Some(0)
    } else {
        match field_value(params, b) {
            Some(Some(v)) => Some(v),
            Some(None) => Some(b.cursor()),
            None => None,
        }
    }
}

/// The line at `a` as a search sees it: empty outside the buffer.
pub open spec fn line_at(b: Buffer, a: int) -> Seq<char> {
    if 1 <= a <= b.len() { b.text()[a - 1] } else { Seq::empty() }
}

/// No line of `[i, f]` is selected by a global command on `pat`.
pub open spec fn none_selected(pat: Seq<char>, b: Buffer, i: usize, f: usize, inverse: bool) -> bool {
    forall|a: int| i <= a <= f ==> #[trigger] crate::pattern::regex_is_match(pat, line_at(b, a)) == inverse
}

/// The lines of `[i, f]` that a global command on `pat` selects, in order.
pub open spec fn selected_lines(pat: Seq<char>, b: Buffer, i: int, f: int, inverse: bool) -> Seq<Seq<char>>
    decreases f - i + 1,
{
    if f < i {
        Seq::empty()
    } else {
        let prev = selected_lines(pat, b, i, f - 1, inverse);
        if crate::pattern::regex_is_match(pat, line_at(b, f)) != inverse {
            prev.push(line_at(b, f))
        } else {
            prev
        }
    }
}

/// `effects` print `lines`, one each, in order.
pub open spec fn prints_each(effects: Seq<Effect>, lines: Seq<Seq<char>>) -> bool {
    &&& effects.len() == lines.len()
    &&& forall|k: int| 0 <= k < lines.len() ==> prints(#[trigger] effects[k], lines[k])
}

/// A global command on `pat` with an empty command list, over lines
/// `[i, f]` of the buffer, prints each selected line in order and changes
/// no line.
pub open spec fn prints_selected(
    pat: Seq<char>,
    cmds: Seq<char>,
    old: EditorState,
    new: EditorState,
    i: usize,
    f: usize,
    inverse: bool,
    r: Result<(), RedError>,
) -> bool {
    crate::format::lines_of(cmds).len() == 0 && 1 <= i && f <= old.buffer.len() && old.buffer.len() < usize::MAX ==> {
        &&& r is Ok
        &&& new.buffer.text() == old.buffer.text()
        &&& new.effects@.subrange(0, old.effects@.len() as int) == old.effects@
        &&& prints_each(
            new.effects@.subrange(old.effects@.len() as int, new.effects@.len() as int),
            selected_lines(pat, old.buffer, i as int, f as int, inverse),
        )
    }
}


/// Whether `op` is one of the global commands.
pub open spec fn is_global_op(op: Operation) -> bool {
    op == Operation::Global || op == Operation::GlobalInverse || op == Operation::GlobalInteractive || op
        == Operation::GlobalInverseInteractive
}

/// The addresses a command of a list receives when run at `address`:
/// that line alone, or the operation's defaults at address 0.
pub open spec fn list_addrs(d: OpData, address: usize, cur: usize, total: usize) -> (usize, usize) {
    if address == 0 {
        (notable(d.default_initial_address, cur, total), notable(d.default_final_address, cur, total))
    } else {
        (address, address)
    }
}

/// The lines of a command list as they are run: a list with no line runs
/// one blank line, which prints.
pub open spec fn list_lines(cmds: Seq<char>) -> Seq<Seq<char>> {
    if crate::format::lines_of(cmds).len() == 0 {
        seq![Seq::<char>::empty()]
    } else {
        crate::format::lines_of(cmds)
    }
}

/// Running one line of a command list at `address`: a blank line prints;
/// any other line is parsed as `parse_command` does, and its operation
/// runs on `address` alone, globals being refused.
pub open spec fn step_done(old: EditorState, new: EditorState, line: Seq<char>, address: usize, r: Result<(), RedError>) -> bool {
    let t = crate::text::trimmed(line);
    if t.len() == 0 {
        let d = op_table()[16];
        let (i, f) = list_addrs(d, address, old.buffer.cursor(), old.buffer.len() as usize);
        plain_done(d, old, new, i, f, Seq::empty(), r)
    } else {
        match crate::parse::first_op_from(t, 0) {
            None => r == Err::<(), RedError>(RedError::OpCharIndex) && new == old,
            Some(k) => if crate::text::trimmed(t.subrange(0, k)).len() > 0 && crate::parse::range_value(
                t.subrange(0, k),
                old.buffer,
            ) is None {
                (r matches Err(RedError::AddressSyntax { .. })) && new == old
            } else {
                match lookup_from(op_table(), t[k], 0) {
                    None => r == Err::<(), RedError>(RedError::InvalidOperation { operation: t[k] }) && new == old,
                    Some(d) => if is_global_op(d.operation) {
                        r == Err::<(), RedError>(RedError::InvalidOperation { operation: d.key }) && new == old
                    } else {
                        let (i, f) = list_addrs(d, address, old.buffer.cursor(), old.buffer.len() as usize);
                        plain_done(d, old, new, i, f, crate::text::trimmed(t.subrange(k + 1, t.len() as int)), r)
                    },
                }
            },
        }
    }
}

/// `new` is `old` with the cursor moved to `address`, or to the last line
/// when `address` is past it.
pub open spec fn cursor_set(old: EditorState, new: EditorState, address: usize) -> bool {
    &&& new.buffer.wf()
    &&& new.buffer.text() == old.buffer.text()
    &&& new.buffer.marks() == old.buffer.marks()
    &&& new.buffer.cursor() == if address < old.buffer.len() { address as int } else { old.buffer.len() as int }
    &&& new.buffer.modified_flag() == old.buffer.modified_flag()
    &&& new.buffer.file_path() == old.buffer.file_path()
    &&& new.buffer.mirror_path() == old.buffer.mirror_path()
    &&& new.undo == old.undo
    &&& new.mode == old.mode
    &&& new.effects == old.effects
    &&& new.show_help == old.show_help
    &&& new.show_messages == old.show_messages
}

/// Running the lines `cmds` at `address` one after another: each line
/// runs as `step_done` says, then the cursor returns to `address`; the
/// first failure stops the list and is the result.
pub open spec fn list_done(old: EditorState, new: EditorState, cmds: Seq<Seq<char>>, address: usize, r: Result<(), RedError>) -> bool
    decreases cmds.len(),
{
    if cmds.len() == 0 {
        new == old && r is Ok
    } else {
        exists|mid: EditorState, r0: Result<(), RedError>|
            #[trigger] step_done(old, mid, cmds[0], address, r0) && if r0 is Err {
                r == r0 && new == mid
            } else {
                exists|mid2: EditorState| #[trigger] cursor_set(mid, mid2, address) && list_done(mid2, new, cmds.drop_first(), address, r)
            }
    }
}

/// Running a global command on `pat` with command list `cmds` over lines
/// `[a, f]`: each line the pattern selects (or, when `inverse`, does not),
/// checked when its turn comes, runs the list at that line; the first
/// failure stops the command and is the result.
pub open spec fn global_done(
    pat: Seq<char>,
    cmds: Seq<char>,
    old: EditorState,
    new: EditorState,
    a: int,
    f: int,
    inverse: bool,
    r: Result<(), RedError>,
) -> bool
    decreases f - a + 1,
{
    if a > f {
        new == old && r is Ok
    } else if crate::pattern::regex_is_match(pat, line_at(old.buffer, a)) == inverse {
        global_done(pat, cmds, old, new, a + 1, f, inverse, r)
    } else {
        exists|mid: EditorState, r0: Result<(), RedError>|
            #[trigger] list_done(old, mid, list_lines(cmds), a as usize, r0) && if r0 is Err {
                r == r0 && new == mid
            } else {
                global_done(pat, cmds, mid, new, a + 1, f, inverse, r)
            }
    }
}

/// What running an operation other than a global command on `[i, f]` with
/// parameters `params` does.
pub open spec fn plain_done(
    op: OpData,
    old: EditorState,
    new: EditorState,
    i: usize,
    f: usize,
    params: Seq<char>,
    r: Result<(), RedError>,
) -> bool {
    let unchanged_err = r is Err && new == old;
    let refused = r == Err::<(), RedError>(RedError::InvalidOperation { operation: op.key }) && new == old;
    match op.operation {
        Operation::Append => r is Ok && new.buffer.text() == old.buffer.text() && new.mode == EditorMode::Insert && undo_step(old, new)
            && new.buffer.cursor() == if f < old.buffer.len() { f as int } else { old.buffer.len() as int },
        Operation::Insert => r is Ok && new.buffer.text() == old.buffer.text() && new.mode == EditorMode::Insert && undo_step(old, new)
            && new.buffer.cursor() == if f >= 1 && f - 1 < old.buffer.len() {
            f - 1
        } else if f == 0 {
            0
        } else {
            old.buffer.len() as int
        },
        Operation::Change => change_done(old, new, i, f, r),
        Operation::Delete => delete_done(old, new, i, f, r),
        Operation::Join => join_done(old, new, i, f, r),
        Operation::Mark => mark_done(old, new, f, params, r),
        Operation::Move => match dest_spec(params, old.buffer) {
            Some(d) => move_done(old, new, i, f, d, r),
            None => unchanged_err,
        },
        Operation::Transfer => match dest_spec(params, old.buffer) {
            Some(d) => transfer_done(old, new, i, f, d, r),
            None => unchanged_err,
        },
        Operation::Substitute => match crate::ops::sub_param_spec(params) {
            Some((m, rep, w)) => substitute_done(old, new, i, f, m, rep, w, r),
            None => unchanged_err,
        },
        Operation::Undo => undo_done(old, new, r),
        Operation::Print => print_done(old, new, i, f, r),
        Operation::PrintNumbered => print_numbered_done(old, new, i, f, r),
        Operation::List => if addresses_ok(i, f, old.buffer.len() as usize) {
            r is Ok && queued(old, new) && last_effect(new) == (Effect::List { first: i, last: f })
        } else {
            unchanged_err
        },
        Operation::WriteToDisk | Operation::AppendToDisk => if addresses_ok(i, f, old.buffer.len() as usize) || (i == 1
            && f == old.buffer.len()) {
            r is Ok && queued(old, new) && is_write(last_effect(new), params, op.operation == Operation::AppendToDisk, i, f)
        } else {
            unchanged_err
        },
        Operation::Edit | Operation::EditUnsafe => r is Ok && queued(old, new) && is_edit(
            last_effect(new),
            params,
            op.operation == Operation::Edit,
        ),
        Operation::Filename => r is Ok && queued(old, new) && if params.len() == 0 {
            last_effect(new) == Effect::ShowFilename
        } else {
            last_effect(new) matches Effect::SetFilename(name) && name@ == params
        },
        Operation::Quit => r is Ok && queued(old, new) && last_effect(new) == Effect::Quit,
        Operation::HelpToggle => r is Ok && new.buffer == old.buffer && new.undo == old.undo && new.show_help == !old.show_help,
        Operation::HelpRecall | Operation::Prompt | Operation::Read => refused,
        _ => refused,
    }
}

/// What running operation `op` on `[i, f]` with parameters `params` does.
/// `nested` is true inside a global command, where globals are refused.
pub open spec fn op_done(
    op: OpData,
    old: EditorState,
    new: EditorState,
    i: usize,
    f: usize,
    params: Seq<char>,
    nested: bool,
    r: Result<(), RedError>,
) -> bool {
    let unchanged_err = r is Err && new == old;
    let refused = r == Err::<(), RedError>(RedError::InvalidOperation { operation: op.key }) && new == old;
    match op.operation {
        Operation::Global | Operation::GlobalInverse => if nested {
            refused
        } else {
            match global_param_spec(params) {
                Some((pat, cmds)) => if !regex_compiles(pat) {
                    unchanged_err
                } else {
                    &&& none_selected(pat, old.buffer, i, f, op.operation == Operation::GlobalInverse) ==> r is Ok && new == old
                    &&& prints_selected(pat, cmds, old, new, i, f, op.operation == Operation::GlobalInverse, r)
                    &&& global_done(pat, cmds, old, new, i as int, f as int, op.operation == Operation::GlobalInverse, r)
                },
                None => unchanged_err,
            }
        },
        Operation::GlobalInteractive | Operation::GlobalInverseInteractive => if nested {
            refused
        } else {
            match global_param_spec(params) {
                Some((pat, cmds)) => if cmds.len() == 0 && regex_compiles(pat) {
                    r is Ok && queued(old, new) && is_interactive(
                        last_effect(new),
                        pat,
                        op.operation == Operation::GlobalInverseInteractive,
                        i,
                        f,
                    )
                } else {
                    unchanged_err
                },
                None => unchanged_err,
            }
        },
        _ => plain_done(op, old, new, i, f, params, r),
    }
}

fn queue(state: &mut EditorState, e: Effect)
    ensures
        queued(*old(state), *final(state)),
        last_effect(*final(state)) == e,
        final(state).mode == old(state).mode,
        final(state).show_help == old(state).show_help,
{
    state.effects.push(e);
    proof {
        assert(state.effects@.subrange(0, old(state).effects@.len() as int) =~= old(state).effects@);
    }
}

impl Operations {
    /// Run operation `op` on `[i, f]`.
    fn run(&self, state: &mut EditorState, op: OpData, i: usize, f: usize, params: &str, nested: bool) -> (r: Result<(), RedError>)
        requires
            old(state).wf(),
            self.table() == op_table(),
        ensures
            final(state).wf(),
            op_done(op, *old(state), *final(state), i, f, params@, nested, r),
        decreases (if nested { 0int } else { 1int }), 3int,
    {
        match op.operation {
            Operation::Append => {
                append(state, f);
                Ok(())
            },
            Operation::Insert => {
                insert(state, f);
                Ok(())
            },
            Operation::Change => change(state, i, f),
            Operation::Delete => delete(state, i, f),
            Operation::Join => join(state, i, f),
            Operation::Mark => mark(state, f, params),
            Operation::Move => {
                let d = destination_of(params, &state.buffer)?;
                move_lines(state, i, f, d)
            },
            Operation::Transfer => {
                let d = destination_of(params, &state.buffer)?;
                transfer(state, i, f, d)
            },
            Operation::Substitute => {
                let sub = match parse_substitution_parameter(params) {
                    Ok(sub) => sub,
                    Err(e) => {
                        return Err(e);
                    },
                };
                substitute(state, i, f, &sub)
            },
            Operation::Undo => undo(state),
            Operation::Print => print(state, i, f),
            Operation::PrintNumbered => print_numbered(state, i, f),
            Operation::List => {
                let total = state.buffer.num_lines();
                if !crate::error::assert_addresses(i, f, total) {
                    return Err(range_err(i, f, total));
                }
                queue(state, Effect::List { first: i, last: f });
                Ok(())
            },
            Operation::WriteToDisk | Operation::AppendToDisk => {
                let total = state.buffer.num_lines();
                if !crate::error::assert_addresses(i, f, total) && !(i == 1 && f == total) {
                    return Err(range_err(i, f, total));
                }
                let append = match op.operation {
                    Operation::AppendToDisk => true,
                    _ => false,
                };
                queue(state, Effect::Write { file_name: params.to_string(), append, first: i, last: f });
                Ok(())
            },
            Operation::Edit | Operation::EditUnsafe => {
                let checked = match op.operation {
                    Operation::Edit => true,
                    _ => false,
                };
                queue(state, Effect::Edit { source: params.to_string(), checked });
                Ok(())
            },
            Operation::Filename => {
                if params.unicode_len() == 0 {
                    queue(state, Effect::ShowFilename);
                } else {
                    queue(state, Effect::SetFilename(params.to_string()));
                }
                Ok(())
            },
            Operation::Quit => {
                queue(state, Effect::Quit);
                Ok(())
            },
            Operation::HelpToggle => {
                state.show_help = !state.show_help;
                Ok(())
            },
            Operation::HelpRecall | Operation::Prompt | Operation::Read => Err(RedError::InvalidOperation { operation: op.key }),
            Operation::Global | Operation::GlobalInverse => {
                if nested {
                    return Err(RedError::InvalidOperation { operation: op.key });
                }
                let inverse = match op.operation {
                    Operation::GlobalInverse => true,
                    _ => false,
                };
                self.global(state, i, f, params, inverse)
            },
            Operation::GlobalInteractive | Operation::GlobalInverseInteractive => {
                if nested {
                    return Err(RedError::InvalidOperation { operation: op.key });
                }
                let (pattern, commands) = match parse_global_op(params) {
                    Ok(x) => x,
                    Err(e) => {
                        return Err(e);
                    },
                };
                if commands.unicode_len() != 0 {
                    return Err(RedError::ParameterSyntax { parameter: params.to_string() });
                }
                if crate::pattern::compile(pattern.as_str()).is_none() {
                    return Err(RedError::ParameterSyntax { parameter: pattern });
                }
                let inverse = match op.operation {
                    Operation::GlobalInverseInteractive => true,
                    _ => false,
                };
                queue(state, Effect::Interactive { pattern, inverse, first: i, last: f });
                Ok(())
            },
        }
    }

    /// Run the command list `commands` at each line of `[i, f]` that
    /// matches the pattern (or, when `inverse`, does not).
    fn global(&self, state: &mut EditorState, i: usize, f: usize, params: &str, inverse: bool) -> (r: Result<(), RedError>)
        requires
            old(state).wf(),
            self.table() == op_table(),
        ensures
            final(state).wf(),
            match global_param_spec(params@) {
                Some((pat, cmds)) => if !regex_compiles(pat) {
                    r is Err && *final(state) == *old(state)
                } else {
                    &&& none_selected(pat, old(state).buffer, i, f, inverse) ==> r is Ok && *final(state) == *old(state)
                    &&& prints_selected(pat, cmds, *old(state), *final(state), i, f, inverse, r)
                    &&& global_done(pat, cmds, *old(state), *final(state), i as int, f as int, inverse, r)
                },
                None => r is Err && *final(state) == *old(state),
            },
        decreases 1int, 2int,
    {
        let (pattern, commands) = match parse_global_op(params) {
            Ok(x) => x,
            Err(e) => {
                return Err(e);
            },
        };
        let p = match crate::pattern::compile(pattern.as_str()) {
            Some(p) => p,
            None => {
                return Err(RedError::ParameterSyntax { parameter: pattern });
            },
        };
        let ghost e0 = old(state).effects@;
        let ghost po = crate::format::lines_of(commands@).len() == 0 && 1 <= i && f <= old(state).buffer.len()
            && old(state).buffer.len() < usize::MAX;
        if i > f {
            proof {
                assert(global_done(pattern@, commands@, *state, *state, i as int, f as int, inverse, Ok(())));
                assert(state.effects@.subrange(e0.len() as int, e0.len() as int) =~= Seq::<Effect>::empty());
                assert(state.effects@.subrange(0, e0.len() as int) =~= e0);
            }
            return Ok(());
        }
        let mut a = i;
        proof {
            assert(state.effects@.subrange(e0.len() as int, e0.len() as int) =~= Seq::<Effect>::empty());
            assert(state.effects@.subrange(0, e0.len() as int) =~= e0);
        }
        loop
            invariant
                state.wf(),
                i <= a <= f,
                self.table() == op_table(),
                global_param_spec(params@) == Some((pattern@, commands@)),
                regex_compiles(pattern@),
                p.source() == pattern@,
                e0 == old(state).effects@,
                po == (crate::format::lines_of(commands@).len() == 0 && 1 <= i && f <= old(state).buffer.len()
                    && old(state).buffer.len() < usize::MAX),
                none_selected(pattern@, old(state).buffer, i, f, inverse) ==> *state == *old(state),
                forall|n: EditorState, rr: Result<(), RedError>|
                    #[trigger] global_done(pattern@, commands@, *state, n, a as int, f as int, inverse, rr) ==> global_done(
                        pattern@,
                        commands@,
                        *old(state),
                        n,
                        i as int,
                        f as int,
                        inverse,
                        rr,
                    ),
                po ==> {
                    &&& state.buffer.text() == old(state).buffer.text()
                    &&& state.effects@.len() >= e0.len()
                    &&& state.effects@.subrange(0, e0.len() as int) == e0
                    &&& prints_each(
                        state.effects@.subrange(e0.len() as int, state.effects@.len() as int),
                        selected_lines(pattern@, old(state).buffer, i as int, a - 1, inverse),
                    )
                },
            decreases f - a,
        {
            let ghost before = state.effects@;
            let ghost sk = *state;
            let sel = state.buffer.matches_line(&p, a) != inverse;
            if sel {
                proof {
                    if none_selected(pattern@, old(state).buffer, i, f, inverse) {
                        assert(crate::pattern::regex_is_match(pattern@, line_at(old(state).buffer, a as int)) == inverse);
                    }
                }
                let res = self.execute_list(state, commands.as_str(), a);
                if res.is_err() {
                    proof {
                        assert((a as int) as usize == a);
                        assert(list_done(sk, *state, list_lines(commands@), a, res));
                        assert(global_done(pattern@, commands@, sk, *state, a as int, f as int, inverse, res));
                    }
                    return res;
                }
                proof {
                    assert((a as int) as usize == a);
                    assert(res is Ok);
                    assert(list_done(sk, *state, list_lines(commands@), a, res));
                    assert forall|n: EditorState, rr: Result<(), RedError>|
                        #[trigger] global_done(pattern@, commands@, *state, n, a + 1, f as int, inverse, rr) implies global_done(
                        pattern@,
                        commands@,
                        *old(state),
                        n,
                        i as int,
                        f as int,
                        inverse,
                        rr,
                    ) by {
                        assert(list_done(sk, *state, list_lines(commands@), (a as int) as usize, res));
                        assert(global_done(pattern@, commands@, sk, n, a as int, f as int, inverse, rr));
                    }
                }
            } else {
                proof {
                    assert forall|n: EditorState, rr: Result<(), RedError>|
                        #[trigger] global_done(pattern@, commands@, *state, n, a + 1, f as int, inverse, rr) implies global_done(
                        pattern@,
                        commands@,
                        *old(state),
                        n,
                        i as int,
                        f as int,
                        inverse,
                        rr,
                    ) by {
                        assert(global_done(pattern@, commands@, sk, n, a as int, f as int, inverse, rr));
                    }
                }
            }

            proof {
                if po {
                    let prev = selected_lines(pattern@, old(state).buffer, i as int, a - 1, inverse);
                    assert(line_at(state.buffer, a as int) == line_at(old(state).buffer, a as int));
                    if sel {
                        let e = state.effects@.last();
                        assert(state.effects@ == before.push(e));
                        assert(prints(e, old(state).buffer.text()[a - 1]));
                        assert(state.effects@.subrange(0, e0.len() as int) =~= e0);
                        assert(state.effects@.subrange(e0.len() as int, state.effects@.len() as int) =~= before.subrange(
                            e0.len() as int,
                            before.len() as int,
                        ).push(e));
                        assert(selected_lines(pattern@, old(state).buffer, i as int, a as int, inverse) == prev.push(
                            line_at(old(state).buffer, a as int),
                        ));
                    } else {
                        assert(selected_lines(pattern@, old(state).buffer, i as int, a as int, inverse) == prev);
                    }
                }
            }
            if a == f {
                proof {
                    assert(global_done(pattern@, commands@, *state, *state, a + 1, f as int, inverse, Ok(())));
                }
                return Ok(());
            }
            a += 1;
        }
    }

    /// Run each line of `commands` with `address` as its only address; a
    /// blank line, or no line at all, prints. Commands here may not be
    /// globals. Stops at the first failure.
    pub fn execute_list(&self, state: &mut EditorState, commands: &str, address: usize) -> (r: Result<(), RedError>)
        requires
            old(state).wf(),
            self.table() == op_table(),
        ensures
            final(state).wf(),
            list_done(*old(state), *final(state), list_lines(commands@), address, r),
            r is Ok ==> final(state).buffer.cursor() == if address < final(state).buffer.len() {
                address as int
            } else {
                final(state).buffer.len() as int
            },
            crate::format::lines_of(commands@).len() == 0 && address >= 1 ==> {
                &&& r is Ok == (addresses_ok(address, address, old(state).buffer.len() as usize) && old(state).buffer.len() < usize::MAX)
                &&& r is Ok ==> final(state).buffer.text() == old(state).buffer.text() && final(state).effects@ == old(state).effects@.push(
                    final(state).effects@.last(),
                ) && prints(final(state).effects@.last(), old(state).buffer.text()[address - 1])
            },
        decreases 1int, 1int,
    {
        let lines = crate::format::split_lines(commands);
        let ghost cmds = list_lines(commands@);
        let ghost s0 = *state;
        if lines.len() == 0 {
            let command = Command { address_initial: address, address_final: address, operation: 'p', parameters: String::new() };
            proof {
                reveal_with_fuel(lookup_from, 17);
                assert(lookup_from(self.table(), 'p', 0) == Some(op_table()[16]));
            }
            let res = self.execute_nested(state, command);
            proof {
                assert(crate::text::trimmed(Seq::<char>::empty()) =~= Seq::<char>::empty());
                assert(cmds[0] == Seq::<char>::empty());
                assert(step_done(s0, *state, cmds[0], address, res));
            }
            match res {
                Err(e) => {
                    return Err(e);
                },
                Ok(()) => {},
            }
            let ghost mid = *state;
            proof {
                if address >= 1 {
                    assert(print_done(*old(state), *state, address, address, Ok(())));
                    assert(prints(state.effects@[old(state).effects@.len() + 0int], old(state).buffer.text()[address - 1 + 0]));
                    assert(state.effects@.last() == state.effects@[old(state).effects@.len() as int]);
                    assert(state.effects@ =~= old(state).effects@.push(state.effects@.last()));
                }
            }
            state.buffer.set_current_address(address);
            proof {
                assert(cursor_set(mid, *state, address));
                assert(cmds.drop_first() =~= Seq::<Seq<char>>::empty());
                assert(list_done(*state, *state, cmds.drop_first(), address, Ok(())));
            }
            return Ok(());
        }
        let mut k: usize = 0;
        proof {
            assert(cmds.subrange(0, cmds.len() as int) =~= cmds);
        }
        while k < lines.len()
            invariant
                state.wf(),
                0 <= k <= lines@.len(),
                lines@.len() > 0,
                crate::pattern::strings_view(lines@) == crate::format::lines_of(commands@),
                self.table() == op_table(),
                k > 0 ==> state.buffer.cursor() == if address < state.buffer.len() {
                    address as int
                } else {
                    state.buffer.len() as int
                },
                cmds == list_lines(commands@),
                cmds == crate::format::lines_of(commands@),
                s0 == *old(state),
                forall|n: EditorState, rr: Result<(), RedError>|
                    #[trigger] list_done(*state, n, cmds.subrange(k as int, cmds.len() as int), address, rr) ==> list_done(
                        s0,
                        n,
                        cmds,
                        address,
                        rr,
                    ),
            decreases lines@.len() - k,
        {
            let ghost sk = *state;
            let ghost rest = cmds.subrange(k as int, cmds.len() as int);
            proof {
                assert(rest[0] == cmds[k as int]);
                assert(rest.drop_first() =~= cmds.subrange(k + 1, cmds.len() as int));
                assert(lines@[k as int]@ == cmds[k as int]);
            }
            let cmd = lines[k].as_str();
            let blank = crate::text::trim(cmd).unicode_len() == 0;
            let command = if blank {
                proof {
                    reveal_with_fuel(lookup_from, 17);
                    assert(lookup_from(self.table(), 'p', 0) == Some(op_table()[16]));
                }
                Command { address_initial: address, address_final: address, operation: 'p', parameters: String::new() }
            } else {
                match parse_command(cmd, &state.buffer) {
                    Ok(parsed) => Command {
                        address_initial: address,
                        address_final: address,
                        operation: parsed.operation,
                        parameters: parsed.parameters,
                    },
                    Err(e) => {
                        proof {
                            assert(step_done(sk, *state, rest[0], address, Err(e)));
                            assert(list_done(sk, *state, rest, address, Err(e)));
                        }
                        return Err(e);
                    },
                }
            };
            let res = self.execute_nested(state, command);
            proof {
                assert(step_done(sk, *state, rest[0], address, res));
            }
            match res {
                Err(e) => {
                    proof {
                        assert(list_done(sk, *state, rest, address, res));
                    }
                    return Err(e);
                },
                Ok(()) => {},
            }
            let ghost mid = *state;
            state.buffer.set_current_address(address);
            proof {
                assert(cursor_set(mid, *state, address));
                assert forall|n: EditorState, rr: Result<(), RedError>|
                    #[trigger] list_done(*state, n, cmds.subrange(k + 1, cmds.len() as int), address, rr) implies list_done(
                    s0,
                    n,
                    cmds,
                    address,
                    rr,
                ) by {
                    assert(list_done(sk, n, rest, address, rr));
                }
            }
            k += 1;
        }
        proof {
            assert(cmds.subrange(k as int, cmds.len() as int) =~= Seq::<Seq<char>>::empty());
            assert(list_done(*state, *state, cmds.subrange(k as int, cmds.len() as int), address, Ok(())));
        }
        Ok(())
    }

    /// Execute one command inside a global command.
    fn execute_nested(&self, state: &mut EditorState, command: Command) -> (r: Result<(), RedError>)
        requires
            old(state).wf(),
            self.table() == op_table(),
        ensures
            final(state).wf(),
            match lookup_from(self.table(), command.operation, 0) {
                None => r == Err::<(), RedError>(RedError::InvalidOperation { operation: command.operation })
                    && *final(state) == *old(state),
                Some(d) => {
                    let (i, f) = defaulted(command, d, old(state).buffer.cursor(), old(state).buffer.len() as usize);
                    op_done(d, *old(state), *final(state), i, f, command.parameters@, true, r)
                },
            },
        decreases 1int, 0int,
    {
        match self.lookup(command.operation) {
            None => Err(RedError::InvalidOperation { operation: command.operation }),
            Some(d) => {
                let (i, f) = default_addrs(state, &command, &d);
                self.run(state, d, i, f, command.parameters.as_str(), true)
            },
        }
    }

    /// Execute a parsed command: look up its operation, fill in default
    /// addresses, and run it.
    pub fn execute(&self, state: &mut EditorState, command: Command) -> (r: Result<(), RedError>)
        requires
            old(state).wf(),
            self.table() == op_table(),
        ensures
            final(state).wf(),
            match lookup_from(self.table(), command.operation, 0) {
                None => r == Err::<(), RedError>(RedError::InvalidOperation { operation: command.operation })
                    && *final(state) == *old(state),
                Some(d) => {
                    let (i, f) = defaulted(command, d, old(state).buffer.cursor(), old(state).buffer.len() as usize);
                    op_done(d, *old(state), *final(state), i, f, command.parameters@, false, r)
                },
            },
    {
        match self.lookup(command.operation) {
            None => Err(RedError::InvalidOperation { operation: command.operation }),
            Some(d) => {
                let (i, f) = default_addrs(state, &command, &d);
                self.run(state, d, i, f, command.parameters.as_str(), false)
            },
        }
    }
}


/// The mode, unchanged.
pub fn mode_noop(mode: &mut EditorMode) -> (m: EditorMode)
    ensures
        m == *old(mode),
        *final(mode) == *old(mode),
{
    *mode
}

} // verus!
