//! Quote and bracket awareness for splitting command lines into words.
use vstd::prelude::*;
use vstd::string::*;

use crate::text::{is_blank, trimmed, trim};

verus! {

/// Which quote character `c` is: `"`, `'` or a backtick; -1 otherwise.
pub open spec fn quote_kind(c: char) -> int {
    if c == '"' { 0 } else if c == '\'' { 1 } else if c == '`' { 2 } else { -1 }
}

/// Which opening bracket `c` is: `(`, `[` or `{`; -1 otherwise.
pub open spec fn bra_kind(c: char) -> int {
    if c == '(' { 0 } else if c == '[' { 1 } else if c == '{' { 2 } else { -1 }
}

/// Which closing bracket `c` is: `)`, `]` or `}`; -1 otherwise.
pub open spec fn ket_kind(c: char) -> int {
    if c == ')' { 0 } else if c == ']' { 1 } else if c == '}' { 2 } else { -1 }
}

/// What is open after reading a prefix: which quotes, how deep each kind of
/// bracket, and whether the last character was an unpaired backslash.
pub struct QuoteState {
    pub quotes: Seq<bool>,
    pub depth: Seq<int>,
    pub escaped: bool,
}

pub open spec fn quote_start() -> QuoteState {
    QuoteState { quotes: seq![false, false, false], depth: seq![0int, 0, 0], escaped: false }
}

pub open spec fn no_quote_open(st: QuoteState) -> bool {
    !st.quotes[0] && !st.quotes[1] && !st.quotes[2]
}

/// Reading one character. A backslash escapes the next character. An
/// unescaped quote opens or closes its kind. Outside quotes, an unescaped
/// bracket opens or closes its kind.
pub open spec fn quote_step(st: QuoteState, c: char) -> QuoteState {
    if c == '\\' {
        QuoteState { escaped: !st.escaped, ..st }
    } else if quote_kind(c) >= 0 {
        QuoteState {
            quotes: if !st.escaped {
                st.quotes.update(quote_kind(c), !st.quotes[quote_kind(c)])
            } else {
                st.quotes
            },
            escaped: false,
            ..st
        }
    } else if bra_kind(c) >= 0 && no_quote_open(st) {
        QuoteState {
            depth: if !st.escaped {
                st.depth.update(bra_kind(c), st.depth[bra_kind(c)] + 1)
            } else {
                st.depth
            },
            escaped: false,
            ..st
        }
    } else if ket_kind(c) >= 0 && no_quote_open(st) {
        QuoteState {
            depth: if !st.escaped {
                st.depth.update(ket_kind(c), st.depth[ket_kind(c)] - 1)
            } else {
                st.depth
            },
            escaped: false,
            ..st
        }
    } else {
        QuoteState { escaped: false, ..st }
    }
}

/// The state after reading all of `s`.
pub open spec fn quote_scan(s: Seq<char>) -> QuoteState
    decreases s.len(),
{
    if s.len() == 0 {
        quote_start()
    } else {
        quote_step(quote_scan(s.drop_last()), s.last())
    }
}

/// Whether a position preceded by `prefix` is quoted: it lies inside an
/// unclosed quote or an unclosed bracket, or comes right after an odd run
/// of backslashes.
pub open spec fn quoted(prefix: Seq<char>) -> bool {
    let st = quote_scan(prefix);
    st.escaped || !no_quote_open(st) || st.depth[0] > 0 || st.depth[1] > 0 || st.depth[2] > 0
}

struct QuoteCounter {
    quotes: Vec<bool>,
    opens: Vec<usize>,
    closes: Vec<usize>,
    escaped: bool,
}

impl QuoteCounter {
    spec fn view(&self) -> QuoteState {
        QuoteState {
            quotes: self.quotes@,
            depth: Seq::new(3, |i: int| self.opens@[i] - self.closes@[i]),
            escaped: self.escaped,
        }
    }

    spec fn wf(&self, bound: int) -> bool {
        &&& self.quotes@.len() == 3
        &&& self.opens@.len() == 3
        &&& self.closes@.len() == 3
        &&& forall|i: int| 0 <= i < 3 ==> #[trigger] self.opens@[i] <= bound && self.closes@[i] <= bound
    }

    fn kind_of(c: char, a: char, b: char, d: char) -> (k: usize)
        ensures
            k == if c == a { 0 } else if c == b { 1 } else if c == d { 2 } else { 3int },
    {
        if c == a { 0 } else if c == b { 1 } else if c == d { 2 } else { 3 }
    }

    fn step(&mut self, c: char, Ghost(bound): Ghost<int>)
        requires
            old(self).wf(bound),
            bound < usize::MAX,
        ensures
            final(self).wf(bound + 1),
            final(self).view() == quote_step(old(self).view(), c),
    {
        let ghost st = self.view();
        if c == '\\' {
            self.escaped = !self.escaped;
            assert(self.view() =~= quote_step(st, c));
            return;
        }
        let q = Self::kind_of(c, '"', '\'', '`');
        if q < 3 {
            if !self.escaped {
                let v = self.quotes[q];
                self.quotes.set(q, !v);
            }
            self.escaped = false;
            assert(self.view().quotes =~= quote_step(st, c).quotes);
            assert(self.view().depth =~= quote_step(st, c).depth);
            return;
        }
        let none_open = !self.quotes[0] && !self.quotes[1] && !self.quotes[2];
        let o = Self::kind_of(c, '(', '[', '{');
        let k = Self::kind_of(c, ')', ']', '}');
        if o < 3 && none_open {
            if !self.escaped {
                let v = self.opens[o];
                self.opens.set(o, v + 1);
            }
        } else if k < 3 && none_open {
            if !self.escaped {
                let v = self.closes[k];
                self.closes.set(k, v + 1);
            }
        }
        self.escaped = false;
        assert(self.view().quotes =~= quote_step(st, c).quotes);
        assert(self.view().depth =~= quote_step(st, c).depth);
    }
}

/// True when the character at `indx` lies inside an unclosed quote (`"`,
/// `'` or a backtick) or an unclosed bracket (`(`, `[` or `{`), reading
/// from the start of `text`, or right after an odd run of backslashes,
/// which escape it.
pub fn is_quoted(text: &str, indx: usize) -> (r: bool)
    requires
        indx <= text@.len(),
    ensures
        r == quoted(text@.subrange(0, indx as int)),
{
    let mut counter = QuoteCounter {
        quotes: vec![false, false, false],
        opens: vec![0usize, 0, 0],
        closes: vec![0usize, 0, 0],
        escaped: false,
    };
    proof {
        assert(counter.view().quotes =~= quote_start().quotes);
        assert(counter.view().depth =~= quote_start().depth);
        assert(text@.subrange(0, 0) =~= Seq::<char>::empty());
    }
    let mut i: usize = 0;
    while i < indx
        invariant
            0 <= i <= indx <= text@.len(),
            counter.wf(i as int),
            counter.view() == quote_scan(text@.subrange(0, i as int)),
        decreases indx - i,
    {
        let c = text.get_char(i);
        counter.step(c, Ghost(i as int));
        proof {
            assert(text@.subrange(0, i + 1).drop_last() =~= text@.subrange(0, i as int));
        }
        i += 1;
    }
    let st_quoted = counter.quotes[0] || counter.quotes[1] || counter.quotes[2];
    counter.escaped || st_quoted || counter.opens[0] > counter.closes[0] || counter.opens[1] > counter.closes[1]
        || counter.opens[2] > counter.closes[2]
}

/// The first blank of `s` at or after `from`, if any.
pub open spec fn first_blank_from(s: Seq<char>, from: int) -> Option<int>
    decreases s.len() - from,
{
    if from < 0 || from >= s.len() {
        None
    } else if is_blank(s[from]) {
        Some(from)
    } else {
        first_blank_from(s, from + 1)
    }
}

/// The command name and argument text of a command line: the trimmed line
/// is cut at its first blank.
pub open spec fn cmd_args_spec(line: Seq<char>) -> (Seq<char>, Seq<char>) {
    let t = trimmed(line);
    match first_blank_from(t, 0) {
        Some(x) => (trimmed(t.subrange(0, x)), trimmed(t.subrange(x, t.len() as int))),
        None => (t, Seq::empty()),
    }
}

/// Split a command line into the command and its argument text.
pub fn split_cmd_args(full: &str) -> (r: (String, String))
    ensures
        (r.0@, r.1@) == cmd_args_spec(full@),
{
    let input = trim(full);
    let len = input.unicode_len();
    let mut i: usize = 0;
    while i < len && !crate::text::is_blank_char(input.get_char(i))
        invariant
            0 <= i <= len,
            len == input@.len(),
            first_blank_from(input@, 0) == first_blank_from(input@, i as int),
        decreases len - i,
    {
        i += 1;
    }
    if i < len {
        let command = trim(input.substring_char(0, i));
        let arguments = trim(input.substring_char(i, len));
        (command.to_string(), arguments.to_string())
    } else {
        (input.to_string(), String::new())
    }
}

/// Splitting after reading `k` characters of `t`: the words found so far
/// and where the current word starts. A blank outside quotes and brackets
/// ends a word; runs of such blanks give no empty words.
pub open spec fn split_state(t: Seq<char>, k: int) -> (Seq<Seq<char>>, int)
    decreases k,
{
    if k <= 0 {
        (Seq::empty(), 0)
    } else {
        let (words, start) = split_state(t, k - 1);
        if is_blank(t[k - 1]) && !quoted(t.subrange(0, k - 1)) {
            (if k - 1 > start { words.push(t.subrange(start, k - 1)) } else { words }, k)
        } else {
            (words, start)
        }
    }
}

/// The words of `s`, split at blanks outside quotes and brackets.
pub open spec fn split_words(s: Seq<char>) -> Seq<Seq<char>> {
    let t = trimmed(s);
    let (words, start) = split_state(t, t.len() as int);
    if start < t.len() { words.push(t.subrange(start, t.len() as int)) } else { words }
}

proof fn lemma_split_start(t: Seq<char>, k: int)
    requires
        0 <= k <= t.len(),
    ensures
        0 <= split_state(t, k).1 <= k,
    decreases k,
{
    if k > 0 {
        lemma_split_start(t, k - 1);
    }
}

/// Split an argument string into words. A blank inside an unclosed quote
/// or bracket does not separate words; quote characters are kept.
pub fn split_args(stringed: &str) -> (r: Vec<String>)
    ensures
        r@.map_values(|w: String| w@) == split_words(stringed@),
{
    let t = trim(stringed);
    let len = t.unicode_len();
    let mut words: Vec<String> = Vec::new();
    let mut start: usize = 0;
    let mut k: usize = 0;
    while k < len
        invariant
            0 <= start <= k <= len,
            len == t@.len(),
            t@ == trimmed(stringed@),
            (words@.map_values(|w: String| w@), start as int) == split_state(t@, k as int),
        decreases len - k,
    {
        let c = t.get_char(k);
        if crate::text::is_blank_char(c) && !is_quoted(t, k) {
            if k > start {
                let w = t.substring_char(start, k).to_string();
                let ghost before = words@;
                words.push(w);
                proof {
                    assert(words@.map_values(|w: String| w@) =~= before.map_values(|w: String| w@).push(
                        t@.subrange(start as int, k as int),
                    ));
                }
            }
            start = k + 1;
        }
        k += 1;
    }
    if start < len {
        let w = t.substring_char(start, len).to_string();
        let ghost before = words@;
        words.push(w);
        proof {
            assert(words@.map_values(|w: String| w@) =~= before.map_values(|w: String| w@).push(
                t@.subrange(start as int, len as int),
            ));
        }
    }
    words
}

/// The program to run and its argument words, from a command line.
pub fn compose_command(full: &str) -> (r: (String, Vec<String>))
    ensures
        r.0@ == cmd_args_spec(full@).0,
        r.1@.map_values(|w: String| w@) == split_words(cmd_args_spec(full@).1),
{
    let (cmd, arg) = split_cmd_args(full);
    let arguments = split_args(arg.as_str());
    (cmd, arguments)
}

} // verus!
