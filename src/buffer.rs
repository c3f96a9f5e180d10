//! The line buffer: lines of text, a cursor, line markers and a
//! modification flag.
use vstd::prelude::*;

use crate::error::RedError;
use vstd::std_specs::iter::IteratorSpec;
use crate::pattern::{compile, is_match, regex_compiles, regex_is_match, strings_view, Pattern};
use crate::subst::{substitute_line, substituted, WhichMatch};

verus! {

/// Number of line markers, one for each lowercase letter.
pub const NUM_LC: usize = 26;

/// Index of a marker letter in the marker table.
pub open spec fn marker_index(label: char) -> int {
    label as int - 'a' as int
}

/// A marker letter: `'a'..='z'`.
pub open spec fn is_marker_label(label: char) -> bool {
    'a' <= label <= 'z'
}

/// Where a marker stored at `m` points once a line is inserted after
/// address `a`.
pub open spec fn marker_after_insert(m: usize, a: usize) -> int {
    if m > a { m + 1 } else { m as int }
}

/// Where a marker stored at `m` points once the line at address `a` is
/// deleted: lines below move up, a marker on the deleted line is unset.
pub open spec fn marker_after_delete(m: usize, a: usize) -> int {
    if m > a { m - 1 } else if m == a { 0 } else { m as int }
}

/// The addresses a forward search visits: from the current line (or the
/// first, when there is none) to the last line, then from the first.
pub open spec fn forward_order(cur: int, total: int) -> Seq<int> {
    let start = if cur < 1 { 1 } else { cur };
    Seq::new(total as nat, |i: int| if start + i <= total { start + i } else { start + i - total })
}

/// The addresses a backward search visits: from the line before the
/// current one back to the first, then from the last line back to the
/// current one.
pub open spec fn backward_order(cur: int, total: int) -> Seq<int> {
    let start = if cur < 1 { 1 } else { cur };
    Seq::new(total as nat, |i: int| if start - 1 - i >= 1 { start - 1 - i } else { start - 1 - i + total })
}

/// The first address of `order` whose line matches `pattern`.
pub open spec fn first_matching(pattern: Seq<char>, lines: Seq<Seq<char>>, order: Seq<int>) -> Option<int>
    decreases order.len(),
{
    if order.len() == 0 {
        None
    } else if regex_is_match(pattern, lines[order[0] - 1]) {
        Some(order[0])
    } else {
        first_matching(pattern, lines, order.drop_first())
    }
}

/// The lines of `l` joined end to end.
pub open spec fn joined(l: Seq<Seq<char>>) -> Seq<char>
    decreases l.len(),
{
    if l.len() == 0 {
        Seq::empty()
    } else {
        joined(l.drop_last()) + l.last()
    }
}

/// The lines after moving `[i, f]` to follow address `d`; nothing moves
/// when `d` lies in `[i - 1, f]`.
pub open spec fn moved(l: Seq<Seq<char>>, i: int, f: int, d: int) -> Seq<Seq<char>> {
    if i - 1 <= d <= f {
        l
    } else if d < i - 1 {
        l.subrange(0, d) + l.subrange(i - 1, f) + l.subrange(d, i - 1) + l.subrange(f, l.len() as int)
    } else {
        l.subrange(0, i - 1) + l.subrange(f, d) + l.subrange(i - 1, f) + l.subrange(d, l.len() as int)
    }
}

/// Where a marker at `m` points after the move of `moved`: markers on moved
/// lines are unset, markers on lines the block passes over shift by its
/// length.
pub open spec fn marker_after_move(m: usize, i: int, f: int, d: int) -> int {
    let n = f - i + 1;
    if i - 1 <= d <= f {
        m as int
    } else if i <= m <= f {
        0
    } else if d < i - 1 && d < m < i {
        m + n
    } else if d > f && f < m <= d {
        m - n
    } else {
        m as int
    }
}

/// Where a marker at `m` points after `[i, f]` is joined into one line.
pub open spec fn marker_after_join(m: usize, i: int, f: int) -> int {
    if i <= m <= f {
        0
    } else if m > f {
        m - (f - i + 1) + 1
    } else {
        m as int
    }
}

/// A marker at `m` after a structural edit: unset when in `[zlo, zhi]`,
/// shifted by `amt` (down when `up` is false) when in `(slo, shi]`.
pub open spec fn remapped(m: usize, zlo: int, zhi: int, slo: int, shi: int, up: bool, amt: int) -> int {
    if zlo <= m <= zhi {
        0
    } else if slo < m <= shi {
        if up { m + amt } else { m - amt }
    } else {
        m as int
    }
}

fn push_range(out: &mut Vec<String>, src: &Vec<String>, from: usize, to: usize)
    requires
        from <= to <= src@.len(),
    ensures
        strings_view(final(out)@) == strings_view(old(out)@) + strings_view(src@).subrange(from as int, to as int),
{
    let mut k = from;
    while k < to
        invariant
            from <= k <= to <= src@.len(),
            strings_view(out@) == strings_view(old(out)@) + strings_view(src@).subrange(from as int, k as int),
        decreases to - k,
    {
        let ghost before = out@;
        out.push(src[k].clone());
        proof {
            assert(strings_view(out@) =~= strings_view(before).push(src@[k as int]@));
            assert(strings_view(src@).subrange(from as int, k + 1) =~= strings_view(src@).subrange(from as int, k as int).push(src@[k as int]@));
        }
        k += 1;
    }
}

/// Stores the lines being edited.
pub struct Buffer {
    lines: Vec<String>,
    file: Option<String>,
    buffer_file: String,
    markers: Vec<usize>,
    current_line: usize,
    total_lines: usize,
    modified: bool,
}

impl Buffer {
    /// The lines, first to last.
    pub closed spec fn text(&self) -> Seq<Seq<char>> {
        strings_view(self.lines@)
    }

    /// The marker table, indexed by `marker_index`; 0 means unset.
    pub closed spec fn marks(&self) -> Seq<usize> {
        self.markers@
    }

    /// The current address.
    pub closed spec fn cursor(&self) -> usize {
        self.current_line
    }

    /// Whether the lines changed since they were last saved.
    pub closed spec fn modified_flag(&self) -> bool {
        self.modified
    }

    /// The associated file, if any.
    pub closed spec fn file_path(&self) -> Option<Seq<char>> {
        match self.file {
            Some(f) => Some(f@),
            None => None,
        }
    }

    /// The path of the on-disk mirror.
    pub closed spec fn mirror_path(&self) -> Seq<char> {
        self.buffer_file@
    }

    /// The number of lines.
    pub open spec fn len(&self) -> nat {
        self.text().len()
    }

    /// The line count is kept in step with the lines, there is one marker
    /// per letter, and the cursor stays within `[0, len]`.
    pub closed spec fn wf(&self) -> bool {
        &&& self.total_lines == self.lines@.len()
        &&& self.markers@.len() == NUM_LC
        &&& self.current_line <= self.total_lines
        &&& forall|i: int| 0 <= i < NUM_LC ==> #[trigger] self.markers@[i] <= self.total_lines
    }

    /// What the buffer's well-formedness gives its users: one marker per
    /// letter, each within the buffer, and the cursor within the buffer.
    pub proof fn lemma_wf(&self)
        requires
            self.wf(),
        ensures
            self.marks().len() == NUM_LC,
            forall|i: int| 0 <= i < NUM_LC ==> #[trigger] self.marks()[i] <= self.len(),
            self.cursor() <= self.len(),
            self.len() <= usize::MAX,
    {
    }

    /// A buffer holding `lines`, with the cursor on the last line, no
    /// markers, no associated file and no modification.
    pub fn new(lines: Vec<String>) -> (b: Buffer)
        ensures
            b.wf(),
            b.text() == strings_view(lines@),
            b.cursor() == lines@.len(),
            b.marks() == Seq::new(NUM_LC as nat, |i: int| 0usize),
            !b.modified_flag(),
            b.file_path().is_none(),
    {
        let n = lines.len();
        let markers = vec![0usize; NUM_LC];
        let b = Buffer {
            lines,
            file: None,
            buffer_file: String::new(),
            markers,
            current_line: n,
            total_lines: n,
            modified: false,
        };
        assert(b.marks() =~= Seq::new(NUM_LC as nat, |i: int| 0usize));
        b
    }

    /// Total number of lines in the buffer.
    pub fn num_lines(&self) -> (n: usize)
        requires
            self.wf(),
        ensures
            n == self.len(),
    {
        self.total_lines
    }

    /// True if the buffer changed since it was last written in full.
    pub fn is_modified(&self) -> (m: bool)
        ensures
            m == self.modified_flag(),
    {
        self.modified
    }

    /// The line at `address`, or `None` outside `[1, len]`.
    pub fn get_line_content(&self, address: usize) -> (r: Option<&str>)
        requires
            self.wf(),
        ensures
            r.is_some() == (1 <= address <= self.len()),
            r matches Some(s) ==> s@ == self.text()[address - 1],
    {
        if address == 0 || address > self.lines.len() {
            None
        } else {
            Some(self.lines[address - 1].as_str())
        }
    }

    /// The current address.
    pub fn get_current_address(&self) -> (a: usize)
        ensures
            a == self.cursor(),
    {
        self.current_line
    }

    /// Move the cursor to `address`, or to the last line when `address` is
    /// past it.
    pub fn set_current_address(&mut self, address: usize)
        requires
            old(self).wf(),
        ensures
            final(self).wf(),
            final(self).cursor() == if address < old(self).len() { address as int } else { old(self).len() as int },
            final(self).mirror_path() == old(self).mirror_path(),
            final(self).text() == old(self).text(),
            final(self).marks() == old(self).marks(),
            final(self).modified_flag() == old(self).modified_flag(),
            final(self).file_path() == old(self).file_path(),
    {
        if address < self.total_lines {
            self.current_line = address;
        } else {
            self.current_line = self.total_lines;
        }
    }

    /// The address stored under marker `label`; 0 if unset or if `label`
    /// is not a lowercase letter.
    pub fn get_marked_line(&self, label: char) -> (a: usize)
        requires
            self.wf(),
        ensures
            a == if is_marker_label(label) { self.marks()[marker_index(label)] } else { 0 },
    {
        if 'a' <= label && label <= 'z' {
            self.markers[(label as u32 - 'a' as u32) as usize]
        } else {
            0
        }
    }

    /// Store `address` under marker `label`.
    pub fn set_marker(&mut self, label: char, address: usize)
        requires
            old(self).wf(),
            is_marker_label(label),
            address <= old(self).len(),
        ensures
            final(self).wf(),
            final(self).marks() == old(self).marks().update(marker_index(label), address),
            final(self).text() == old(self).text(),
            final(self).cursor() == old(self).cursor(),
            final(self).modified_flag() == old(self).modified_flag(),
            final(self).file_path() == old(self).file_path(),
    {
        let i = (label as u32 - 'a' as u32) as usize;
        self.markers.set(i, address);
    }

    /// Renumber markers after a line is inserted after `address`.
    fn insert_update_markers(&mut self, address: usize)
        requires
            old(self).marks().len() == NUM_LC,
            forall|i: int| 0 <= i < NUM_LC ==> old(self).marks()[i] < usize::MAX,
        ensures
            final(self).marks().len() == NUM_LC,
            forall|i: int|
                0 <= i < NUM_LC ==> final(self).marks()[i] == marker_after_insert(
                    #[trigger] old(self).marks()[i],
                    address,
                ),
            final(self).lines == old(self).lines,
            final(self).file == old(self).file,
            final(self).buffer_file == old(self).buffer_file,
            final(self).current_line == old(self).current_line,
            final(self).total_lines == old(self).total_lines,
            final(self).modified == old(self).modified,
    {
        let mut i: usize = 0;
        while i < NUM_LC
            invariant
                0 <= i <= NUM_LC,
                self.markers@.len() == NUM_LC,
                forall|j: int| 0 <= j < i ==> self.markers@[j] == marker_after_insert(#[trigger] old(self).markers@[j], address),
                forall|j: int| i <= j < NUM_LC ==> self.markers@[j] == #[trigger] old(self).markers@[j],
                forall|j: int| 0 <= j < NUM_LC ==> old(self).markers@[j] < usize::MAX,
                self.lines == old(self).lines,
                self.file == old(self).file,
                self.buffer_file == old(self).buffer_file,
                self.current_line == old(self).current_line,
                self.total_lines == old(self).total_lines,
                self.modified == old(self).modified,
            decreases NUM_LC - i,
        {
            let m = self.markers[i];
            assert(m == old(self).markers@[i as int]);
            if m > address {
                self.markers.set(i, m + 1);
            }
            i += 1;
        }
    }

    /// Renumber markers after the line at `address` is deleted.
    fn delete_update_markers(&mut self, address: usize)
        requires
            old(self).marks().len() == NUM_LC,
        ensures
            final(self).marks().len() == NUM_LC,
            forall|i: int|
                0 <= i < NUM_LC ==> final(self).marks()[i] == marker_after_delete(
                    #[trigger] old(self).marks()[i],
                    address,
                ),
            final(self).lines == old(self).lines,
            final(self).file == old(self).file,
            final(self).buffer_file == old(self).buffer_file,
            final(self).current_line == old(self).current_line,
            final(self).total_lines == old(self).total_lines,
            final(self).modified == old(self).modified,
    {
        let mut i: usize = 0;
        while i < NUM_LC
            invariant
                0 <= i <= NUM_LC,
                self.markers@.len() == NUM_LC,
                forall|j: int| 0 <= j < i ==> self.markers@[j] == marker_after_delete(#[trigger] old(self).markers@[j], address),
                forall|j: int| i <= j < NUM_LC ==> self.markers@[j] == #[trigger] old(self).markers@[j],
                self.lines == old(self).lines,
                self.file == old(self).file,
                self.buffer_file == old(self).buffer_file,
                self.current_line == old(self).current_line,
                self.total_lines == old(self).total_lines,
                self.modified == old(self).modified,
            decreases NUM_LC - i,
        {
            let m = self.markers[i];
            if m > address {
                self.markers.set(i, m - 1);
            } else if m == address {
                self.markers.set(i, 0);
            }
            i += 1;
        }
    }

    /// Insert `new_line` after `address` (0: before the first line); the
    /// cursor moves to the new line and markers below it move down.
    pub fn append_line(&mut self, address: usize, new_line: &str)
        requires
            old(self).wf(),
            address <= old(self).len(),
            old(self).len() < usize::MAX,
        ensures
            final(self).wf(),
            final(self).text() == old(self).text().insert(address as int, new_line@),
            final(self).cursor() == address + 1,
            forall|i: int|
                0 <= i < NUM_LC ==> final(self).marks()[i] == marker_after_insert(
                    #[trigger] old(self).marks()[i],
                    address,
                ),
            final(self).marks().len() == NUM_LC,
            final(self).modified_flag(),
            final(self).file_path() == old(self).file_path(),
    {
        let ghost old_lines = self.lines@;
        self.lines.insert(address, new_line.to_string());
        proof {
            assert(strings_view(self.lines@) =~= strings_view(old_lines).insert(address as int, new_line@));
        }
        self.current_line = address + 1;
        assert(self.marks() == old(self).marks());
        self.insert_update_markers(address);
        self.modified = true;
        self.total_lines = self.total_lines + 1;
        assert(forall|i: int| 0 <= i < NUM_LC ==> #[trigger] self.markers@[i] == marker_after_insert(old(self).marks()[i], address));
    }

    /// Insert `new_line` after the current line.
    pub fn append_here(&mut self, new_line: &str)
        requires
            old(self).wf(),
            old(self).len() < usize::MAX,
        ensures
            final(self).wf(),
            final(self).text() == old(self).text().insert(old(self).cursor() as int, new_line@),
            final(self).cursor() == old(self).cursor() + 1,
            forall|i: int|
                0 <= i < NUM_LC ==> final(self).marks()[i] == marker_after_insert(
                    #[trigger] old(self).marks()[i],
                    old(self).cursor(),
                ),
            final(self).marks().len() == NUM_LC,
            final(self).modified_flag(),
            final(self).file_path() == old(self).file_path(),
    {
        let address = self.current_line;
        self.append_line(address, new_line);
    }

    /// Remove the line at `address`; lines below move up, markers follow
    /// them and a marker on the removed line is unset. The cursor is kept
    /// within the buffer.
    pub fn delete_line(&mut self, address: usize) -> (r: Result<(), RedError>)
        requires
            old(self).wf(),
        ensures
            final(self).wf(),
            r.is_err() == (address == 0 || address > old(self).len()),
            r.is_err() ==> r == Err::<(), RedError>(RedError::GetLineOutOfBounds { address })
                && *final(self) == *old(self),
            r.is_ok() ==> {
                &&& final(self).text() == old(self).text().remove(address - 1)
                &&& final(self).marks().len() == NUM_LC
                &&& forall|i: int|
                    0 <= i < NUM_LC ==> final(self).marks()[i] == marker_after_delete(
                        #[trigger] old(self).marks()[i],
                        address,
                    )
                &&& final(self).cursor() == if old(self).cursor() < old(self).len() {
                    old(self).cursor() as int
                } else {
                    old(self).len() - 1
                }
                &&& final(self).modified_flag()
                &&& final(self).file_path() == old(self).file_path()
            },
    {
        if address == 0 || address > self.lines.len() {
            return Err(RedError::GetLineOutOfBounds { address });
        }
        let ghost old_lines = self.lines@;
        let _ = self.lines.remove(address - 1);
        proof {
            assert(strings_view(self.lines@) =~= strings_view(old_lines).remove(address - 1));
        }
        self.delete_update_markers(address);
        self.total_lines = self.total_lines - 1;
        assert(forall|i: int| 0 <= i < NUM_LC ==> #[trigger] self.markers@[i] == marker_after_delete(old(self).marks()[i], address));
        if self.current_line > self.total_lines {
            self.current_line = self.total_lines;
        }
        self.modified = true;
        Ok(())
    }

    /// Replace the line at `address` with `new_line`.
    pub fn set_line_content(&mut self, address: usize, new_line: &str) -> (r: Result<(), RedError>)
        requires
            old(self).wf(),
        ensures
            final(self).wf(),
            r.is_err() == (address == 0 || address > old(self).len()),
            r.is_err() ==> r == Err::<(), RedError>(RedError::SetLineOutOfBounds { address })
                && *final(self) == *old(self),
            r.is_ok() ==> {
                &&& final(self).text() == old(self).text().update(address - 1, new_line@)
                &&& final(self).marks() == old(self).marks()
                &&& final(self).cursor() == old(self).cursor()
                &&& final(self).modified_flag()
                &&& final(self).file_path() == old(self).file_path()
            },
    {
        if address == 0 || address > self.lines.len() {
            return Err(RedError::SetLineOutOfBounds { address });
        }
        let ghost old_lines = self.lines@;
        self.lines.set(address - 1, new_line.to_string());
        proof {
            assert(strings_view(self.lines@) =~= strings_view(old_lines).update(address - 1, new_line@));
        }
        self.modified = true;
        Ok(())
    }

    /// Whether the line at `address` matches `p`; an address outside the
    /// buffer is tested as an empty line.
    pub fn matches_line(&self, p: &Pattern, address: usize) -> (r: bool)
        requires
            self.wf(),
        ensures
            r == regex_is_match(
                p.source(),
                if 1 <= address <= self.len() { self.text()[address - 1] } else { Seq::empty() },
            ),
    {
        match self.get_line_content(address) {
            Some(line) => is_match(p, line),
            None => {
                proof {
                    reveal_strlit("");
                    assert(""@ =~= Seq::<char>::empty());
                }
                is_match(p, "")
            },
        }
    }

    /// Pattern match predicate: whether the line at `address` matches
    /// `regex`. Fails when `regex` is not a valid expression.
    pub fn does_match(&self, regex: &str, address: usize) -> (r: Result<bool, RedError>)
        requires
            self.wf(),
        ensures
            r.is_ok() == regex_compiles(regex@),
            r matches Ok(m) ==> m == regex_is_match(
                regex@,
                if 1 <= address <= self.len() { self.text()[address - 1] } else { Seq::empty() },
            ),
            r matches Err(RedError::AddressSyntax { address }) ==> address@ == regex@,
            r is Err ==> (r matches Err(RedError::AddressSyntax { .. })),
    {
        match compile(regex) {
            Some(p) => Ok(self.matches_line(&p, address)),
            None => Err(RedError::AddressSyntax { address: regex.to_string() }),
        }
    }

    /// The first line in `order` matching `p`.
    fn search(&self, p: &Pattern, backward: bool) -> (r: Option<usize>)
        requires
            self.wf(),
        ensures
            r matches Some(a) ==> 1 <= a <= self.len(),
            r == (match first_matching(
                p.source(),
                self.text(),
                if backward { backward_order(self.cursor() as int, self.len() as int) } else { forward_order(self.cursor() as int, self.len() as int) },
            ) {
                Some(a) => Some(a as usize),
                None => None,
            }),
    {
        let total = self.total_lines;
        let start: usize = if self.current_line < 1 { 1 } else { self.current_line };
        let ghost order = if backward {
            backward_order(self.cursor() as int, self.len() as int)
        } else {
            forward_order(self.cursor() as int, self.len() as int)
        };
        let mut i: usize = 0;
        proof {
            assert(order.subrange(0, total as int) =~= order);
        }
        while i < total
            invariant
                self.wf(),
                total == self.len(),
                1 <= start,
                start == if self.cursor() < 1 { 1 } else { self.cursor() as int },
                order == if backward { backward_order(self.cursor() as int, self.len() as int) } else { forward_order(self.cursor() as int, self.len() as int) },
                0 <= i <= total,
                first_matching(p.source(), self.text(), order) == first_matching(p.source(), self.text(), order.subrange(i as int, total as int)),
            decreases total - i,
        {
            let a: usize = if backward {
                if i < start - 1 { start - 1 - i } else { total - (i - (start - 1)) }
            } else {
                if i <= total - start { start + i } else { i - (total - start) }
            };
            proof {
                assert(order[i as int] == a as int);
                assert(order.subrange(i as int, total as int).drop_first() =~= order.subrange(i + 1, total as int));
                assert(order.subrange(i as int, total as int)[0] == a as int);
            }
            if is_match(p, self.lines[a - 1].as_str()) {
                return Some(a);
            }
            i += 1;
        }
        None
    }

    /// The next line at or after the current one that matches `regex`,
    /// wrapping to the start; `None` when no line matches. Fails when
    /// `regex` is not a valid expression.
    pub fn find_match(&self, regex: &str) -> (r: Result<Option<usize>, RedError>)
        requires
            self.wf(),
        ensures
            r.is_ok() == regex_compiles(regex@),
            r matches Ok(found) ==> found == (match first_matching(regex@, self.text(), forward_order(self.cursor() as int, self.len() as int)) {
                Some(a) => Some(a as usize),
                None => None,
            }),
            r matches Err(RedError::AddressSyntax { address }) ==> address@ == regex@,
            r is Err ==> (r matches Err(RedError::AddressSyntax { .. })),
    {
        match compile(regex) {
            Some(p) => Ok(self.search(&p, false)),
            None => Err(RedError::AddressSyntax { address: regex.to_string() }),
        }
    }

    /// The nearest line before the current one that matches `regex`,
    /// wrapping to the end; `None` when no line matches. Fails when `regex`
    /// is not a valid expression.
    pub fn find_match_reverse(&self, regex: &str) -> (r: Result<Option<usize>, RedError>)
        requires
            self.wf(),
        ensures
            r.is_ok() == regex_compiles(regex@),
            r matches Ok(found) ==> found == (match first_matching(regex@, self.text(), backward_order(self.cursor() as int, self.len() as int)) {
                Some(a) => Some(a as usize),
                None => None,
            }),
            r matches Err(RedError::AddressSyntax { address }) ==> address@ == regex@,
            r is Err ==> (r matches Err(RedError::AddressSyntax { .. })),
    {
        match compile(regex) {
            Some(p) => Ok(self.search(&p, true)),
            None => Err(RedError::AddressSyntax { address: regex.to_string() }),
        }
    }

    fn remap_markers(&mut self, zlo: usize, zhi: usize, slo: usize, shi: usize, up: bool, amt: usize)
        requires
            old(self).markers@.len() == NUM_LC,
            forall|k: int|
                0 <= k < NUM_LC ==> {
                    let m = #[trigger] old(self).markers@[k];
                    !(zlo <= m <= zhi) && slo < m <= shi ==> if up { m + amt <= usize::MAX } else { m >= amt }
                },
        ensures
            final(self).markers@.len() == NUM_LC,
            forall|k: int|
                0 <= k < NUM_LC ==> final(self).markers@[k] == remapped(
                    #[trigger] old(self).markers@[k],
                    zlo as int,
                    zhi as int,
                    slo as int,
                    shi as int,
                    up,
                    amt as int,
                ),
            final(self).lines == old(self).lines,
            final(self).file == old(self).file,
            final(self).buffer_file == old(self).buffer_file,
            final(self).current_line == old(self).current_line,
            final(self).total_lines == old(self).total_lines,
            final(self).modified == old(self).modified,
    {
        let mut i: usize = 0;
        while i < NUM_LC
            invariant
                0 <= i <= NUM_LC,
                self.markers@.len() == NUM_LC,
                forall|j: int|
                    0 <= j < i ==> self.markers@[j] == remapped(
                        #[trigger] old(self).markers@[j],
                        zlo as int,
                        zhi as int,
                        slo as int,
                        shi as int,
                        up,
                        amt as int,
                    ),
                forall|j: int| i <= j < NUM_LC ==> self.markers@[j] == #[trigger] old(self).markers@[j],
                forall|k: int|
                    0 <= k < NUM_LC ==> {
                        let m = #[trigger] old(self).markers@[k];
                        !(zlo <= m <= zhi) && slo < m <= shi ==> if up { m + amt <= usize::MAX } else { m >= amt }
                    },
                self.lines == old(self).lines,
                self.file == old(self).file,
                self.buffer_file == old(self).buffer_file,
                self.current_line == old(self).current_line,
                self.total_lines == old(self).total_lines,
                self.modified == old(self).modified,
            decreases NUM_LC - i,
        {
            let m = self.markers[i];
            assert(m == old(self).markers@[i as int]);
            if zlo <= m && m <= zhi {
                self.markers.set(i, 0);
            } else if slo < m && m <= shi {
                if up {
                    self.markers.set(i, m + amt);
                } else {
                    self.markers.set(i, m - amt);
                }
            }
            i += 1;
        }
    }

    /// Make a substitution on each line of `[address_initial,
    /// address_final]`: the matches of `to_match` that `which` selects are
    /// replaced by `to_sub`, in which `\1`..`\9` stand for capture groups.
    /// Every line of the range is written back, so the buffer counts as
    /// modified even where nothing matched. Fails, changing nothing, when
    /// `to_match` is not a valid expression.
    pub fn substitute(
        &mut self,
        to_match: &str,
        to_sub: &str,
        which: WhichMatch,
        address_initial: usize,
        address_final: usize,
    ) -> (r: Result<(), RedError>)
        requires
            old(self).wf(),
            1 <= address_initial <= address_final <= old(self).len(),
        ensures
            final(self).wf(),
            r.is_ok() == regex_compiles(to_match@),
            r matches Err(RedError::ParameterSyntax { parameter }) ==> parameter@ == to_match@,
            r is Err ==> (r matches Err(RedError::ParameterSyntax { .. })) && *final(self) == *old(self),
            r is Ok ==> {
                &&& final(self).text() == Seq::new(
                    old(self).len(),
                    |k: int|
                        if address_initial - 1 <= k < address_final {
                            substituted(to_match@, old(self).text()[k], to_sub@, which)
                        } else {
                            old(self).text()[k]
                        },
                )
                &&& final(self).marks() == old(self).marks()
                &&& final(self).cursor() == old(self).cursor()
                &&& final(self).modified_flag()
                &&& final(self).file_path() == old(self).file_path()
            },
    {
        let p = match compile(to_match) {
            Some(p) => p,
            None => {
                return Err(RedError::ParameterSyntax { parameter: to_match.to_string() });
            },
        };
        let ghost old_text = self.text();
        let mut k = address_initial - 1;
        while k < address_final
            invariant
                self.wf(),
                p.source() == to_match@,
                1 <= address_initial <= k + 1 <= address_final + 1,
                address_final <= self.len(),
                self.len() == old_text.len(),
                old_text == old(self).text(),
                self.marks() == old(self).marks(),
                self.cursor() == old(self).cursor(),
                self.file_path() == old(self).file_path(),
                k + 1 > address_initial ==> self.modified_flag(),
                k + 1 == address_initial ==> self.modified_flag() == old(self).modified_flag(),
                forall|j: int|
                    0 <= j < old_text.len() ==> #[trigger] self.text()[j] == if address_initial - 1 <= j < k {
                        substituted(to_match@, old_text[j], to_sub@, which)
                    } else {
                        old_text[j]
                    },
            decreases address_final - k,
        {
            let new_line = substitute_line(&p, self.lines[k].as_str(), to_sub, which);
            proof {
                assert(self.lines@[k as int]@ == self.text()[k as int]);
            }
            let _ = self.set_line_content(k + 1, new_line.as_str());
            k = k + 1;
        }
        proof {
            assert(self.text() =~= Seq::new(
                old_text.len(),
                |k: int|
                    if address_initial - 1 <= k < address_final {
                        substituted(to_match@, old_text[k], to_sub@, which)
                    } else {
                        old_text[k]
                    },
            ));
        }
        Ok(())
    }

    /// Replace the lines `[address_initial, address_final]` by one line
    /// holding their text end to end, with no separator. The cursor moves
    /// to the joined line; markers on the joined lines are unset.
    pub fn join_lines(&mut self, address_initial: usize, address_final: usize) -> (r: Result<(), RedError>)
        requires
            old(self).wf(),
            1 <= address_initial <= address_final <= old(self).len(),
        ensures
            r is Ok,
            final(self).wf(),
            final(self).text() == old(self).text().subrange(0, address_initial - 1).push(
                joined(old(self).text().subrange(address_initial - 1, address_final as int)),
            ) + old(self).text().subrange(address_final as int, old(self).len() as int),
            forall|k: int|
                0 <= k < NUM_LC ==> final(self).marks()[k] == marker_after_join(
                    #[trigger] old(self).marks()[k],
                    address_initial as int,
                    address_final as int,
                ),
            final(self).cursor() == address_initial,
            final(self).modified_flag(),
            final(self).file_path() == old(self).file_path(),
    {
        let ghost l = self.text();
        let mut new_line = String::new();
        let mut k = address_initial - 1;
        proof {
            assert(l.subrange(address_initial - 1, address_initial - 1) =~= Seq::<Seq<char>>::empty());
        }
        while k < address_final
            invariant
                self.wf(),
                l == self.text(),
                1 <= address_initial,
                address_initial - 1 <= k <= address_final <= self.len(),
                new_line@ == joined(l.subrange(address_initial - 1, k as int)),
            decreases address_final - k,
        {
            new_line.append(self.lines[k].as_str());
            proof {
                assert(l.subrange(address_initial - 1, k + 1).drop_last() =~= l.subrange(address_initial - 1, k as int));
            }
            k += 1;
        }
        let n = address_final - address_initial + 1;
        let mut out: Vec<String> = Vec::new();
        push_range(&mut out, &self.lines, 0, address_initial - 1);
        let ghost before = out@;
        out.push(new_line);
        proof {
            assert(strings_view(out@) =~= strings_view(before).push(joined(l.subrange(address_initial - 1, address_final as int))));
        }
        push_range(&mut out, &self.lines, address_final, self.lines.len());
        self.lines = out;
        self.total_lines = self.total_lines - n + 1;
        self.current_line = address_initial;
        self.modified = true;
        let ghost om = self.markers@;
        assert(om == old(self).markers@);
        self.remap_markers(address_initial, address_final, address_final, usize::MAX, false, n - 1);
        proof {
            assert forall|k: int| 0 <= k < NUM_LC implies #[trigger] self.markers@[k] == marker_after_join(om[k], address_initial as int, address_final as int) by {
                let m = om[k];
                assert(self.markers@[k] == remapped(om[k], address_initial as int, address_final as int, address_final as int, usize::MAX as int, false, (n - 1) as int));
            }
        }
        proof {
            assert forall|k: int| 0 <= k < NUM_LC implies #[trigger] self.markers@[k] <= self.total_lines by {
                assert(old(self).markers@[k] <= old(self).total_lines);
                assert(om[k] == old(self).markers@[k]);
            }
            assert(self.text() =~= l.subrange(0, address_initial - 1).push(
                joined(l.subrange(address_initial - 1, address_final as int)),
            ) + l.subrange(address_final as int, l.len() as int));
        }
        Ok(())
    }

    /// Move the lines `[address_initial, address_final]` to follow
    /// `destination` (0: to the top). Nothing moves when `destination`
    /// already lies in `[address_initial - 1, address_final]`. Otherwise the
    /// cursor ends on the last moved line, markers on moved lines are unset
    /// and markers on lines passed over follow them.
    pub fn move_lines(&mut self, address_initial: &usize, address_final: &usize, destination: &usize) -> (r: Result<(), RedError>)
        requires
            old(self).wf(),
            1 <= *address_initial <= *address_final <= old(self).len(),
            *destination <= old(self).len(),
        ensures
            r is Ok,
            final(self).wf(),
            final(self).text() == moved(old(self).text(), *address_initial as int, *address_final as int, *destination as int),
            forall|k: int|
                0 <= k < NUM_LC ==> final(self).marks()[k] == marker_after_move(
                    #[trigger] old(self).marks()[k],
                    *address_initial as int,
                    *address_final as int,
                    *destination as int,
                ),
            final(self).cursor() == if *address_initial - 1 <= *destination <= *address_final {
                old(self).cursor() as int
            } else if *destination < *address_initial - 1 {
                *destination + (*address_final - *address_initial + 1)
            } else {
                *destination as int
            },
            final(self).modified_flag() == (old(self).modified_flag() || !(*address_initial - 1 <= *destination <= *address_final)),
            final(self).file_path() == old(self).file_path(),
    {
        let i = *address_initial;
        let f = *address_final;
        let d = *destination;
        if i - 1 <= d && d <= f {
            return Ok(());
        }
        let ghost l = self.text();
        let n = f - i + 1;
        let mut out: Vec<String> = Vec::new();
        if d < i - 1 {
            push_range(&mut out, &self.lines, 0, d);
            push_range(&mut out, &self.lines, i - 1, f);
            push_range(&mut out, &self.lines, d, i - 1);
            push_range(&mut out, &self.lines, f, self.lines.len());
            self.current_line = d + n;
            self.lines = out;
            let ghost om = self.markers@;
            assert(om == old(self).markers@);
            self.remap_markers(i, f, d, i - 1, true, n);
            proof {
                assert forall|k: int| 0 <= k < NUM_LC implies #[trigger] self.markers@[k] == marker_after_move(om[k], i as int, f as int, d as int) by {
                    assert(self.markers@[k] == remapped(om[k], i as int, f as int, d as int, (i - 1) as int, true, n as int));
                }
            }
        } else {
            push_range(&mut out, &self.lines, 0, i - 1);
            push_range(&mut out, &self.lines, f, d);
            push_range(&mut out, &self.lines, i - 1, f);
            push_range(&mut out, &self.lines, d, self.lines.len());
            self.current_line = d;
            self.lines = out;
            let ghost om = self.markers@;
            assert(om == old(self).markers@);
            self.remap_markers(i, f, f, d, false, n);
            proof {
                assert forall|k: int| 0 <= k < NUM_LC implies #[trigger] self.markers@[k] == marker_after_move(om[k], i as int, f as int, d as int) by {
                    assert(self.markers@[k] == remapped(om[k], i as int, f as int, f as int, d as int, false, n as int));
                }
            }
        }
        self.modified = true;
        proof {
            assert(self.text() =~= moved(l, i as int, f as int, d as int));
            assert forall|k: int| 0 <= k < NUM_LC implies #[trigger] self.markers@[k] <= self.total_lines by {
                assert(old(self).markers@[k] <= old(self).total_lines);
            }
        }
        Ok(())
    }

    /// Insert a copy of the lines `[address_initial, address_final]` after
    /// `destination` (0: at the top). The cursor ends on the last copy;
    /// markers below `destination` move down by the number of lines copied.
    pub fn copy_lines(&mut self, address_initial: usize, address_final: usize, destination: usize) -> (r: Result<(), RedError>)
        requires
            old(self).wf(),
            1 <= address_initial <= address_final <= old(self).len(),
            destination <= old(self).len(),
            old(self).len() + (address_final - address_initial + 1) <= usize::MAX,
        ensures
            r is Ok,
            final(self).wf(),
            final(self).text() == old(self).text().subrange(0, destination as int) + old(self).text().subrange(
                address_initial - 1,
                address_final as int,
            ) + old(self).text().subrange(destination as int, old(self).len() as int),
            forall|k: int|
                0 <= k < NUM_LC ==> final(self).marks()[k] == #[trigger] marker_after_insert(
                    old(self).marks()[k],
                    destination,
                ) + if old(self).marks()[k] > destination { address_final - address_initial } else { 0 },
            final(self).cursor() == destination + (address_final - address_initial + 1),
            final(self).modified_flag(),
            final(self).file_path() == old(self).file_path(),
    {
        let ghost l = self.text();
        let n = address_final - address_initial + 1;
        let mut out: Vec<String> = Vec::new();
        push_range(&mut out, &self.lines, 0, destination);
        push_range(&mut out, &self.lines, address_initial - 1, address_final);
        push_range(&mut out, &self.lines, destination, self.lines.len());
        self.lines = out;
        self.total_lines = self.total_lines + n;
        self.current_line = destination + n;
        self.modified = true;
        let ghost om = self.markers@;
        assert(om == old(self).markers@);
        self.remap_markers(1, 0, destination, usize::MAX, true, n);
        proof {
            assert forall|k: int| 0 <= k < NUM_LC implies #[trigger] self.markers@[k] == marker_after_insert(om[k], destination) + if om[k] > destination { address_final - address_initial } else { 0 } by {
                let m = om[k];
                assert(self.markers@[k] == remapped(om[k], 1, 0, destination as int, usize::MAX as int, true, n as int));
            }
        }
        proof {
            assert forall|k: int| 0 <= k < NUM_LC implies #[trigger] self.markers@[k] <= self.total_lines by {
                assert(old(self).markers@[k] <= old(self).total_lines);
                assert(om[k] == old(self).markers@[k]);
            }
            assert(self.text() =~= l.subrange(0, destination as int) + l.subrange(address_initial - 1, address_final as int)
                + l.subrange(destination as int, l.len() as int));
        }
        Ok(())
    }

    /// The associated file's path, if one is set.
    pub fn get_file_path(&self) -> (r: Option<&str>)
        ensures
            match r {
                Some(p) => self.file_path() == Some(p@),
                None => self.file_path().is_none(),
            },
    {
        match &self.file {
            Some(f) => Some(f.as_str()),
            None => None,
        }
    }

    /// Associate the buffer with the file at `path`.
    pub fn set_file_path(&mut self, path: String)
        requires
            old(self).wf(),
        ensures
            final(self).wf(),
            final(self).file_path() == Some(path@),
            final(self).text() == old(self).text(),
            final(self).cursor() == old(self).cursor(),
            final(self).marks() == old(self).marks(),
            final(self).modified_flag() == old(self).modified_flag(),
    {
        self.file = Some(path);
    }

    /// The path of the on-disk mirror.
    pub fn get_buffer_file(&self) -> (r: &str)
        ensures
            r@ == self.mirror_path(),
    {
        self.buffer_file.as_str()
    }

    /// Record the path of the on-disk mirror.
    pub fn set_buffer_file(&mut self, path: String)
        requires
            old(self).wf(),
        ensures
            final(self).wf(),
            final(self).mirror_path() == path@,
            final(self).text() == old(self).text(),
            final(self).cursor() == old(self).cursor(),
            final(self).marks() == old(self).marks(),
            final(self).modified_flag() == old(self).modified_flag(),
            final(self).file_path() == old(self).file_path(),
    {
        self.buffer_file = path;
    }

    /// All lines, first to last.
    pub fn lines_iterator(&self) -> (r: std::slice::Iter<'_, String>)
        ensures
            r.remaining().len() == self.len(),
            forall|k: int| 0 <= k < self.len() ==> (#[trigger] r.remaining()[k])@ == self.text()[k],
    {
        let it = self.lines.as_slice().iter();
        proof {
            assert(it.remaining() == self.lines@.as_ref());
        }
        it
    }

    /// Lines `[address_initial, address_final]`.
    pub fn range_iterator(&self, address_initial: usize, address_final: usize) -> (r: std::slice::Iter<'_, String>)
        requires
            self.wf(),
            crate::error::addresses_ok(address_initial, address_final, self.len() as usize),
        ensures
            r.remaining().len() == address_final - address_initial + 1,
            forall|k: int|
                0 <= k <= address_final - address_initial ==> (#[trigger] r.remaining()[k])@ == self.text()[address_initial - 1 + k],
    {
        let (_, back) = self.lines.as_slice().split_at(address_initial - 1);
        let (mid, _) = back.split_at(address_final - (address_initial - 1));
        proof {
            assert(strings_view(mid@) =~= self.text().subrange(address_initial - 1, address_final as int));
        }
        let it = mid.iter();
        proof {
            assert(it.remaining() == mid@.as_ref());
            assert forall|k: int| 0 <= k <= address_final - address_initial implies (#[trigger] it.remaining()[k])@
                == self.text()[address_initial - 1 + k] by {
                assert(strings_view(mid@)[k] == mid@[k]@);
            }
        }
        it
    }

    /// The text of lines `[address_initial, address_final]` as written to
    /// disk: each line followed by a newline. An empty range gives nothing.
    pub fn render_range(&self, address_initial: usize, address_final: usize) -> (r: String)
        requires
            self.wf(),
            crate::error::addresses_ok(address_initial, address_final, self.len() as usize) || (address_initial == 1
                && address_final == self.len()),
        ensures
            r@ == crate::format::rendered(self.text().subrange(address_initial - 1, address_final as int)),
    {
        let (_, back) = self.lines.as_slice().split_at(address_initial - 1);
        let (mid, _) = back.split_at(address_final - (address_initial - 1));
        proof {
            assert(strings_view(mid@) =~= self.text().subrange(address_initial - 1, address_final as int));
        }
        crate::format::render_lines(mid)
    }

    /// Where a write of `[address_initial, address_final]` goes: the file
    /// named, or the associated file when the name is empty. A named file
    /// becomes the associated one if none was set. Fails when there is
    /// neither.
    pub fn write_target(&mut self, file_name: &str) -> (r: Result<String, RedError>)
        requires
            old(self).wf(),
        ensures
            final(self).wf(),
            final(self).text() == old(self).text(),
            final(self).cursor() == old(self).cursor(),
            final(self).marks() == old(self).marks(),
            final(self).modified_flag() == old(self).modified_flag(),
            file_name@.len() > 0 ==> (r matches Ok(t) && t@ == file_name@) && final(self).file_path() == Some(
                if old(self).file_path() is Some { old(self).file_path()->Some_0 } else { file_name@ },
            ),
            file_name@.len() == 0 ==> final(self).file_path() == old(self).file_path() && match old(self).file_path() {
                Some(p) => (r matches Ok(t) && t@ == p),
                None => (r matches Err(RedError::ParameterSyntax { .. })),
            },
    {
        if file_name.unicode_len() > 0 {
            if self.file.is_none() {
                self.file = Some(file_name.to_string());
            }
            return Ok(file_name.to_string());
        }
        match &self.file {
            Some(f) => Ok(f.clone()),
            None => Err(RedError::ParameterSyntax { parameter: String::new() }),
        }
    }

    /// After a successful write: the buffer counts as saved only when the
    /// whole of it went to its own file, with no file named.
    pub fn written(&mut self, file_name: &str, address_initial: usize, address_final: usize)
        requires
            old(self).wf(),
        ensures
            final(self).wf(),
            final(self).modified_flag() == (old(self).modified_flag() && !(file_name@.len() == 0 && address_initial == 1
                && address_final == old(self).len())),
            final(self).text() == old(self).text(),
            final(self).cursor() == old(self).cursor(),
            final(self).marks() == old(self).marks(),
            final(self).file_path() == old(self).file_path(),
    {
        if file_name.unicode_len() == 0 && address_initial == 1 && address_final == self.total_lines {
            self.modified = false;
        }
    }

    /// Whether the buffer may be closed: refused while it holds unsaved
    /// changes.
    pub fn on_close(&self) -> (r: Result<(), RedError>)
        ensures
            r is Err == self.modified_flag(),
            r is Err ==> r == Err::<(), RedError>(RedError::NoDestruct),
    {
        if self.modified {
            Err(RedError::NoDestruct)
        } else {
            Ok(())
        }
    }
}

} // verus!
