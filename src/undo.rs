//! The one-step undo log.
use vstd::prelude::*;

use crate::buffer::{Buffer, NUM_LC};

verus! {

/// One recorded line change.
#[derive(Debug, Clone, PartialEq, Eq)]
pub enum Change {
    /// A line was added at `address`.
    Add { address: usize },
    /// The line `content` was removed from `address`.
    Remove { address: usize, content: String },
}

/// What a change records, as plain values.
pub enum ChangeView {
    Add { address: usize },
    Remove { address: usize, content: Seq<char> },
}

impl View for Change {
    type V = ChangeView;

    open spec fn view(&self) -> ChangeView {
        match self {
            Change::Add { address } => ChangeView::Add { address: *address },
            Change::Remove { address, content } => ChangeView::Remove { address: *address, content: content@ },
        }
    }
}

/// The view of a sequence of changes.
pub open spec fn changes_view(c: Seq<Change>) -> Seq<ChangeView> {
    c.map_values(|x: Change| x@)
}

/// The lines after reversing one change: an added line is removed again, a
/// removed line is put back. A change that does not fit the lines leaves
/// them as they are.
pub open spec fn reverse_one(text: Seq<Seq<char>>, c: ChangeView) -> Seq<Seq<char>> {
    match c {
        ChangeView::Add { address } => if 1 <= address <= text.len() {
            text.remove(address - 1)
        } else {
            text
        },
        ChangeView::Remove { address, content } => if 1 <= address <= text.len() + 1 {
            text.insert(address - 1, content)
        } else {
            text
        },
    }
}

/// Whether a change fits the lines it is reversed on.
pub open spec fn reversible(text: Seq<Seq<char>>, c: ChangeView) -> bool {
    match c {
        ChangeView::Add { address } => 1 <= address <= text.len(),
        ChangeView::Remove { address, .. } => 1 <= address <= text.len() + 1,
    }
}

/// The lines after reversing `changes`, last change first.
pub open spec fn replay(text: Seq<Seq<char>>, changes: Seq<ChangeView>) -> Seq<Seq<char>>
    decreases changes.len(),
{
    if changes.len() == 0 {
        text
    } else {
        replay(reverse_one(text, changes.last()), changes.drop_last())
    }
}

/// Every change fits when `changes` are reversed, last first.
pub open spec fn replayable(text: Seq<Seq<char>>, changes: Seq<ChangeView>) -> bool
    decreases changes.len(),
{
    changes.len() == 0 || (reversible(text, changes.last()) && replayable(
        reverse_one(text, changes.last()),
        changes.drop_last(),
    ))
}

/// Whether reversing `changes`, last first, on `n` lines fits every change
/// and never needs more than `usize::MAX - 1` lines before a re-insertion.
pub open spec fn fits(n: int, changes: Seq<ChangeView>) -> bool
    decreases changes.len(),
{
    changes.len() == 0 || match changes.last() {
        ChangeView::Add { address } => 1 <= address <= n && fits(n - 1, changes.drop_last()),
        ChangeView::Remove { address, .. } => 1 <= address <= n + 1 && n < usize::MAX && fits(
            n + 1,
            changes.drop_last(),
        ),
    }
}

/// A log that fits can be replayed; a replayable log fits when the lines
/// and the log together stay below `usize::MAX`.
pub proof fn lemma_fits(text: Seq<Seq<char>>, changes: Seq<ChangeView>)
    ensures
        fits(text.len() as int, changes) ==> replayable(text, changes),
        replayable(text, changes) && text.len() + changes.len() < usize::MAX ==> fits(text.len() as int, changes),
    decreases changes.len(),
{
    if changes.len() > 0 {
        let c = changes.last();
        let t1 = reverse_one(text, c);
        lemma_fits(t1, changes.drop_last());
        match c {
            ChangeView::Add { address } => {
                if 1 <= address <= text.len() {
                    assert(t1.len() == text.len() - 1);
                }
            },
            ChangeView::Remove { address, content } => {
                if 1 <= address <= text.len() + 1 {
                    assert(t1.len() == text.len() + 1);
                }
            },
        }
    }
}

/// Lines added, lines removed, and the cursor and markers from before the
/// change: enough to roll back the latest change.
#[derive(Debug, Clone)]
pub struct Undo {
    changes: Vec<Change>,
    wascurrent_address: usize,
    markers: Vec<usize>,
    is_locked: bool,
}

impl Undo {
    pub closed spec fn log(&self) -> Seq<ChangeView> {
        changes_view(self.changes@)
    }

    pub closed spec fn saved_cursor(&self) -> usize {
        self.wascurrent_address
    }

    pub closed spec fn saved_marks(&self) -> Seq<usize> {
        self.markers@
    }

    pub closed spec fn locked(&self) -> bool {
        self.is_locked
    }

    /// An empty, unlocked log.
    pub fn new() -> (u: Undo)
        ensures
            u.log().len() == 0,
            u.saved_cursor() == 0,
            u.saved_marks() == Seq::new(NUM_LC as nat, |i: int| 0usize),
            !u.locked(),
    {
        let u = Undo { changes: Vec::new(), wascurrent_address: 0, markers: vec![0usize; NUM_LC], is_locked: false };
        assert(u.saved_marks() =~= Seq::new(NUM_LC as nat, |i: int| 0usize));
        assert(u.log() =~= Seq::<ChangeView>::empty());
        u
    }

    /// Start a new undo step: unless locked, forget the recorded changes and
    /// save the buffer's cursor and markers.
    pub fn reset(&mut self, buffer: &Buffer)
        requires
            buffer.wf(),
        ensures
            old(self).locked() ==> *final(self) == *old(self),
            !old(self).locked() ==> {
                &&& final(self).log().len() == 0
                &&& final(self).saved_cursor() == buffer.cursor()
                &&& final(self).saved_marks() == buffer.marks()
                &&& !final(self).locked()
            },
    {
        if !self.is_locked {
            proof {
                buffer.lemma_wf();
            }
            let mut markers: Vec<usize> = Vec::new();
            let mut k: usize = 0;
            while k < NUM_LC
                invariant
                    0 <= k <= NUM_LC,
                    buffer.wf(),
                    buffer.marks().len() == NUM_LC,
                    markers@ == buffer.marks().subrange(0, k as int),
                decreases NUM_LC - k,
            {
                let label = char_of(k);
                markers.push(buffer.get_marked_line(label));
                proof {
                    assert(markers@ =~= buffer.marks().subrange(0, k + 1));
                }
                k += 1;
            }
            proof {
                assert(buffer.marks().subrange(0, NUM_LC as int) =~= buffer.marks());
            }
            self.changes = Vec::new();
            self.wascurrent_address = buffer.get_current_address();
            self.markers = markers;
            assert(self.log() =~= Seq::<ChangeView>::empty());
        }
    }

    /// Lock the log, so that the steps of a composite operation form one
    /// undo step.
    pub fn lock(&mut self)
        ensures
            final(self).locked(),
            final(self).log() == old(self).log(),
            final(self).saved_cursor() == old(self).saved_cursor(),
            final(self).saved_marks() == old(self).saved_marks(),
    {
        self.is_locked = true;
    }

    /// Unlock the log.
    pub fn unlock(&mut self)
        ensures
            !final(self).locked(),
            final(self).log() == old(self).log(),
            final(self).saved_cursor() == old(self).saved_cursor(),
            final(self).saved_marks() == old(self).saved_marks(),
    {
        self.is_locked = false;
    }

    /// Record that lines `[initial, fin]` were added.
    pub fn added_lines(&mut self, initial: usize, fin: usize)
        ensures
            final(self).log() == old(self).log() + addition_log(initial as int, fin as int),
            final(self).saved_cursor() == old(self).saved_cursor(),
            final(self).saved_marks() == old(self).saved_marks(),
            final(self).locked() == old(self).locked(),
    {
        let ghost start = self.log();
        if fin < initial {
            proof {
                assert(addition_log(initial as int, fin as int) =~= Seq::<ChangeView>::empty());
                assert(start + Seq::<ChangeView>::empty() =~= start);
            }
            return;
        }
        let mut a = initial;
        loop
            invariant
                initial <= a <= fin,
                self.log() == start + addition_log(initial as int, a - 1),
                self.wascurrent_address == old(self).wascurrent_address,
                self.markers == old(self).markers,
                self.is_locked == old(self).is_locked,
                start == old(self).log(),
            decreases fin - a,
        {
            let ghost before = self.changes@;
            self.changes.push(Change::Add { address: a });
            proof {
                assert(changes_view(self.changes@) =~= changes_view(before).push(ChangeView::Add { address: a }));
                assert(addition_log(initial as int, a as int) =~= addition_log(initial as int, a - 1).push(ChangeView::Add { address: a }));
            }
            if a == fin {
                return;
            }
            a += 1;
        }
    }

    /// Record that the line at `address` is about to be removed.
    pub fn deleting_line(&mut self, buffer: &Buffer, address: usize)
        requires
            buffer.wf(),
            1 <= address <= buffer.len(),
        ensures
            final(self).log() == old(self).log() + removal_log(buffer.text(), address as int, address as int),
            final(self).saved_cursor() == old(self).saved_cursor(),
            final(self).saved_marks() == old(self).saved_marks(),
            final(self).locked() == old(self).locked(),
    {
        self.deleting_lines(buffer, address, address)
    }

    /// Record that lines `[initial, fin]` are about to be removed: each is
    /// recorded as removed from `initial`, where the next one moves up to.
    pub fn deleting_lines(&mut self, buffer: &Buffer, initial: usize, fin: usize)
        requires
            buffer.wf(),
            1 <= initial <= fin <= buffer.len(),
        ensures
            final(self).log() == old(self).log() + removal_log(buffer.text(), initial as int, fin as int),
            final(self).saved_cursor() == old(self).saved_cursor(),
            final(self).saved_marks() == old(self).saved_marks(),
            final(self).locked() == old(self).locked(),
    {
        proof {
            buffer.lemma_wf();
        }
        let ghost start = self.log();
        let ghost text = buffer.text();
        let mut a = initial;
        loop
            invariant
                initial <= a <= fin,
                fin <= buffer.len(),
                1 <= initial,
                buffer.wf(),
                text == buffer.text(),
                self.log() == start + removal_log(text, initial as int, a - 1),
                self.wascurrent_address == old(self).wascurrent_address,
                self.markers == old(self).markers,
                self.is_locked == old(self).is_locked,
                start == old(self).log(),
            decreases fin - a,
        {
            let line = buffer.get_line_content(a).unwrap();
            let ghost before = self.changes@;
            self.changes.push(Change::Remove { address: initial, content: line.to_string() });
            proof {
                assert(changes_view(self.changes@) =~= changes_view(before).push(
                    ChangeView::Remove { address: initial, content: text[a - 1] },
                ));
                assert(removal_log(text, initial as int, a as int) =~= removal_log(text, initial as int, a - 1).push(
                    ChangeView::Remove { address: initial, content: text[a - 1] },
                ));
            }
            if a == fin {
                return;
            }
            a += 1;
        }
    }

    /// The cursor saved at the start of the step.
    pub fn get_wascurrent_address(&self) -> (a: usize)
        ensures
            a == self.saved_cursor(),
    {
        self.wascurrent_address
    }

    /// The markers saved at the start of the step.
    pub fn get_markers(&self) -> (m: Vec<usize>)
        ensures
            m@ == self.saved_marks(),
    {
        self.markers.clone()
    }

    /// The changes recorded in this step.
    pub fn get_changes(&self) -> (c: Vec<Change>)
        ensures
            changes_view(c@) == self.log(),
    {
        let mut out: Vec<Change> = Vec::new();
        let mut k: usize = 0;
        while k < self.changes.len()
            invariant
                0 <= k <= self.changes@.len(),
                changes_view(out@) == changes_view(self.changes@).subrange(0, k as int),
            decreases self.changes@.len() - k,
        {
            let ghost before = out@;
            let c = match &self.changes[k] {
                Change::Add { address } => Change::Add { address: *address },
                Change::Remove { address, content } => Change::Remove { address: *address, content: content.clone() },
            };
            assert(c@ == self.changes@[k as int]@);
            let ghost cv = c@;
            out.push(c);
            proof {
                assert(changes_view(out@) =~= changes_view(before).push(cv));
                assert(changes_view(self.changes@).subrange(0, k + 1) =~= changes_view(self.changes@).subrange(0, k as int).push(cv));
            }
            k += 1;
        }
        proof {
            assert(changes_view(self.changes@).subrange(0, self.changes@.len() as int) =~= changes_view(self.changes@));
        }
        out
    }
}

/// The records of adding lines `[initial, fin]`.
pub open spec fn addition_log(initial: int, fin: int) -> Seq<ChangeView> {
    Seq::new(
        if fin >= initial { (fin - initial + 1) as nat } else { 0 },
        |k: int| ChangeView::Add { address: (initial + k) as usize },
    )
}

/// The records of removing lines `[initial, fin]` of `text`, each from
/// `initial`.
pub open spec fn removal_log(text: Seq<Seq<char>>, initial: int, fin: int) -> Seq<ChangeView> {
    Seq::new(
        if fin >= initial { (fin - initial + 1) as nat } else { 0 },
        |k: int| ChangeView::Remove { address: initial as usize, content: text[initial - 1 + k] },
    )
}

/// The marker letter for table index `k`.
pub fn char_of(k: usize) -> (c: char)
    requires
        k < NUM_LC,
    ensures
        crate::buffer::is_marker_label(c),
        crate::buffer::marker_index(c) == k,
{
    let letters: [char; 26] = ['a', 'b', 'c', 'd', 'e', 'f', 'g', 'h', 'i', 'j', 'k', 'l', 'm', 'n', 'o', 'p', 'q', 'r', 's', 't', 'u', 'v', 'w', 'x', 'y', 'z'];
    letters[k]
}

} // verus!
