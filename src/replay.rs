//! Facts about replaying undo logs.
use vstd::prelude::*;

use crate::undo::{addition_log, removal_log, replay, replayable, reversible, reverse_one, ChangeView};

verus! {

/// Replaying `a + b` reverses `b` first, then `a`.
pub proof fn lemma_replay_append(text: Seq<Seq<char>>, a: Seq<ChangeView>, b: Seq<ChangeView>)
    ensures
        replay(text, a + b) == replay(replay(text, b), a),
        replayable(text, a + b) == (replayable(text, b) && replayable(replay(text, b), a)),
    decreases b.len(),
{
    if b.len() == 0 {
        assert(a + b =~= a);
    } else {
        assert((a + b).drop_last() =~= a + b.drop_last());
        assert((a + b).last() == b.last());
        lemma_replay_append(reverse_one(text, b.last()), a, b.drop_last());
    }
}

/// Replaying a log with one more change reverses that change first.
pub proof fn lemma_replay_push(text: Seq<Seq<char>>, log: Seq<ChangeView>, c: ChangeView)
    ensures
        replay(text, log.push(c)) == replay(reverse_one(text, c), log),
        replayable(text, log.push(c)) == (reversible(text, c) && replayable(reverse_one(text, c), log)),
{
    assert(log.push(c).drop_last() =~= log);
    assert(log.push(c).last() == c);
}

/// Reversing the removals of lines `[i, f]` puts them back.
pub proof fn lemma_replay_removal(text: Seq<Seq<char>>, i: int, f: int)
    requires
        1 <= i,
        i - 1 <= f <= text.len(),
        i <= usize::MAX,
    ensures
        replay(text.subrange(0, i - 1) + text.subrange(f, text.len() as int), removal_log(text, i, f)) == text,
        replayable(text.subrange(0, i - 1) + text.subrange(f, text.len() as int), removal_log(text, i, f)),
    decreases f - i + 1,
{
    let t = text.subrange(0, i - 1) + text.subrange(f, text.len() as int);
    if f < i {
        assert(removal_log(text, i, f) =~= Seq::<ChangeView>::empty());
        assert(t =~= text);
    } else {
        let log = removal_log(text, i, f);
        assert(log.drop_last() =~= removal_log(text, i, f - 1));
        let c = log.last();
        assert(c == ChangeView::Remove { address: i as usize, content: text[f - 1] });
        assert(i as usize as int == i);
        assert(1 <= i <= t.len() + 1);
        assert(reverse_one(t, c) =~= text.subrange(0, i - 1) + text.subrange(f - 1, text.len() as int));
        lemma_replay_removal(text, i, f - 1);
    }
}

/// Reversing the additions of lines `[d + 1, d + n]` removes a block of `n`
/// lines inserted after `d`.
pub proof fn lemma_replay_addition(base: Seq<Seq<char>>, d: int, block: Seq<Seq<char>>)
    requires
        0 <= d <= base.len(),
        base.len() + block.len() <= usize::MAX,
    ensures
        replay(base.subrange(0, d) + block + base.subrange(d, base.len() as int), addition_log(d + 1, d + block.len())) == base,
        replayable(base.subrange(0, d) + block + base.subrange(d, base.len() as int), addition_log(d + 1, d + block.len())),
    decreases block.len(),
{
    let t = base.subrange(0, d) + block + base.subrange(d, base.len() as int);
    let n = block.len() as int;
    if n == 0 {
        assert(addition_log(d + 1, d) =~= Seq::<ChangeView>::empty());
        assert(t =~= base);
    } else {
        let log = addition_log(d + 1, d + n);
        assert(log.drop_last() =~= addition_log(d + 1, d + n - 1));
        assert(log.last() == ChangeView::Add { address: (d + n) as usize });
        assert((d + n) as usize as int == d + n);
        let shorter = block.drop_last();
        assert(reverse_one(t, log.last()) =~= base.subrange(0, d) + shorter + base.subrange(d, base.len() as int));
        lemma_replay_addition(base, d, shorter);
    }
}

} // verus!
