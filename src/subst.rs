//! Substitution within a line: which matches to replace, and replacement
//! text with numbered back-references.
use vstd::prelude::*;
use vstd::string::*;

use crate::pattern::{captures, regex_captures, regex_split, split, strings_view, weave, whole_matches, Pattern};

verus! {

/// Which matches of a line a substitution replaces.
#[derive(Debug, Clone, Copy, PartialEq, Eq, Structural)]
pub enum WhichMatch {
    /// Only the n-th match (1-based).
    Number(usize),
    /// Every match.
    Global,
}

/// Whether the match with 0-based index `i` is replaced.
pub open spec fn selected(which: WhichMatch, i: int) -> bool {
    match which {
        WhichMatch::Global => true,
        WhichMatch::Number(n) => i + 1 == n,
    }
}

/// The text of capture group `n`, empty when there is no such group.
pub open spec fn group_text(groups: Seq<Seq<char>>, n: int) -> Seq<char> {
    if 0 <= n < groups.len() { groups[n] } else { Seq::empty() }
}

/// Replacement text with each `\1`..`\9` replaced by that capture group.
pub open spec fn expand(rep: Seq<char>, groups: Seq<Seq<char>>) -> Seq<char>
    decreases rep.len(),
{
    if rep.len() == 0 {
        Seq::empty()
    } else if rep.len() >= 2 && rep[0] == '\\' && '1' <= rep[1] <= '9' {
        group_text(groups, rep[1] as int - '0' as int) + expand(rep.subrange(2, rep.len() as int), groups)
    } else {
        seq![rep[0]] + expand(rep.drop_first(), groups)
    }
}

/// The pieces that take the place of the matches: a replaced match becomes
/// the expanded replacement, any other stays as it was.
pub open spec fn sub_pieces(caps: Seq<Seq<Seq<char>>>, rep: Seq<char>, which: WhichMatch) -> Seq<Seq<char>> {
    Seq::new(
        caps.len(),
        |i: int| if selected(which, i) { expand(rep, caps[i]) } else { whole_matches(caps)[i] },
    )
}

/// A line after substitution: the text between matches is kept, and the
/// selected matches are replaced.
pub open spec fn substituted(pattern: Seq<char>, line: Seq<char>, rep: Seq<char>, which: WhichMatch) -> Seq<char> {
    weave(regex_split(pattern, line), sub_pieces(regex_captures(pattern, line), rep, which))
}

proof fn lemma_expand_plain(rep: Seq<char>, i: int, groups: Seq<Seq<char>>)
    requires
        0 <= i < rep.len(),
        !(i + 1 < rep.len() && rep[i] == '\\' && '1' <= rep[i + 1] <= '9'),
    ensures
        expand(rep.subrange(i, rep.len() as int), groups) == seq![rep[i]] + expand(
            rep.subrange(i + 1, rep.len() as int),
            groups,
        ),
{
    let r = rep.subrange(i, rep.len() as int);
    assert(r.drop_first() =~= rep.subrange(i + 1, rep.len() as int));
    assert(r[0] == rep[i]);
    if r.len() >= 2 {
        assert(r[1] == rep[i + 1]);
    }
}

proof fn lemma_expand_ref(rep: Seq<char>, i: int, groups: Seq<Seq<char>>)
    requires
        0 <= i && i + 1 < rep.len(),
        rep[i] == '\\' && '1' <= rep[i + 1] <= '9',
    ensures
        expand(rep.subrange(i, rep.len() as int), groups) == group_text(groups, rep[i + 1] as int - '0' as int) + expand(
            rep.subrange(i + 2, rep.len() as int),
            groups,
        ),
{
    let r = rep.subrange(i, rep.len() as int);
    assert(r.subrange(2, r.len() as int) =~= rep.subrange(i + 2, rep.len() as int));
    assert(r[0] == rep[i]);
    assert(r[1] == rep[i + 1]);
}

/// Expand the back-references `\1`..`\9` of `to_sub` with the capture
/// groups of one match.
pub fn sub_captures(to_sub: &str, groups: &Vec<String>) -> (r: String)
    ensures
        r@ == expand(to_sub@, strings_view(groups@)),
{
    let ghost g = strings_view(groups@);
    let len = to_sub.unicode_len();
    let mut out = String::new();
    let mut i: usize = 0;
    proof {
        assert(to_sub@.subrange(0, len as int) =~= to_sub@);
    }
    while i < len
        invariant
            0 <= i <= len,
            len == to_sub@.len(),
            g == strings_view(groups@),
            out@ + expand(to_sub@.subrange(i as int, len as int), g) == expand(to_sub@, g),
        decreases len - i,
    {
        let c = to_sub.get_char(i);
        if c == '\\' && i + 1 < len {
            let d = to_sub.get_char(i + 1);
            if '1' <= d && d <= '9' {
                proof {
                    lemma_expand_ref(to_sub@, i as int, g);
                }
                let n = (d as u32 - '0' as u32) as usize;
                if n < groups.len() {
                    let ghost before = out@;
                    out.append(groups[n].as_str());
                    proof {
                        assert(before + g[n as int] + expand(to_sub@.subrange(i + 2, len as int), g) =~= before + (
                        g[n as int] + expand(to_sub@.subrange(i + 2, len as int), g)));
                    }
                } else {
                    proof {
                        assert(group_text(g, n as int) =~= Seq::<char>::empty());
                        assert(out@ + (Seq::<char>::empty() + expand(to_sub@.subrange(i + 2, len as int), g))
                            =~= out@ + expand(to_sub@.subrange(i + 2, len as int), g));
                    }
                }
                i += 2;
                continue;
            }
        }
        proof {
            lemma_expand_plain(to_sub@, i as int, g);
        }
        let ghost before = out@;
        out.append(to_sub.substring_char(i, i + 1));
        proof {
            assert(to_sub@.subrange(i as int, i + 1) =~= seq![to_sub@[i as int]]);
            assert(before + seq![to_sub@[i as int]] + expand(to_sub@.subrange(i + 1, len as int), g) =~= before
                + (seq![to_sub@[i as int]] + expand(to_sub@.subrange(i + 1, len as int), g)));
        }
        i += 1;
    }
    proof {
        assert(to_sub@.subrange(len as int, len as int) =~= Seq::<char>::empty());
        assert(expand(Seq::<char>::empty(), g) == Seq::<char>::empty());
        assert(out@ + Seq::<char>::empty() =~= out@);
    }
    out
}

proof fn lemma_weave_step(gaps: Seq<Seq<char>>, pieces: Seq<Seq<char>>, i: int)
    requires
        0 <= i < pieces.len(),
        gaps.len() == pieces.len() + 1,
    ensures
        weave(gaps.subrange(0, i + 2), pieces.subrange(0, i + 1)) == weave(
            gaps.subrange(0, i + 1),
            pieces.subrange(0, i),
        ) + pieces[i] + gaps[i + 1],
{
    let g2 = gaps.subrange(0, i + 2);
    let longer = pieces.subrange(0, i + 1);
    assert(g2.drop_last() =~= gaps.subrange(0, i + 1));
    assert(longer.drop_last() =~= pieces.subrange(0, i));
}

/// Replace the selected matches of `pattern` in `line` by `to_sub`, with its
/// back-references expanded; the rest of the line is kept.
pub fn substitute_line(p: &Pattern, line: &str, to_sub: &str, which: WhichMatch) -> (r: String)
    ensures
        r@ == substituted(p.source(), line@, to_sub@, which),
{
    let caps = captures(p, line);
    let ghost cv = regex_captures(p.source(), line@);
    assert(forall|k: int|
        0 <= k < caps@.len() ==> #[trigger] strings_view(caps@[k]@) == cv[k] && caps@[k]@.len() > 0);
    let gaps = split(p, line);
    let ghost gv = strings_view(gaps@);
    let ghost pieces = sub_pieces(regex_captures(p.source(), line@), to_sub@, which);
    let mut out = gaps[0].clone();
    proof {
        assert(gaps@.len() == caps@.len() + 1);
        assert(gv.subrange(0, 1).drop_last() =~= Seq::<Seq<char>>::empty());
        assert(weave(gv.subrange(0, 1), pieces.subrange(0, 0)) == gv[0]);
    }
    let mut i: usize = 0;
    while i < caps.len()
        invariant
            0 <= i <= caps@.len(),
            gaps@.len() == caps@.len() + 1,
            gv == strings_view(gaps@),
            gv == regex_split(p.source(), line@),
            caps@.len() == regex_captures(p.source(), line@).len(),
            cv == regex_captures(p.source(), line@),
            forall|k: int|
                0 <= k < caps@.len() ==> #[trigger] strings_view(caps@[k]@) == cv[k] && caps@[k]@.len() > 0,
            pieces == sub_pieces(regex_captures(p.source(), line@), to_sub@, which),
            out@ == weave(gv.subrange(0, i + 1), pieces.subrange(0, i as int)),
        decreases caps@.len() - i,
    {
        let ghost before = out@;
        proof {
            assert(strings_view(caps@[i as int]@) == regex_captures(p.source(), line@)[i as int]);
        }
        if matches!(which, WhichMatch::Global) || (match which { WhichMatch::Number(n) => i + 1 == n, WhichMatch::Global => false }) {
            let piece = sub_captures(to_sub, &caps[i]);
            out.append(piece.as_str());
        } else {
            out.append(caps[i][0].as_str());
            proof {
                assert(strings_view(caps@[i as int]@)[0] == caps@[i as int]@[0]@);
            }
        }
        out.append(gaps[i + 1].as_str());
        proof {
            lemma_weave_step(gv, pieces, i as int);
            assert(pieces.len() == caps@.len());
        }
        i += 1;
    }
    proof {
        assert(gv.subrange(0, caps@.len() + 1 as int) =~= gv);
        assert(pieces.subrange(0, caps@.len() as int) =~= pieces);
    }
    out
}

} // verus!
