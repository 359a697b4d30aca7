use vstd::prelude::*;
use crate::apply::patched_content;
use crate::lines::{lemma_join_split, split_spec};
use crate::model::{Hunk, HunkLine};
use crate::reconstruct::{replay_body, replay_hunks, reconstructed, suffix_lines};

verus! {

pub open spec fn all_context(lines: Seq<HunkLine>) -> bool {
    forall|i: int| 0 <= i < lines.len() ==> #[trigger] lines[i] is Context
}

pub open spec fn all_add(lines: Seq<HunkLine>) -> bool {
    forall|i: int| 0 <= i < lines.len() ==> #[trigger] lines[i] is Add
}

pub open spec fn all_remove(lines: Seq<HunkLine>) -> bool {
    forall|i: int| 0 <= i < lines.len() ==> #[trigger] lines[i] is Remove
}

/// The texts of a hunk's added lines, in order.
pub open spec fn added_texts(lines: Seq<HunkLine>) -> Seq<Seq<char>> {
    lines.map_values(|l: HunkLine| match l {
        HunkLine::Add(s) => s@,
        _ => Seq::empty(),
    })
}

/// Context-only hunks in ascending order, each within lines `1..=n`, none
/// starting before the line after the previous one ends.
pub open spec fn context_hunks_in_order(hunks: Seq<Hunk>, n: int) -> bool {
    &&& forall|i: int| 0 <= i < hunks.len() ==> {
        &&& all_context(#[trigger] hunks[i].lines@)
        &&& 1 <= hunks[i].old_range.start
        &&& hunks[i].old_range.start - 1 + hunks[i].lines@.len() <= n
    }
    &&& forall|i: int| 0 < i < hunks.len() ==>
        hunks[i - 1].old_range.start + hunks[i - 1].lines@.len() <= #[trigger] hunks[i].old_range.start
}

/// The cursor after replaying context-only hunks: the line after the last one.
pub open spec fn context_end(hunks: Seq<Hunk>) -> int {
    if hunks.len() == 0 {
        1
    } else {
        hunks.last().old_range.start + hunks.last().lines@.len()
    }
}

proof fn lemma_context_body(old: Seq<Seq<char>>, lines: Seq<HunkLine>, c: int)
    requires
        all_context(lines),
        1 <= c,
        c - 1 + lines.len() <= old.len(),
        old.len() < usize::MAX,
    ensures
        replay_body(old, lines, c) == Some((c + lines.len(), old.subrange(c - 1, c - 1 + lines.len()))),
    decreases lines.len(),
{
    if lines.len() > 0 {
        let k = lines.len() - 1;
        assert(all_context(lines.drop_last())) by {
            assert forall|i: int| 0 <= i < lines.drop_last().len() implies #[trigger] lines.drop_last()[i] is Context by {
                assert(lines.drop_last()[i] == lines[i]);
            }
        }
        lemma_context_body(old, lines.drop_last(), c);
        assert(lines[k] is Context);
        assert(old.subrange(c - 1, c - 1 + lines.len()) =~= old.subrange(c - 1, c - 1 + k).push(old[c - 1 + k]));
    } else {
        assert(old.subrange(c - 1, c - 1) =~= Seq::<Seq<char>>::empty());
    }
}

proof fn lemma_add_body(old: Seq<Seq<char>>, lines: Seq<HunkLine>, c: int)
    requires
        all_add(lines),
    ensures
        replay_body(old, lines, c) == Some((c, added_texts(lines))),
    decreases lines.len(),
{
    if lines.len() > 0 {
        assert(all_add(lines.drop_last())) by {
            assert forall|i: int| 0 <= i < lines.drop_last().len() implies #[trigger] lines.drop_last()[i] is Add by {
                assert(lines.drop_last()[i] == lines[i]);
            }
        }
        lemma_add_body(old, lines.drop_last(), c);
        assert(lines.last() is Add);
        assert(added_texts(lines) =~= added_texts(lines.drop_last()).push(added_texts(lines).last()));
    } else {
        assert(added_texts(lines) =~= Seq::<Seq<char>>::empty());
    }
}

proof fn lemma_remove_body(old: Seq<Seq<char>>, lines: Seq<HunkLine>, c: int)
    requires
        all_remove(lines),
        c + lines.len() <= usize::MAX,
    ensures
        replay_body(old, lines, c) == Some((c + lines.len(), Seq::<Seq<char>>::empty())),
    decreases lines.len(),
{
    if lines.len() > 0 {
        assert(all_remove(lines.drop_last())) by {
            assert forall|i: int| 0 <= i < lines.drop_last().len() implies #[trigger] lines.drop_last()[i] is Remove by {
                assert(lines.drop_last()[i] == lines[i]);
            }
        }
        lemma_remove_body(old, lines.drop_last(), c);
        assert(lines.last() is Remove);
        assert(Seq::<Seq<char>>::empty() + Seq::<Seq<char>>::empty() =~= Seq::<Seq<char>>::empty());
    }
}

proof fn lemma_context_in_order(old: Seq<Seq<char>>, hunks: Seq<Hunk>)
    requires
        context_hunks_in_order(hunks, old.len() as int),
        old.len() < usize::MAX,
    ensures
        replay_hunks(old, hunks) == Some((context_end(hunks), old.subrange(0, context_end(hunks) - 1))),
        1 <= context_end(hunks) <= old.len() + 1,
    decreases hunks.len(),
{
    if hunks.len() == 0 {
        assert(old.subrange(0, 0) =~= Seq::<Seq<char>>::empty());
    } else {
        let pre = hunks.drop_last();
        let h = hunks.last();
        let n = hunks.len() - 1;
        assert(hunks[n] == h);
        assert(context_hunks_in_order(pre, old.len() as int)) by {
            assert forall|i: int| 0 <= i < pre.len() implies {
                &&& all_context(#[trigger] pre[i].lines@)
                &&& 1 <= pre[i].old_range.start
                &&& pre[i].old_range.start - 1 + pre[i].lines@.len() <= old.len()
            } by {
                assert(pre[i] == hunks[i]);
            }
            assert forall|i: int| 0 < i < pre.len() implies
                pre[i - 1].old_range.start + pre[i - 1].lines@.len() <= #[trigger] pre[i].old_range.start by {
                assert(pre[i] == hunks[i]);
                assert(pre[i - 1] == hunks[i - 1]);
            }
        }
        lemma_context_in_order(old, pre);
        let c = context_end(pre);
        let st = h.old_range.start as int;
        if n > 0 {
            assert(pre.last() == hunks[n - 1]);
            assert(hunks[n - 1].old_range.start + hunks[n - 1].lines@.len() <= hunks[n].old_range.start);
        }
        assert(c <= st);
        lemma_context_body(old, h.lines@, st);
        let e = Seq::<Seq<char>>::empty();
        if c < st {
            assert(old.subrange(0, c - 1) + old.subrange(c - 1, st - 1) + old.subrange(st - 1, st - 1 + h.lines@.len())
                =~= old.subrange(0, st - 1 + h.lines@.len()));
        } else {
            assert(old.subrange(0, c - 1) + e + old.subrange(st - 1, st - 1 + h.lines@.len())
                =~= old.subrange(0, st - 1 + h.lines@.len()));
        }
    }
}

/// Applying hunks that hold context lines only, in ascending order, without
/// overlap and within the file, reproduces the file's content exactly.
pub proof fn law_context_only_reproduces(content: Seq<char>, hunks: Seq<Hunk>, line_ending: Seq<char>)
    requires
        line_ending.len() > 0,
        context_hunks_in_order(hunks, split_spec(content, line_ending).len() as int),
        split_spec(content, line_ending).len() < usize::MAX,
    ensures
        patched_content(content, hunks, line_ending) == Some(content),
{
    let old = split_spec(content, line_ending);
    lemma_context_in_order(old, hunks);
    let c = context_end(hunks);
    if c - 1 < old.len() {
        assert(old.subrange(0, c - 1) + old.subrange(c - 1, old.len() as int) =~= old);
    } else {
        assert(old.subrange(0, c - 1) + Seq::<Seq<char>>::empty() =~= old);
    }
    lemma_join_split(content, line_ending);
}

/// A hunk of added lines only, starting at line `P` (from 1 to one past the
/// last line), puts its lines right after original line `P - 1` and keeps
/// every original line, in order.
pub proof fn law_pure_addition(old: Seq<Seq<char>>, hunk: Hunk)
    requires
        all_add(hunk.lines@),
        1 <= hunk.old_range.start <= old.len() + 1,
        old.len() < usize::MAX,
    ensures
        reconstructed(old, seq![hunk]) == Some(
            old.subrange(0, hunk.old_range.start - 1) + added_texts(hunk.lines@)
                + old.subrange(hunk.old_range.start - 1, old.len() as int),
        ),
{
    let p = hunk.old_range.start as int;
    let hs = seq![hunk];
    let e = Seq::<Seq<char>>::empty();
    assert(hs.drop_last() =~= Seq::<Hunk>::empty());
    assert(hs.last() == hunk);
    assert(replay_hunks(old, Seq::<Hunk>::empty()) == Some((1int, e)));
    assert(replay_hunks(old, hs.drop_last()) == Some((1int, e)));
    lemma_add_body(old, hunk.lines@, p);
    let a = added_texts(hunk.lines@);
    let tail = old.subrange(p - 1, old.len() as int);
    if p - 1 == old.len() {
        assert(tail =~= e);
    }
    if p == 1 {
        assert(replay_hunks(old, hs) == Some((p, e + e + a)));
        assert(old.subrange(0, 0) =~= e);
        assert(e + e + a + suffix_lines(old, p) =~= old.subrange(0, p - 1) + a + tail);
    } else {
        assert(replay_hunks(old, hs) == Some((p, e + old.subrange(0, p - 1) + a)));
        assert(e + old.subrange(0, p - 1) + a + suffix_lines(old, p) =~= old.subrange(0, p - 1) + a + tail);
    }
}

/// A hunk of `k` removed lines only, starting at line `s` with lines `s` to
/// `s + k - 1` within the file, drops exactly those `k` lines and keeps all
/// others, in order.
pub proof fn law_pure_deletion(old: Seq<Seq<char>>, hunk: Hunk)
    requires
        all_remove(hunk.lines@),
        1 <= hunk.old_range.start,
        hunk.old_range.start - 1 + hunk.lines@.len() <= old.len(),
        old.len() < usize::MAX,
    ensures
        reconstructed(old, seq![hunk]) == Some(
            old.subrange(0, hunk.old_range.start - 1)
                + old.subrange(hunk.old_range.start - 1 + hunk.lines@.len(), old.len() as int),
        ),
{
    let s = hunk.old_range.start as int;
    let k = hunk.lines@.len() as int;
    let hs = seq![hunk];
    let e = Seq::<Seq<char>>::empty();
    assert(hs.drop_last() =~= Seq::<Hunk>::empty());
    assert(hs.last() == hunk);
    assert(replay_hunks(old, Seq::<Hunk>::empty()) == Some((1int, e)));
    assert(replay_hunks(old, hs.drop_last()) == Some((1int, e)));
    lemma_remove_body(old, hunk.lines@, s);
    let tail = old.subrange(s - 1 + k, old.len() as int);
    if s - 1 + k == old.len() {
        assert(tail =~= e);
    }
    if s == 1 {
        assert(replay_hunks(old, hs) == Some((s + k, e + e + e)));
        assert(old.subrange(0, 0) =~= e);
        assert(e + e + e + suffix_lines(old, s + k) =~= old.subrange(0, s - 1) + tail);
    } else {
        assert(replay_hunks(old, hs) == Some((s + k, e + old.subrange(0, s - 1) + e)));
        assert(e + old.subrange(0, s - 1) + e + suffix_lines(old, s + k) =~= old.subrange(0, s - 1) + tail);
    }
}

proof fn lemma_body_cursor(old: Seq<Seq<char>>, lines: Seq<HunkLine>, c: int)
    requires
        replay_body(old, lines, c) is Some,
    ensures
        replay_body(old, lines, c).unwrap().0 >= c,
    decreases lines.len(),
{
    if lines.len() > 0 {
        lemma_body_cursor(old, lines.drop_last(), c);
    }
}

/// For two hunks where the second starts at or after the line at which the
/// first one ends, the output is, in order: the lines before the first hunk,
/// the first hunk's lines, the untouched lines between the hunks, the second
/// hunk's lines, and the lines after it.
pub proof fn law_two_hunks_in_order(old: Seq<Seq<char>>, first: Hunk, second: Hunk)
    requires
        1 <= first.old_range.start <= old.len() + 1,
        old.len() < usize::MAX,
        replay_body(old, first.lines@, first.old_range.start as int) is Some,
        replay_body(old, first.lines@, first.old_range.start as int).unwrap().0 <= second.old_range.start <= old.len() + 1,
        replay_body(old, second.lines@, second.old_range.start as int) is Some,
    ensures
        ({
            let (c1, body1) = replay_body(old, first.lines@, first.old_range.start as int).unwrap();
            let (c2, body2) = replay_body(old, second.lines@, second.old_range.start as int).unwrap();
            reconstructed(old, seq![first, second]) == Some(
                old.subrange(0, first.old_range.start - 1) + body1
                    + old.subrange(c1 - 1, second.old_range.start - 1) + body2
                    + suffix_lines(old, c2),
            )
        }),
{
    let hs = seq![first, second];
    let e = Seq::<Seq<char>>::empty();
    let s1 = first.old_range.start as int;
    let s2 = second.old_range.start as int;
    let (c1, body1) = replay_body(old, first.lines@, s1).unwrap();
    let (c2, body2) = replay_body(old, second.lines@, s2).unwrap();
    lemma_body_cursor(old, first.lines@, s1);
    assert(hs.drop_last() =~= seq![first]);
    assert(hs.last() == second);
    assert(seq![first].drop_last() =~= Seq::<Hunk>::empty());
    assert(seq![first].last() == first);
    assert(replay_hunks(old, Seq::<Hunk>::empty()) == Some((1int, e)));
    assert(replay_hunks(old, seq![first].drop_last()) == Some((1int, e)));
    let pre = old.subrange(0, s1 - 1);
    if s1 == 1 {
        assert(pre =~= e);
    }
    assert(replay_hunks(old, seq![first]) == Some((c1, e + pre + body1)));
    let gap = old.subrange(c1 - 1, s2 - 1);
    if c1 == s2 {
        assert(gap =~= e);
    }
    assert(replay_hunks(old, hs) == Some((c2, e + pre + body1 + gap + body2)));
    assert(e + pre + body1 + gap + body2 + suffix_lines(old, c2)
        =~= pre + body1 + gap + body2 + suffix_lines(old, c2));
}

} // verus!
