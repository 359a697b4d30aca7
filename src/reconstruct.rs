use vstd::prelude::*;
use crate::model::{Hunk, HunkLine};

verus! {

/// The original lines copied before a hunk that starts at line `start` when
/// the cursor stands at line `cursor`: lines `cursor` up to `start - 1` (the
/// 0-based slice `[cursor - 1, start - 1)`) if the cursor is behind the
/// start, nothing otherwise. `None` where that slice does not lie within the
/// file.
pub open spec fn gap_lines(old: Seq<Seq<char>>, cursor: int, start: int) -> Option<Seq<Seq<char>>> {
    if cursor < start {
        if 1 <= cursor && start - 1 <= old.len() {
            Some(old.subrange(cursor - 1, start - 1))
        } else {
            None
        }
    } else {
        Some(Seq::empty())
    }
}

/// Replays one hunk line: the new cursor and the lines it emits.
/// `None` where a context line has no original line under the cursor, or the
/// cursor would pass `usize::MAX`.
pub open spec fn step_line(old: Seq<Seq<char>>, cursor: int, line: HunkLine) -> Option<(int, Seq<Seq<char>>)> {
    match line {
        HunkLine::Remove => if cursor < usize::MAX {
            Some((cursor + 1, Seq::empty()))
        } else {
            None
        },
        HunkLine::Add(s) => Some((cursor, seq![s@])),
        HunkLine::Context(_) => if 1 <= cursor <= old.len() && cursor < usize::MAX {
            Some((cursor + 1, seq![old[cursor - 1]]))
        } else {
            None
        },
    }
}

/// Replays a hunk's lines from cursor `start`: the final cursor and all lines emitted.
pub open spec fn replay_body(old: Seq<Seq<char>>, lines: Seq<HunkLine>, start: int) -> Option<(int, Seq<Seq<char>>)>
    decreases lines.len(),
{
    if lines.len() == 0 {
        Some((start, Seq::empty()))
    } else {
        match replay_body(old, lines.drop_last(), start) {
            Some((c, out)) => match step_line(old, c, lines.last()) {
                Some((c2, emitted)) => Some((c2, out + emitted)),
                None => None,
            },
            None => None,
        }
    }
}

/// Replays hunks in order from cursor 1 with no output: the final cursor and
/// the output so far (gaps and hunk bodies, no suffix).
pub open spec fn replay_hunks(old: Seq<Seq<char>>, hunks: Seq<Hunk>) -> Option<(int, Seq<Seq<char>>)>
    decreases hunks.len(),
{
    if hunks.len() == 0 {
        Some((1, Seq::empty()))
    } else {
        let h = hunks.last();
        match replay_hunks(old, hunks.drop_last()) {
            Some((c, out)) => if h.old_range.start > usize::MAX {
                None
            } else {
                match gap_lines(old, c, h.old_range.start as int) {
                Some(gap) => match replay_body(old, h.lines@, h.old_range.start as int) {
                    Some((c2, body)) => Some((c2, out + gap + body)),
                    None => None,
                },
                None => None,
                }
            },
            None => None,
        }
    }
}

/// The 0-based index of the first original line not yet consumed when the
/// cursor stands at line `cursor`.
pub open spec fn suffix_start(cursor: int) -> int {
    if cursor >= 1 {
        cursor - 1
    } else {
        0
    }
}

/// The original lines from the cursor's line to the end.
pub open spec fn suffix_lines(old: Seq<Seq<char>>, cursor: int) -> Seq<Seq<char>> {
    if 0 <= suffix_start(cursor) < old.len() {
        old.subrange(suffix_start(cursor), old.len() as int)
    } else {
        Seq::empty()
    }
}

/// The new lines of a file: the hunks replayed, then the unmodified suffix.
pub open spec fn reconstructed(old: Seq<Seq<char>>, hunks: Seq<Hunk>) -> Option<Seq<Seq<char>>> {
    match replay_hunks(old, hunks) {
        Some((c, out)) => Some(out + suffix_lines(old, c)),
        None => None,
    }
}

pub open spec fn lines_view(v: Seq<String>) -> Seq<Seq<char>> {
    v.map_values(|s: String| s@)
}

fn push_copy(out: &mut Vec<String>, s: &String)
    ensures
        lines_view(final(out)@) == lines_view(old(out)@).push(s@),
{
    let t = s.clone();
    out.push(t);
    proof {
        assert(lines_view(final(out)@) =~= lines_view(old(out)@).push(s@));
    }
}

/// Replays the lines of one hunk from cursor `start`, appending to `out`.
/// Returns the final cursor, or `None` where the replay leaves the file.
fn replay_hunk_lines(orig: &Vec<String>, lines: &Vec<HunkLine>, start: usize, out: &mut Vec<String>) -> (r: Option<usize>)
    ensures
        match replay_body(lines_view(orig@), lines@, start as int) {
            Some((c, body)) => r matches Some(rc) && rc as int == c && lines_view(final(out)@) == lines_view(old(out)@) + body,
            None => r is None,
        },
{
    let ghost v = lines_view(orig@);
    let mut cursor: usize = start;
    let mut j: usize = 0;
    while j < lines.len()
        invariant
            v == lines_view(orig@),
            j <= lines@.len(),
            replay_body(v, lines@.subrange(0, j as int), start as int) matches Some((c, body))
                && c == cursor as int && lines_view(out@) == lines_view(old(out)@) + body,
        decreases lines@.len() - j,
    {
        proof {
            assert(lines@.subrange(0, j + 1).drop_last() =~= lines@.subrange(0, j as int));
        }
        let ghost prev = lines_view(out@);
        match &lines[j] {
            HunkLine::Remove => {
                if cursor == usize::MAX {
                    proof { lemma_body_none_extends(v, lines@, (j + 1) as int, start as int); }
                    return None;
                }
                cursor = cursor + 1;
                proof { assert(prev + Seq::<Seq<char>>::empty() =~= prev); }
            },
            HunkLine::Add(s) => {
                push_copy(out, s);
            },
            HunkLine::Context(_) => {
                if cursor == 0 || cursor > orig.len() || cursor == usize::MAX {
                    proof { lemma_body_none_extends(v, lines@, (j + 1) as int, start as int); }
                    return None;
                }
                push_copy(out, &orig[cursor - 1]);
                cursor = cursor + 1;
            },
        }
        j = j + 1;
    }
    proof {
        assert(lines@.subrange(0, lines@.len() as int) =~= lines@);
    }
    Some(cursor)
}

/// Once a prefix of a hunk's lines fails to replay, the whole hunk does.
proof fn lemma_body_none_extends(old: Seq<Seq<char>>, lines: Seq<HunkLine>, k: int, start: int)
    requires
        0 <= k <= lines.len(),
        replay_body(old, lines.subrange(0, k), start) is None,
    ensures
        replay_body(old, lines, start) is None,
    decreases lines.len() - k,
{
    if k < lines.len() {
        assert(lines.subrange(0, k + 1).drop_last() =~= lines.subrange(0, k));
        lemma_body_none_extends(old, lines, k + 1, start);
    } else {
        assert(lines.subrange(0, k) =~= lines);
    }
}

/// Replays `hunks` against the original lines `orig` and returns the new
/// lines: the untouched region before each hunk, each hunk's replayed lines,
/// then the original lines from the final cursor on. `None` exactly where a
/// copy or a context line falls outside the original lines (where indexing
/// would fail).
pub fn reconstruct_lines(orig: &Vec<String>, hunks: &Vec<Hunk>) -> (r: Option<Vec<String>>)
    ensures
        match reconstructed(lines_view(orig@), hunks@) {
            Some(new_lines) => r matches Some(v) && lines_view(v@) == new_lines,
            None => r is None,
        },
{
    let ghost v = lines_view(orig@);
    let mut out: Vec<String> = Vec::new();
    let mut cursor: usize = 1;
    let mut i: usize = 0;
    proof {
        assert(lines_view(out@) =~= Seq::<Seq<char>>::empty());
    }
    while i < hunks.len()
        invariant
            v == lines_view(orig@),
            i <= hunks@.len(),
            replay_hunks(v, hunks@.subrange(0, i as int)) matches Some((c, so_far))
                && c == cursor as int && lines_view(out@) == so_far,
        decreases hunks@.len() - i,
    {
        proof {
            assert(hunks@.subrange(0, i + 1).drop_last() =~= hunks@.subrange(0, i as int));
        }
        let hunk = &hunks[i];
        if hunk.old_range.start > usize::MAX as u64 {
            proof { lemma_hunks_none_extends(v, hunks@, (i + 1) as int); }
            return None;
        }
        let start = hunk.old_range.start as usize;
        if cursor < start {
            if cursor == 0 || start - 1 > orig.len() {
                proof { lemma_hunks_none_extends(v, hunks@, (i + 1) as int); }
                return None;
            }
            let ghost before = lines_view(out@);
            let mut k: usize = cursor - 1;
            while k < start - 1
                invariant
                    v == lines_view(orig@),
                    1 <= cursor <= k + 1,
                    cursor < start,
                    k <= start - 1 <= orig@.len(),
                    lines_view(out@) == before + v.subrange(cursor - 1, k as int),
                decreases start - k,
            {
                push_copy(&mut out, &orig[k]);
                proof {
                    assert(v.subrange(cursor - 1, k + 1) =~= v.subrange(cursor - 1, k as int).push(v[k as int]));
                }
                k = k + 1;
            }
        } else {
            proof { assert(lines_view(out@) + Seq::<Seq<char>>::empty() =~= lines_view(out@)); }
        }
        let ghost with_gap = lines_view(out@);
        match replay_hunk_lines(orig, &hunk.lines, start, &mut out) {
            Some(c) => {
                cursor = c;
            },
            None => {
                proof { lemma_hunks_none_extends(v, hunks@, (i + 1) as int); }
                return None;
            },
        }
        proof {
            let (c0, so_far) = replay_hunks(v, hunks@.subrange(0, i as int)).unwrap();
            let g = gap_lines(v, c0, start as int).unwrap();
            assert(with_gap == so_far + g);
            let (c2, body) = replay_body(v, hunk.lines@, start as int).unwrap();
            assert(lines_view(out@) == with_gap + body);
            assert(hunks@.subrange(0, i + 1).last() == *hunk);
            assert(replay_hunks(v, hunks@.subrange(0, i + 1)) == Some((c2, so_far + g + body)));
        }
        i = i + 1;
    }
    proof {
        assert(hunks@.subrange(0, hunks@.len() as int) =~= hunks@);
    }
    let ghost before = lines_view(out@);
    let from: usize = if cursor >= 1 { cursor - 1 } else { 0 };
    let mut k: usize = from;
    while k < orig.len()
        invariant
            v == lines_view(orig@),
            from == suffix_start(cursor as int),
            from <= k,
            from < orig@.len() ==> k <= orig@.len(),
            lines_view(out@) == before + (if from < orig@.len() {
                v.subrange(from as int, k as int)
            } else {
                Seq::empty()
            }),
        decreases orig@.len() - k,
    {
        push_copy(&mut out, &orig[k]);
        proof {
            assert(v.subrange(from as int, k + 1) =~= v.subrange(from as int, k as int).push(v[k as int]));
        }
        k = k + 1;
    }
    proof {
        if from >= orig@.len() {
            assert(before + Seq::<Seq<char>>::empty() =~= before);
        }
    }
    Some(out)
}

/// Once a prefix of the hunks fails to replay, the whole sequence does.
proof fn lemma_hunks_none_extends(old: Seq<Seq<char>>, hunks: Seq<Hunk>, k: int)
    requires
        0 <= k <= hunks.len(),
        replay_hunks(old, hunks.subrange(0, k)) is None,
    ensures
        replay_hunks(old, hunks) is None,
    decreases hunks.len() - k,
{
    if k < hunks.len() {
        assert(hunks.subrange(0, k + 1).drop_last() =~= hunks.subrange(0, k));
        lemma_hunks_none_extends(old, hunks, k + 1);
    } else {
        assert(hunks.subrange(0, k) =~= hunks);
    }
}

} // verus!
