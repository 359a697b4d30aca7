use vstd::prelude::*;
use crate::reconstruct::lines_view;

verus! {

/// The pieces of `s` between the non-overlapping occurrences of `sep`, found
/// from left to right. Always at least one piece.
pub open spec fn split_spec(s: Seq<char>, sep: Seq<char>) -> Seq<Seq<char>>
    decreases s.len(),
{
    if sep.len() == 0 || s.len() < sep.len() {
        seq![s]
    } else if s.subrange(0, sep.len() as int) == sep {
        seq![Seq::<char>::empty()] + split_spec(s.subrange(sep.len() as int, s.len() as int), sep)
    } else {
        let rest = split_spec(s.drop_first(), sep);
        seq![seq![s[0]] + rest[0]] + rest.drop_first()
    }
}

/// The pieces joined with `sep` between each two neighbours.
pub open spec fn join_spec(pieces: Seq<Seq<char>>, sep: Seq<char>) -> Seq<char>
    decreases pieces.len(),
{
    if pieces.len() == 0 {
        Seq::empty()
    } else if pieces.len() == 1 {
        pieces[0]
    } else {
        join_spec(pieces.drop_last(), sep) + sep + pieces.last()
    }
}

/// `s` with `sep` appended, unless it already ends with `sep`.
pub open spec fn with_trailing_spec(s: Seq<char>, sep: Seq<char>) -> Seq<char> {
    if sep.is_suffix_of(s) {
        s
    } else {
        s + sep
    }
}

pub proof fn lemma_split_nonempty(s: Seq<char>, sep: Seq<char>)
    ensures
        split_spec(s, sep).len() >= 1,
    decreases s.len(),
{
    if sep.len() == 0 || s.len() < sep.len() {
    } else if s.subrange(0, sep.len() as int) == sep {
        lemma_split_nonempty(s.subrange(sep.len() as int, s.len() as int), sep);
    } else {
        lemma_split_nonempty(s.drop_first(), sep);
    }
}

proof fn lemma_join_front(a: Seq<char>, rest: Seq<Seq<char>>, sep: Seq<char>)
    requires
        rest.len() >= 1,
    ensures
        join_spec(seq![a] + rest, sep) == a + sep + join_spec(rest, sep),
    decreases rest.len(),
{
    let whole = seq![a] + rest;
    assert(whole.last() == rest.last());
    if rest.len() == 1 {
        assert(whole.drop_last() =~= seq![a]);
        assert(join_spec(seq![a], sep) == a);
        assert(join_spec(rest, sep) == rest[0]);
    } else {
        lemma_join_front(a, rest.drop_last(), sep);
        assert(whole.drop_last() =~= seq![a] + rest.drop_last());
        assert(join_spec(rest, sep) == join_spec(rest.drop_last(), sep) + sep + rest.last());
        assert(join_spec(whole, sep) == join_spec(whole.drop_last(), sep) + sep + whole.last());
        assert(a + sep + join_spec(rest, sep) =~= a + sep + join_spec(rest.drop_last(), sep) + sep + rest.last());
    }
}

proof fn lemma_join_extend_first(x: Seq<char>, pieces: Seq<Seq<char>>, sep: Seq<char>)
    requires
        pieces.len() >= 1,
    ensures
        join_spec(seq![x + pieces[0]] + pieces.drop_first(), sep) == x + join_spec(pieces, sep),
{
    let rest = pieces.drop_first();
    assert(pieces =~= seq![pieces[0]] + rest);
    if rest.len() == 0 {
        assert(seq![x + pieces[0]] + rest =~= seq![x + pieces[0]]);
    } else {
        lemma_join_front(x + pieces[0], rest, sep);
        lemma_join_front(pieces[0], rest, sep);
        assert(x + pieces[0] + sep + join_spec(rest, sep) =~= x + (pieces[0] + sep + join_spec(rest, sep)));
    }
}

/// Splitting a text on a non-empty line ending and joining the pieces with the
/// same line ending gives back the text, byte for byte.
pub proof fn lemma_join_split(s: Seq<char>, sep: Seq<char>)
    requires
        sep.len() > 0,
    ensures
        join_spec(split_spec(s, sep), sep) == s,
    decreases s.len(),
{
    if s.len() < sep.len() {
    } else if s.subrange(0, sep.len() as int) == sep {
        let rest = s.subrange(sep.len() as int, s.len() as int);
        lemma_join_split(rest, sep);
        lemma_split_nonempty(rest, sep);
        lemma_join_front(Seq::empty(), split_spec(rest, sep), sep);
        assert(Seq::<char>::empty() + sep + rest =~= s);
    } else {
        let rest = split_spec(s.drop_first(), sep);
        lemma_join_split(s.drop_first(), sep);
        lemma_split_nonempty(s.drop_first(), sep);
        lemma_join_extend_first(seq![s[0]], rest, sep);
        assert(seq![s[0]] + s.drop_first() =~= s);
    }
}

/// Relies on str::split with a non-empty pattern: the pieces between the
/// non-overlapping matches, taken from left to right.
#[verifier::external_body]
fn split_on(s: &str, sep: &str) -> (r: Vec<String>)
    requires
        sep@.len() > 0,
    ensures
        lines_view(r@) == split_spec(s@, sep@),
{
    s.split(sep).map(|piece| piece.to_string()).collect()
}

/// Splits `text` into lines on the non-empty token `line_ending`.
pub fn split_lines(text: &str, line_ending: &str) -> (r: Vec<String>)
    requires
        line_ending@.len() > 0,
    ensures
        lines_view(r@) == split_spec(text@, line_ending@),
{
    split_on(text, line_ending)
}

/// Joins `lines` with `line_ending` between each two neighbours.
pub fn join_lines(lines: &Vec<String>, line_ending: &str) -> (r: String)
    ensures
        r@ == join_spec(lines_view(lines@), line_ending@),
{
    let ghost v = lines_view(lines@);
    let mut out = String::new();
    let mut i: usize = 0;
    while i < lines.len()
        invariant
            v == lines_view(lines@),
            i <= lines@.len(),
            out@ == join_spec(v.subrange(0, i as int), line_ending@),
        decreases lines@.len() - i,
    {
        proof {
            assert(v.subrange(0, i + 1).drop_last() =~= v.subrange(0, i as int));
        }
        if i > 0 {
            out.append(line_ending);
        }
        out.append(lines[i].as_str());
        proof {
            if i == 0 {
                assert(out@ =~= v.subrange(0, 1)[0]);
            }
        }
        i = i + 1;
    }
    proof {
        assert(v.subrange(0, lines@.len() as int) =~= v);
    }
    out
}

/// Whether `s` ends with `t`.
pub fn ends_with(s: &str, t: &str) -> (r: bool)
    ensures
        r == t@.is_suffix_of(s@),
{
    let n = s.unicode_len();
    let m = t.unicode_len();
    if m > n {
        return false;
    }
    let mut k: usize = 0;
    while k < m
        invariant
            n == s@.len(),
            m == t@.len(),
            m <= n,
            k <= m,
            forall|j: int| 0 <= j < k ==> s@[n - m + j] == t@[j],
        decreases m - k,
    {
        if s.get_char(n - m + k) != t.get_char(k) {
            proof {
                assert(t@ !~= s@.subrange(n - m, n as int) || s@.subrange(n - m, n as int)[k as int] == t@[k as int]);
            }
            return false;
        }
        k = k + 1;
    }
    proof {
        assert(t@ =~= s@.subrange(n - m, n as int));
    }
    true
}

/// `text` as it is if it already ends with `line_ending`, else with one appended.
pub fn with_trailing(text: &str, line_ending: &str) -> (r: String)
    ensures
        r@ == with_trailing_spec(text@, line_ending@),
{
    let mut out = String::from_str(text);
    if !ends_with(text, line_ending) {
        out.append(line_ending);
    }
    out
}

} // verus!
