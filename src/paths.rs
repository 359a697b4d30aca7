use vstd::prelude::*;
use crate::model::FilePatch;
use crate::reconstruct::lines_view;

verus! {

/// ASCII whitespace as `str::split_ascii_whitespace` knows it.
pub open spec fn is_ascii_ws(c: char) -> bool {
    c == ' ' || c == '\t' || c == '\n' || c == '\x0C' || c == '\r'
}

/// The maximal runs of characters that are not ASCII whitespace, in order.
pub open spec fn tokens(s: Seq<char>) -> Seq<Seq<char>>
    decreases s.len(),
{
    if s.len() == 0 {
        Seq::empty()
    } else {
        let t = tokens(s.drop_last());
        let c = s.last();
        if is_ascii_ws(c) {
            t
        } else if s.len() >= 2 && !is_ascii_ws(s[s.len() - 2]) {
            t.update(t.len() - 1, t.last().push(c))
        } else {
            t.push(seq![c])
        }
    }
}

/// Whether `c` has the Unicode White_Space property: the 25 code points
/// U+0009 to U+000D, U+0020, U+0085, U+00A0, U+1680, U+2000 to U+200A,
/// U+2028, U+2029, U+202F, U+205F and U+3000.
pub open spec fn unicode_ws(c: char) -> bool {
    ('\u{9}' <= c <= '\u{d}') || c == ' ' || c == '\u{85}' || c == '\u{a0}' || c == '\u{1680}'
        || ('\u{2000}' <= c <= '\u{200a}') || c == '\u{2028}' || c == '\u{2029}' || c == '\u{202f}'
        || c == '\u{205f}' || c == '\u{3000}'
}

/// Relies on char::is_whitespace: whether `c` has the Unicode White_Space property.
#[verifier::external_body]
fn is_whitespace(c: char) -> (r: bool)
    ensures
        r == unicode_ws(c),
{
    c.is_whitespace()
}

/// `s` without its leading whitespace.
pub open spec fn trim_start_spec(s: Seq<char>) -> Seq<char>
    decreases s.len(),
{
    if s.len() > 0 && unicode_ws(s[0]) {
        trim_start_spec(s.drop_first())
    } else {
        s
    }
}

/// `s` without its trailing whitespace.
pub open spec fn trim_end_spec(s: Seq<char>) -> Seq<char>
    decreases s.len(),
{
    if s.len() > 0 && unicode_ws(s.last()) {
        trim_end_spec(s.drop_last())
    } else {
        s
    }
}

/// `s` without leading and trailing whitespace, as `str::trim` gives it.
pub open spec fn trimmed(s: Seq<char>) -> Seq<char> {
    trim_end_spec(trim_start_spec(s))
}

/// `s` without leading and trailing whitespace.
pub fn trim(s: &str) -> (r: String)
    ensures
        r@ == trimmed(s@),
{
    let n = s.unicode_len();
    let mut a: usize = 0;
    proof {
        assert(s@.subrange(0, n as int) =~= s@);
    }
    while a < n && is_whitespace(s.get_char(a))
        invariant
            n == s@.len(),
            a <= n,
            trim_start_spec(s@) == trim_start_spec(s@.subrange(a as int, n as int)),
        decreases n - a,
    {
        proof {
            assert(s@.subrange(a as int, n as int).drop_first() =~= s@.subrange(a + 1, n as int));
        }
        a = a + 1;
    }
    let ghost t = s@.subrange(a as int, n as int);
    proof {
        assert(trim_start_spec(t) == t);
        assert(t.subrange(0, t.len() as int) =~= t);
    }
    let mut b: usize = n;
    while b > a && is_whitespace(s.get_char(b - 1))
        invariant
            n == s@.len(),
            a <= b <= n,
            t == s@.subrange(a as int, n as int),
            trim_end_spec(t) == trim_end_spec(s@.subrange(a as int, b as int)),
        decreases b - a,
    {
        proof {
            assert(s@.subrange(a as int, b as int).drop_last() =~= s@.subrange(a as int, b - 1));
        }
        b = b - 1;
    }
    proof {
        assert(trim_end_spec(s@.subrange(a as int, b as int)) == s@.subrange(a as int, b as int));
    }
    let piece = s.substring_char(a, b);
    String::from_str(piece)
}

/// The whitespace-separated tokens of `s`.
pub fn split_tokens(s: &str) -> (r: Vec<String>)
    ensures
        lines_view(r@) == tokens(s@),
{
    let n = s.unicode_len();
    let mut toks: Vec<String> = Vec::new();
    let mut start: usize = 0;
    let mut in_token = false;
    let mut i: usize = 0;
    proof {
        assert(lines_view(toks@) =~= Seq::<Seq<char>>::empty());
        assert(s@.subrange(0, 0) =~= Seq::<char>::empty());
    }
    while i < n
        invariant
            n == s@.len(),
            i <= n,
            in_token == (i > 0 && !is_ascii_ws(s@[i - 1])),
            in_token ==> start < i,
            in_token ==> tokens(s@.subrange(0, i as int)) == lines_view(toks@).push(s@.subrange(start as int, i as int)),
            !in_token ==> tokens(s@.subrange(0, i as int)) == lines_view(toks@),
        decreases n - i,
    {
        let c = s.get_char(i);
        let ghost pre = s@.subrange(0, i as int);
        let ghost next = s@.subrange(0, i + 1);
        proof {
            assert(next.drop_last() =~= pre);
            assert(next.last() == c);
        }
        if c == ' ' || c == '\t' || c == '\n' || c == '\x0C' || c == '\r' {
            if in_token {
                let ghost before = toks@;
                let t = s.substring_char(start, i);
                let piece = String::from_str(t);
                toks.push(piece);
                proof {
                    assert(lines_view(toks@) =~= lines_view(before).push(s@.subrange(start as int, i as int)));
                }
            }
            in_token = false;
        } else {
            if !in_token {
                start = i;
                proof {
                    assert(s@.subrange(start as int, i + 1) =~= seq![c]);
                }
            } else {
                proof {
                    assert(next[next.len() - 2] == s@[i - 1]);
                    assert(s@.subrange(start as int, i + 1) =~= s@.subrange(start as int, i as int).push(c));
                    let lv = lines_view(toks@);
                    assert(lv.push(s@.subrange(start as int, i as int)).update(lv.len() as int, s@.subrange(start as int, i + 1))
                        =~= lv.push(s@.subrange(start as int, i + 1)));
                }
            }
            in_token = true;
        }
        i = i + 1;
    }
    proof {
        assert(s@.subrange(0, n as int) =~= s@);
    }
    if in_token {
        let t = s.substring_char(start, n);
        let piece = String::from_str(t);
        toks.push(piece);
        proof {
            assert(lines_view(toks@) =~= tokens(s@));
        }
    }
    toks
}

/// The token at `index` of `s`, if `s` has that many tokens.
fn token_at(s: &str, index: usize) -> (r: Option<String>)
    ensures
        match r {
            Some(t) => index < tokens(s@).len() && t@ == tokens(s@)[index as int],
            None => index >= tokens(s@).len(),
        },
{
    let toks = split_tokens(s);
    if index < toks.len() {
        let t = toks[index].clone();
        Some(t)
    } else {
        None
    }
}

impl FilePatch {
    /// The path of the file to read: the second token of the old file
    /// reference, once trimmed.
    pub fn source_path(&self) -> (r: Option<String>)
        ensures
            match r {
                Some(p) => tokens(trimmed(self.old_reference@)).len() >= 2 && p@ == tokens(trimmed(self.old_reference@))[1],
                None => tokens(trimmed(self.old_reference@)).len() < 2,
            },
    {
        let t = trim(self.old_reference.as_str());
        token_at(t.as_str(), 1)
    }

    /// The path of the file to write: the first token of the new file reference.
    pub fn destination_path(&self) -> (r: Option<String>)
        ensures
            match r {
                Some(p) => tokens(self.new_reference@).len() >= 1 && p@ == tokens(self.new_reference@)[0],
                None => tokens(self.new_reference@).len() == 0,
            },
    {
        token_at(self.new_reference.as_str(), 0)
    }
}

} // verus!
