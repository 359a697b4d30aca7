use vstd::prelude::*;

verus! {

// Line kinds, as the unified-diff parser tells lines apart.
pub const BAD: u8 = 0;
pub const HUNK_LINE: u8 = 1;
pub const HEADER: u8 = 2;
pub const HEADER_OVERFLOW: u8 = 3;
pub const OLD_FILE: u8 = 4;
pub const OLD_FILE_BAD: u8 = 5;
pub const NEW_FILE: u8 = 6;
pub const NEW_FILE_BAD: u8 = 7;
pub const NO_NEWLINE: u8 = 8;
pub const NO_NEWLINE_OTHER: u8 = 9;
pub const BLANK: u8 = 10;
pub const OTHER: u8 = 11;

// Where the parser stands between two lines.
pub const PREAMBLE: u8 = 0;
pub const FIRST_OLD: u8 = 1;
pub const LATER_OLD: u8 = 2;
pub const FIRST_NEW: u8 = 3;
pub const LATER_NEW: u8 = 4;
pub const FIRST_HEAD: u8 = 5;
pub const LATER_HEAD: u8 = 6;
pub const IN_HUNK: u8 = 7;
pub const AFTER_MARKER: u8 = 8;
pub const AFTER_BLANK: u8 = 9;
pub const BETWEEN: u8 = 10;
pub const REFUSED: u8 = 11;
pub const UNSAFE: u8 = 12;

pub open spec fn is_digit(c: char) -> bool {
    '0' <= c <= '9'
}

/// A line without the carriage return of a "\r\n" ending.
pub open spec fn body(l: Seq<char>) -> Seq<char> {
    if l.len() > 0 && l.last() == '\r' {
        l.drop_last()
    } else {
        l
    }
}

/// No carriage return but at the end of the line.
pub open spec fn line_ok(l: Seq<char>) -> bool {
    forall|i: int| 0 <= i < l.len() - 1 ==> #[trigger] l[i] != '\r'
}

/// Whether "---" occurs in `b`.
pub open spec fn has_dashes(b: Seq<char>) -> bool {
    exists|i: int| 0 <= i && i + 3 <= b.len() && #[trigger] b[i] == '-' && b[i + 1] == '-' && b[i + 2] == '-'
}

/// A line that the parser takes as a hunk line.
pub open spec fn is_hunk_line(b: Seq<char>) -> bool {
    b.len() >= 1 && (
        (b[0] == '+' && !"++ "@.is_prefix_of(b.drop_first()))
        || (b[0] == '-' && !"-- "@.is_prefix_of(b.drop_first()))
        || b[0] == ' ')
}

/// A file name after "--- " or "+++ " that the parser reads as a plain name:
/// not empty, no tab first, no quote anywhere.
pub open spec fn name_ok(b: Seq<char>) -> bool {
    b.len() > 4 && b[4] != '\t' && forall|i: int| 4 <= i < b.len() ==> #[trigger] b[i] != '"'
}

pub open spec fn digits_value(d: Seq<char>) -> nat
    decreases d.len(),
{
    if d.len() == 0 {
        0
    } else {
        digits_value(d.drop_last()) * 10 + (d.last() as nat - '0' as nat) as nat
    }
}

/// The end of the run of digits that starts at `i`.
pub open spec fn digits_end(b: Seq<char>, i: int) -> int
    decreases b.len() - i,
{
    if 0 <= i < b.len() && is_digit(b[i]) {
        digits_end(b, i + 1)
    } else {
        i
    }
}

pub open spec fn fits(b: Seq<char>, i: int, e: int) -> bool {
    digits_value(b.subrange(i, e)) <= u64::MAX
}

/// A range `digits[,digits]` at `i`: its end, -1 where it has no digits,
/// -2 where a number passes `u64::MAX`.
pub open spec fn range_end(b: Seq<char>, i: int) -> int {
    let e = digits_end(b, i);
    if e == i {
        -1
    } else if !fits(b, i, e) {
        -2
    } else if e < b.len() && b[e] == ',' && digits_end(b, e + 1) > e + 1 {
        if fits(b, e + 1, digits_end(b, e + 1)) {
            digits_end(b, e + 1)
        } else {
            -2
        }
    } else {
        e
    }
}

pub open spec fn has_at(b: Seq<char>, i: int, p: Seq<char>) -> bool {
    0 <= i && i + p.len() <= b.len() && b.subrange(i, i + p.len()) == p
}

/// A hunk header: 1 where it is well formed, 2 where a number in it passes
/// `u64::MAX` before it fails, 0 otherwise.
pub open spec fn header_status(b: Seq<char>) -> u8 {
    if !"@@ -"@.is_prefix_of(b) {
        0
    } else {
        let r1 = range_end(b, 4);
        if r1 == -2 {
            2
        } else if r1 == -1 || !has_at(b, r1, " +"@) {
            0
        } else {
            let r2 = range_end(b, r1 + 2);
            if r2 == -2 {
                2
            } else if r2 == -1 || !has_at(b, r2, " @@"@) {
                0
            } else {
                1
            }
        }
    }
}

pub open spec fn line_kind(l: Seq<char>) -> u8 {
    let b = body(l);
    if !line_ok(l) {
        BAD
    } else if is_hunk_line(b) {
        HUNK_LINE
    } else if "--- "@.is_prefix_of(b) {
        if name_ok(b) { OLD_FILE } else { OLD_FILE_BAD }
    } else if "+++ "@.is_prefix_of(b) {
        if name_ok(b) { NEW_FILE } else { NEW_FILE_BAD }
    } else if header_status(b) == 1 {
        HEADER
    } else if header_status(b) == 2 {
        HEADER_OVERFLOW
    } else if b == "\\ No newline at end of file"@ {
        NO_NEWLINE
    } else if "\\ No newline at end of file"@.is_prefix_of(b) {
        NO_NEWLINE_OTHER
    } else if b.len() == 0 {
        BLANK
    } else {
        OTHER
    }
}

/// Text before a file section: a line with "---" must start the section.
pub open spec fn preamble_step(k: u8, dashes: bool, stay: u8) -> u8 {
    if k == OLD_FILE {
        LATER_OLD
    } else if dashes {
        UNSAFE
    } else {
        stay
    }
}

/// The parser's position after one more line of kind `k`.
pub open spec fn step(st: u8, k: u8, dashes: bool) -> u8 {
    if st == REFUSED || st == UNSAFE {
        st
    } else if k == BAD {
        UNSAFE
    } else if st == PREAMBLE {
        if k == OLD_FILE {
            FIRST_OLD
        } else if dashes {
            UNSAFE
        } else {
            PREAMBLE
        }
    } else if st == FIRST_OLD {
        if k == NEW_FILE { FIRST_NEW } else if k == NEW_FILE_BAD { UNSAFE } else { REFUSED }
    } else if st == LATER_OLD {
        if k == NEW_FILE { LATER_NEW } else { UNSAFE }
    } else if st == FIRST_NEW {
        if k == HEADER { FIRST_HEAD } else if k == HEADER_OVERFLOW { UNSAFE } else { REFUSED }
    } else if st == LATER_NEW {
        if k == HEADER { LATER_HEAD } else { UNSAFE }
    } else if st == FIRST_HEAD {
        if k == HUNK_LINE { IN_HUNK } else { REFUSED }
    } else if st == LATER_HEAD {
        if k == HUNK_LINE { IN_HUNK } else { UNSAFE }
    } else if st == IN_HUNK {
        if k == HUNK_LINE {
            IN_HUNK
        } else if k == HEADER {
            LATER_HEAD
        } else if k == HEADER_OVERFLOW || k == NO_NEWLINE_OTHER {
            UNSAFE
        } else if k == NO_NEWLINE {
            AFTER_MARKER
        } else if k == BLANK {
            AFTER_BLANK
        } else {
            preamble_step(k, dashes, BETWEEN)
        }
    } else if st == AFTER_MARKER || st == AFTER_BLANK {
        if k == BLANK { AFTER_BLANK } else { preamble_step(k, dashes, BETWEEN) }
    } else {
        preamble_step(k, dashes, BETWEEN)
    }
}

pub open spec fn run(lines: Seq<Seq<char>>) -> u8
    decreases lines.len(),
{
    if lines.len() == 0 {
        PREAMBLE
    } else {
        step(run(lines.drop_last()), line_kind(lines.last()), has_dashes(body(lines.last())))
    }
}

/// Whether the text may end here: `last` is what follows the last newline.
pub open spec fn may_end(st: u8, last: Seq<char>) -> bool {
    if last.len() == 0 {
        st == PREAMBLE || st == FIRST_OLD || st == FIRST_NEW || st == FIRST_HEAD || st == IN_HUNK
            || st == AFTER_MARKER || st == AFTER_BLANK || st == REFUSED
    } else {
        st == PREAMBLE || st == FIRST_OLD || st == FIRST_HEAD || st == REFUSED
            || (st == FIRST_NEW && line_kind(last) != HEADER_OVERFLOW && line_kind(last) != BAD)
    }
}

/// Whether the unified-diff parser reads `text` to its end or refuses it
/// with an error, without panicking: its lines (split on "\n") are screened
/// against how the parser reads them, conservatively.
pub open spec fn parser_safe(text: Seq<char>) -> bool {
    let lines = crate::lines::split_spec(text, "\n"@);
    may_end(run(lines.drop_last()), lines.last())
}

fn body_of(l: &str) -> (r: String)
    ensures
        r@ == body(l@),
{
    let n = l.unicode_len();
    if n > 0 && l.get_char(n - 1) == '\r' {
        String::from_str(l.substring_char(0, n - 1))
    } else {
        proof {
            assert(l@.subrange(0, n as int) =~= l@);
        }
        String::from_str(l)
    }
}

fn check_line_ok(l: &str) -> (r: bool)
    ensures
        r == line_ok(l@),
{
    let n = l.unicode_len();
    let mut i: usize = 0;
    while i < n
        invariant
            n == l@.len(),
            i <= n,
            forall|j: int| 0 <= j < i && j < n - 1 ==> #[trigger] l@[j] != '\r',
        decreases n - i,
    {
        if i + 1 < n && l.get_char(i) == '\r' {
            return false;
        }
        i = i + 1;
    }
    true
}

fn has_prefix(s: &str, p: &str) -> (r: bool)
    ensures
        r == p@.is_prefix_of(s@),
{
    let n = s.unicode_len();
    let m = p.unicode_len();
    if m > n {
        return false;
    }
    let mut k: usize = 0;
    while k < m
        invariant
            n == s@.len(),
            m == p@.len(),
            m <= n,
            k <= m,
            forall|j: int| 0 <= j < k ==> s@[j] == p@[j],
        decreases m - k,
    {
        if s.get_char(k) != p.get_char(k) {
            proof {
                assert(s@.subrange(0, m as int)[k as int] != p@[k as int]);
            }
            return false;
        }
        k = k + 1;
    }
    proof {
        assert(p@ =~= s@.subrange(0, m as int));
    }
    true
}

fn check_dashes(b: &str) -> (r: bool)
    ensures
        r == has_dashes(b@),
{
    let n = b.unicode_len();
    let mut i: usize = 0;
    while i < n
        invariant
            n == b@.len(),
            i <= n,
            forall|j: int| 0 <= j < i && j + 3 <= n ==> !(#[trigger] b@[j] == '-' && b@[j + 1] == '-' && b@[j + 2] == '-'),
        decreases n - i,
    {
        if n - i >= 3 && b.get_char(i) == '-' && b.get_char(i + 1) == '-' && b.get_char(i + 2) == '-' {
            return true;
        }
        i = i + 1;
    }
    false
}

fn check_hunk_line(b: &str) -> (r: bool)
    ensures
        r == is_hunk_line(b@),
{
    let n = b.unicode_len();
    if n == 0 {
        return false;
    }
    let c = b.get_char(0);
    let rest = b.substring_char(1, n);
    proof {
        assert(rest@ =~= b@.drop_first());
    }
    if c == '+' {
        !has_prefix(rest, "++ ")
    } else if c == '-' {
        !has_prefix(rest, "-- ")
    } else {
        c == ' '
    }
}

fn check_name(b: &str) -> (r: bool)
    ensures
        r == name_ok(b@),
{
    let n = b.unicode_len();
    if n <= 4 || b.get_char(4) == '\t' {
        return false;
    }
    let mut i: usize = 4;
    while i < n
        invariant
            n == b@.len(),
            4 <= i <= n,
            forall|j: int| 4 <= j < i ==> #[trigger] b@[j] != '"',
        decreases n - i,
    {
        if b.get_char(i) == '"' {
            return false;
        }
        i = i + 1;
    }
    true
}

fn find_digits_end(b: &str, n: usize, i: usize) -> (r: usize)
    requires
        n == b@.len(),
        i <= n,
    ensures
        r as int == digits_end(b@, i as int),
        i <= r <= n,
{
    let mut e: usize = i;
    while e < n
        invariant
            n == b@.len(),
            i <= e <= n,
            digits_end(b@, i as int) == digits_end(b@, e as int),
        decreases n - e,
    {
        let c = b.get_char(e);
        if !('0' <= c && c <= '9') {
            return e;
        }
        e = e + 1;
    }
    e
}

proof fn lemma_value_grows(d: Seq<char>, k: int)
    requires
        0 <= k <= d.len(),
        forall|j: int| 0 <= j < d.len() ==> is_digit(#[trigger] d[j]),
    ensures
        digits_value(d.subrange(0, k)) <= digits_value(d),
    decreases d.len() - k,
{
    if k < d.len() {
        lemma_value_grows(d, k + 1);
        assert(d.subrange(0, k + 1).drop_last() =~= d.subrange(0, k));
    } else {
        assert(d.subrange(0, k) =~= d);
    }
}

fn check_fits(b: &str, i: usize, e: usize) -> (r: bool)
    requires
        i <= e <= b@.len(),
        forall|j: int| i <= j < e ==> is_digit(#[trigger] b@[j]),
    ensures
        r == fits(b@, i as int, e as int),
{
    let mut v: u64 = 0;
    let mut k: usize = i;
    proof {
        assert(b@.subrange(i as int, i as int) =~= Seq::<char>::empty());
    }
    while k < e
        invariant
            i <= k <= e <= b@.len(),
            forall|j: int| i <= j < e ==> is_digit(#[trigger] b@[j]),
            v as nat == digits_value(b@.subrange(i as int, k as int)),
        decreases e - k,
    {
        let c = b.get_char(k);
        let d: u64 = (c as u32 - '0' as u32) as u64;
        proof {
            assert(is_digit(b@[k as int]));
            assert(b@.subrange(i as int, k + 1).drop_last() =~= b@.subrange(i as int, k as int));
        }
        if v > (u64::MAX - d) / 10 {
            proof {
                let dd = b@.subrange(i as int, e as int);
                assert forall|j: int| 0 <= j < dd.len() implies is_digit(#[trigger] dd[j]) by {
                    assert(dd[j] == b@[i + j]);
                }
                lemma_value_grows(dd, (k + 1 - i) as int);
                assert(dd.subrange(0, (k + 1 - i) as int) =~= b@.subrange(i as int, k + 1));
                assert(v * 10 + d > u64::MAX) by (nonlinear_arith)
                    requires v > (u64::MAX - d) / 10, d <= 9;
            }
            return false;
        }
        proof {
            assert(v * 10 + d <= u64::MAX) by (nonlinear_arith)
                requires v <= (u64::MAX - d) / 10, d <= 9;
        }
        v = v * 10 + d;
        k = k + 1;
    }
    true
}

proof fn lemma_digits_run(b: Seq<char>, i: int)
    requires
        0 <= i <= b.len(),
    ensures
        i <= digits_end(b, i) <= b.len(),
        forall|j: int| i <= j < digits_end(b, i) ==> is_digit(#[trigger] b[j]),
    decreases b.len() - i,
{
    if i < b.len() && is_digit(b[i]) {
        lemma_digits_run(b, i + 1);
    }
}

/// (0, _) where the range has no digits, (1, _) where a number passes
/// `u64::MAX`, (2, end) otherwise.
fn scan_range(b: &str, n: usize, i: usize) -> (r: (u8, usize))
    requires
        n == b@.len(),
        i <= n,
    ensures
        r.0 == 0 ==> range_end(b@, i as int) == -1,
        r.0 == 1 ==> range_end(b@, i as int) == -2,
        r.0 == 2 ==> range_end(b@, i as int) == r.1 as int && r.1 <= n,
        r.0 <= 2,
{
    let e = find_digits_end(b, n, i);
    proof { lemma_digits_run(b@, i as int); }
    if e == i {
        return (0, 0);
    }
    if !check_fits(b, i, e) {
        return (1, 0);
    }
    if e < n && b.get_char(e) == ',' {
        let e2 = find_digits_end(b, n, e + 1);
        if e2 > e + 1 {
            proof { lemma_digits_run(b@, e + 1); }
            if check_fits(b, e + 1, e2) {
                return (2, e2);
            } else {
                return (1, 0);
            }
        }
    }
    (2, e)
}

fn check_at(b: &str, n: usize, i: usize, p: &str) -> (r: bool)
    requires
        n == b@.len(),
        i <= n,
    ensures
        r == has_at(b@, i as int, p@),
{
    let rest = b.substring_char(i, n);
    let r = has_prefix(rest, p);
    proof {
        if r {
            assert(rest@.subrange(0, p@.len() as int) =~= b@.subrange(i as int, i + p@.len()));
        } else if i + p@.len() <= n {
            assert(rest@.subrange(0, p@.len() as int) =~= b@.subrange(i as int, i + p@.len()));
        }
    }
    r
}

fn check_header(b: &str) -> (r: u8)
    ensures
        r == header_status(b@),
{
    let n = b.unicode_len();
    if !has_prefix(b, "@@ -") {
        return 0;
    }
    proof { reveal_strlit("@@ -"); }
    let r1 = scan_range(b, n, 4);
    if r1.0 == 1 {
        return 2;
    }
    if r1.0 == 0 || !check_at(b, n, r1.1, " +") {
        return 0;
    }
    proof { reveal_strlit(" +"); }
    let r2 = scan_range(b, n, r1.1 + 2);
    if r2.0 == 1 {
        return 2;
    }
    if r2.0 == 0 || !check_at(b, n, r2.1, " @@") {
        return 0;
    }
    1
}

fn kind_of(l: &str) -> (r: (u8, bool))
    ensures
        r.0 == line_kind(l@),
        r.1 == has_dashes(body(l@)),
{
    let b = body_of(l);
    let bs = b.as_str();
    let dashes = check_dashes(bs);
    let k = if !check_line_ok(l) {
        BAD
    } else if check_hunk_line(bs) {
        HUNK_LINE
    } else if has_prefix(bs, "--- ") {
        if check_name(bs) { OLD_FILE } else { OLD_FILE_BAD }
    } else if has_prefix(bs, "+++ ") {
        if check_name(bs) { NEW_FILE } else { NEW_FILE_BAD }
    } else {
        let h = check_header(bs);
        if h == 1 {
            HEADER
        } else if h == 2 {
            HEADER_OVERFLOW
        } else {
            let marker = "\\ No newline at end of file";
            if has_prefix(bs, marker) {
                if bs.unicode_len() == marker.unicode_len() {
                    proof {
                        assert(bs@ =~= marker@);
                    }
                    NO_NEWLINE
                } else {
                    NO_NEWLINE_OTHER
                }
            } else if bs.unicode_len() == 0 {
                BLANK
            } else {
                OTHER
            }
        }
    };
    (k, dashes)
}

fn next_state(st: u8, k: u8, dashes: bool) -> (r: u8)
    ensures
        r == step(st, k, dashes),
{
    let later = if k == OLD_FILE { LATER_OLD } else if dashes { UNSAFE } else { BETWEEN };
    if st == REFUSED || st == UNSAFE {
        st
    } else if k == BAD {
        UNSAFE
    } else if st == PREAMBLE {
        if k == OLD_FILE { FIRST_OLD } else if dashes { UNSAFE } else { PREAMBLE }
    } else if st == FIRST_OLD {
        if k == NEW_FILE { FIRST_NEW } else if k == NEW_FILE_BAD { UNSAFE } else { REFUSED }
    } else if st == LATER_OLD {
        if k == NEW_FILE { LATER_NEW } else { UNSAFE }
    } else if st == FIRST_NEW {
        if k == HEADER { FIRST_HEAD } else if k == HEADER_OVERFLOW { UNSAFE } else { REFUSED }
    } else if st == LATER_NEW {
        if k == HEADER { LATER_HEAD } else { UNSAFE }
    } else if st == FIRST_HEAD {
        if k == HUNK_LINE { IN_HUNK } else { REFUSED }
    } else if st == LATER_HEAD {
        if k == HUNK_LINE { IN_HUNK } else { UNSAFE }
    } else if st == IN_HUNK {
        if k == HUNK_LINE {
            IN_HUNK
        } else if k == HEADER {
            LATER_HEAD
        } else if k == HEADER_OVERFLOW || k == NO_NEWLINE_OTHER {
            UNSAFE
        } else if k == NO_NEWLINE {
            AFTER_MARKER
        } else if k == BLANK {
            AFTER_BLANK
        } else {
            later
        }
    } else if st == AFTER_MARKER || st == AFTER_BLANK {
        if k == BLANK { AFTER_BLANK } else { later }
    } else {
        later
    }
}

/// Whether the unified-diff parser reads `text` to its end or refuses it
/// without panicking, as far as this screen can tell.
pub fn check_parser_safe(text: &str) -> (r: bool)
    ensures
        r == parser_safe(text@),
{
    proof { reveal_strlit("\n"); }
    let lines = crate::lines::split_lines(text, "\n");
    let ghost v = crate::reconstruct::lines_view(lines@);
    proof { crate::lines::lemma_split_nonempty(text@, "\n"@); }
    let last = lines.len() - 1;
    let mut st: u8 = PREAMBLE;
    let mut i: usize = 0;
    while i < last
        invariant
            v == crate::reconstruct::lines_view(lines@),
            last + 1 == lines@.len(),
            i <= last,
            st == run(v.subrange(0, i as int)),
        decreases last - i,
    {
        let (k, d) = kind_of(lines[i].as_str());
        proof {
            assert(v.subrange(0, i + 1).drop_last() =~= v.subrange(0, i as int));
            assert(v[i as int] == lines@[i as int]@);
        }
        st = next_state(st, k, d);
        i = i + 1;
    }
    proof {
        assert(v.subrange(0, last as int) =~= v.drop_last());
        assert(v.last() == lines@[last as int]@);
    }
    let tail = lines[last].as_str();
    let n = tail.unicode_len();
    if n == 0 {
        st == PREAMBLE || st == FIRST_OLD || st == FIRST_NEW || st == FIRST_HEAD || st == IN_HUNK
            || st == AFTER_MARKER || st == AFTER_BLANK || st == REFUSED
    } else {
        let (k, _) = kind_of(tail);
        st == PREAMBLE || st == FIRST_OLD || st == FIRST_HEAD || st == REFUSED
            || (st == FIRST_NEW && k != HEADER_OVERFLOW && k != BAD)
    }
}

} // verus!
