use vstd::prelude::*;
use crate::error::PatchError;
use crate::lines::{with_trailing, with_trailing_spec};
use crate::model::{FilePatch, HunkLine, Range};
use crate::screen::{check_parser_safe, parser_safe};
use patch::Line;

verus! {

/// A parsed hunk line as plain values: its kind (0 removed, 1 added,
/// 2 context) and its text.
pub type RawLine = (u8, String);

/// A parsed hunk as plain values: old range start, old range count, lines.
pub type RawHunk = (u64, u64, Vec<RawLine>);

/// A parsed file patch as plain values: old and new file references, hunks.
pub type RawPatch = (String, String, Vec<RawHunk>);

/// The mathematical form of a file patch: references, then for each hunk
/// its old range start and count and its lines as (kind, text).
pub type PatchModel = (Seq<char>, Seq<char>, Seq<(int, int, Seq<(int, Seq<char>)>)>);

/// Whether the unified-diff parser accepts `text`.
pub uninterp spec fn parses(text: Seq<char>) -> bool;

/// What the unified-diff parser makes of `text`, where it accepts it.
pub uninterp spec fn parsed_patches(text: Seq<char>) -> Seq<PatchModel>;

/// The parser's message on `text`, where it refuses it.
pub uninterp spec fn parse_error_text(text: Seq<char>) -> Seq<char>;

pub open spec fn raw_line_model(l: RawLine) -> (int, Seq<char>) {
    (l.0 as int, l.1@)
}

pub open spec fn raw_hunk_model(h: RawHunk) -> (int, int, Seq<(int, Seq<char>)>) {
    (h.0 as int, h.1 as int, h.2@.map_values(|l: RawLine| raw_line_model(l)))
}

pub open spec fn raw_model(v: Seq<RawPatch>) -> Seq<PatchModel> {
    v.map_values(|p: RawPatch| (p.0@, p.1@, p.2@.map_values(|h: RawHunk| raw_hunk_model(h))))
}

/// A hunk line as (kind, text); a removed line's text is not kept.
pub open spec fn line_model(l: HunkLine) -> (int, Seq<char>) {
    match l {
        HunkLine::Remove => (0, Seq::empty()),
        HunkLine::Add(t) => (1, t@),
        HunkLine::Context(t) => (2, t@),
    }
}

/// A parsed line as `line_model` sees it: kind 1 added, 2 or more context,
/// anything else removed with its text dropped.
pub open spec fn normal_line(l: (int, Seq<char>)) -> (int, Seq<char>) {
    if l.0 == 1 {
        l
    } else if l.0 >= 2 {
        (2, l.1)
    } else {
        (0, Seq::empty())
    }
}

pub open spec fn normal_hunk(h: (int, int, Seq<(int, Seq<char>)>)) -> (int, int, Seq<(int, Seq<char>)>) {
    (h.0, h.1, h.2.map_values(|l: (int, Seq<char>)| normal_line(l)))
}

pub open spec fn normal_model(v: Seq<PatchModel>) -> Seq<PatchModel> {
    v.map_values(|p: PatchModel| (p.0, p.1, p.2.map_values(|h: (int, int, Seq<(int, Seq<char>)>)| normal_hunk(h))))
}

pub open spec fn hunk_model(h: crate::model::Hunk) -> (int, int, Seq<(int, Seq<char>)>) {
    (h.old_range.start as int, h.old_range.count as int, h.lines@.map_values(|l: HunkLine| line_model(l)))
}

pub open spec fn file_patch_model(fp: FilePatch) -> PatchModel {
    (fp.old_reference@, fp.new_reference@, fp.hunks@.map_values(|h: crate::model::Hunk| hunk_model(h)))
}

pub open spec fn file_patches_model(v: Seq<FilePatch>) -> Seq<PatchModel> {
    v.map_values(|fp: FilePatch| file_patch_model(fp))
}

/// Relies on patch::Patch::from_multiple: it parses one or more unified
/// diffs, and its result and its error message depend on the text alone.
/// Each patch is handed on as its file paths, and each hunk as its old range
/// and lines. The parser panics on a range number beyond `u64` and on text
/// left after the last file section that it could read; the `requires`
/// admits only text that it reads to the end or refuses with an error.
#[verifier::external_body]
fn parse_multiple(text: &str) -> (r: Result<Vec<RawPatch>, String>)
    requires
        parser_safe(text@),
    ensures
        r is Ok <==> parses(text@),
        r matches Ok(v) ==> raw_model(v@) == parsed_patches(text@),
        r matches Err(m) ==> m@ == parse_error_text(text@),
{
    let ps = patch::Patch::from_multiple(text).map_err(|e| e.to_string())?;
    Ok(ps.into_iter().map(|p| {
        let hunks = p.hunks.into_iter().map(|h| {
            let lines = h.lines.into_iter().map(|l| match l {
                Line::Remove(t) => (0, t.to_string()),
                Line::Add(t) => (1, t.to_string()),
                Line::Context(t) => (2, t.to_string()),
            });
            (h.old_range.start, h.old_range.count, lines.collect())
        });
        (p.old.path.to_string(), p.new.path.to_string(), hunks.collect())
    }).collect())
}

fn convert_line(l: &RawLine) -> (r: HunkLine)
    ensures
        line_model(r) == normal_line(raw_line_model(*l)),
{
    let t = l.1.clone();
    if l.0 == 1 {
        HunkLine::Add(t)
    } else if l.0 >= 2 {
        HunkLine::Context(t)
    } else {
        HunkLine::Remove
    }
}

fn convert_hunk(h: &RawHunk) -> (r: crate::model::Hunk)
    ensures
        hunk_model(r) == normal_hunk(raw_hunk_model(*h)),
{
    let mut lines: Vec<HunkLine> = Vec::new();
    let mut i: usize = 0;
    while i < h.2.len()
        invariant
            i <= h.2@.len(),
            lines@.len() == i,
            forall|j: int| 0 <= j < i ==> line_model(#[trigger] lines@[j]) == normal_line(raw_line_model(h.2@[j])),
        decreases h.2@.len() - i,
    {
        let l = convert_line(&h.2[i]);
        lines.push(l);
        i = i + 1;
    }
    let r = crate::model::Hunk { old_range: Range { start: h.0, count: h.1 }, lines };
    proof {
        assert(hunk_model(r).2 =~= normal_hunk(raw_hunk_model(*h)).2);
    }
    r
}

fn convert_patch(p: &RawPatch) -> (r: FilePatch)
    ensures
        file_patch_model(r) == normal_model(raw_model(seq![*p]))[0],
{
    let mut hunks: Vec<crate::model::Hunk> = Vec::new();
    let mut i: usize = 0;
    while i < p.2.len()
        invariant
            i <= p.2@.len(),
            hunks@.len() == i,
            forall|j: int| 0 <= j < i ==> hunk_model(#[trigger] hunks@[j]) == normal_hunk(raw_hunk_model(p.2@[j])),
        decreases p.2@.len() - i,
    {
        let h = convert_hunk(&p.2[i]);
        hunks.push(h);
        i = i + 1;
    }
    let r = FilePatch { old_reference: p.0.clone(), new_reference: p.1.clone(), hunks };
    proof {
        let m = raw_model(seq![*p]);
        assert(m[0] == (p.0@, p.1@, p.2@.map_values(|h: RawHunk| raw_hunk_model(h))));
        assert(file_patch_model(r).2 =~= normal_model(m)[0].2);
    }
    r
}

/// Parses a patch set after making sure that the text ends with
/// `line_ending`, which the parser needs to see the last hunk end. Text on
/// which the parser could panic (see `parser_safe`) is refused as a parse
/// error before the parser sees it.
pub fn parse_patch_set(text: &str, line_ending: &str) -> (r: Result<Vec<FilePatch>, PatchError>)
    ensures
        ({
            let full = with_trailing_spec(text@, line_ending@);
            &&& r is Ok <==> parser_safe(full) && parses(full)
            &&& r matches Ok(v) ==> file_patches_model(v@) == normal_model(parsed_patches(full))
            &&& r matches Err(e) ==> e matches PatchError::ParseError(m) && m@ == (if !parser_safe(full) {
                "patch text that the parser cannot read to its end"@
            } else {
                parse_error_text(full)
            })
        }),
{
    let full = with_trailing(text, line_ending);
    if !check_parser_safe(full.as_str()) {
        return Err(PatchError::ParseError(String::from_str("patch text that the parser cannot read to its end")));
    }
    match parse_multiple(full.as_str()) {
        Ok(parsed) => {
            let ghost pm = raw_model(parsed@);
            let mut v: Vec<FilePatch> = Vec::new();
            let mut i: usize = 0;
            while i < parsed.len()
                invariant
                    pm == raw_model(parsed@),
                    i <= parsed@.len(),
                    v@.len() == i,
                    forall|j: int| 0 <= j < i ==> file_patch_model(#[trigger] v@[j]) == normal_model(pm)[j],
                decreases parsed@.len() - i,
            {
                let fp = convert_patch(&parsed[i]);
                proof {
                    assert(raw_model(seq![parsed@[i as int]])[0] == pm[i as int]);
                }
                v.push(fp);
                i = i + 1;
            }
            proof {
                assert(file_patches_model(v@) =~= normal_model(pm));
            }
            Ok(v)
        },
        Err(m) => Err(PatchError::ParseError(m)),
    }
}

} // verus!
