use vstd::prelude::*;

verus! {

/// The span of original lines a hunk addresses: a 1-based start and a count.
#[derive(Clone, Copy, Debug, PartialEq, Eq)]
pub struct Range {
    pub start: u64,
    pub count: u64,
}

/// One line of a hunk, replayed in order against the original lines.
#[derive(Debug)]
pub enum HunkLine {
    /// Drops one original line.
    Remove,
    /// Emits the given text; consumes no original line.
    Add(String),
    /// Emits the original line under the cursor (not the stored text).
    Context(String),
}

/// A contiguous block of changes located by its old range.
#[derive(Debug)]
pub struct Hunk {
    pub old_range: Range,
    pub lines: Vec<HunkLine>,
}

/// The changes to one file: its old and new file references and its hunks.
#[derive(Debug)]
pub struct FilePatch {
    pub old_reference: String,
    pub new_reference: String,
    pub hunks: Vec<Hunk>,
}

} // verus!
