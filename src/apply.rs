use vstd::prelude::*;
use crate::lines::{join_lines, join_spec, split_lines, split_spec};
use crate::model::FilePatch;
use crate::reconstruct::{reconstruct_lines, reconstructed};

verus! {

/// The new content of a file whose current content is `old`: its lines
/// (split on `line_ending`) with `hunks` replayed, joined with `line_ending`.
pub open spec fn patched_content(old: Seq<char>, hunks: Seq<crate::model::Hunk>, line_ending: Seq<char>) -> Option<Seq<char>> {
    match reconstructed(split_spec(old, line_ending), hunks) {
        Some(new_lines) => Some(join_spec(new_lines, line_ending)),
        None => None,
    }
}

impl FilePatch {
    /// The content that this patch makes of a file whose content is `old_text`.
    /// `None` where a hunk reaches outside the file's lines.
    pub fn new_content(&self, old_text: &str, line_ending: &str) -> (r: Option<String>)
        requires
            line_ending@.len() > 0,
        ensures
            match patched_content(old_text@, self.hunks@, line_ending@) {
                Some(c) => r matches Some(s) && s@ == c,
                None => r is None,
            },
    {
        let old_lines = split_lines(old_text, line_ending);
        match reconstruct_lines(&old_lines, &self.hunks) {
            Some(new_lines) => Some(join_lines(&new_lines, line_ending)),
            None => None,
        }
    }
}

} // verus!
