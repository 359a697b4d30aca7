use vstd::prelude::*;

verus! {

/// How a patch set is applied.
#[derive(Debug)]
pub struct PatchOptions {
    /// The token that separates lines, in the files and in the patch text.
    pub line_ending: String,
    /// The directory that the paths of the patch are resolved against.
    pub work_directory: std::path::PathBuf,
    /// How many leading path components to drop from each resolved path.
    pub strip_num: Option<u32>,
}

pub open spec fn line_ending_for_spec(windows: bool) -> Seq<char> {
    if windows {
        "\r\n"@
    } else {
        "\n"@
    }
}

#[verifier::external_type_specification]
#[verifier::external_body]
pub struct ExPathBuf(std::path::PathBuf);

/// Relies on std::path::PathBuf::new: the empty path, which stands for the
/// current directory.
#[verifier::external_body]
fn empty_path() -> std::path::PathBuf {
    std::path::PathBuf::new()
}

/// Relies on std::path::MAIN_SEPARATOR: the host's path separator,
/// a backslash on Windows.
#[verifier::external_body]
fn host_separator() -> char {
    std::path::MAIN_SEPARATOR
}

/// The line ending of a host: "\r\n" on Windows, "\n" elsewhere.
pub fn line_ending_for(windows: bool) -> (r: String)
    ensures
        r@ == line_ending_for_spec(windows),
{
    if windows {
        String::from_str("\r\n")
    } else {
        String::from_str("\n")
    }
}

impl PatchOptions {
    /// The number of leading path components to drop: `strip_num`, or 0.
    pub fn strip_count(&self) -> (r: usize)
        ensures
            r == match self.strip_num {
                Some(n) => n as usize,
                None => 0usize,
            },
    {
        match self.strip_num {
            Some(n) => n as usize,
            None => 0,
        }
    }
}

impl Default for PatchOptions {
    /// The host's line ending (`line_ending_for` a host whose path separator
    /// is a backslash, as on Windows), the
    /// current directory, and no path components stripped.
    fn default() -> (r: Self)
        ensures
            r.line_ending@ == line_ending_for_spec(false) || r.line_ending@ == line_ending_for_spec(true),
            r.strip_num is None,
    {
        let line_ending = line_ending_for(host_separator() == '\\');
        PatchOptions { line_ending, work_directory: empty_path(), strip_num: None }
    }
}

} // verus!
