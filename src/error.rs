use vstd::prelude::*;

verus! {

#[verifier::external_type_specification]
#[verifier::external_body]
pub struct ExIoError(std::io::Error);

/// Why applying a patch set stopped.
#[derive(Debug)]
pub enum PatchError {
    /// The patch text is not a unified diff; carries the parser's message.
    ParseError(String),
    /// A source file could not be read.
    IOError(std::io::Error),
    /// A destination file could not be written.
    Unknown,
}

/// Relies on the `Display` impl of std::io::Error: a description of the error.
#[verifier::external_body]
fn io_error_text(e: &std::io::Error) -> String {
    e.to_string()
}

/// The message of a read failure whose description is `detail`.
pub fn file_error_message(detail: &str) -> (r: String)
    ensures
        r@ == "PatchError::FileError: "@ + detail@,
{
    let mut r = String::from_str("PatchError::FileError: ");
    r.append(detail);
    r
}

impl PatchError {
    /// A one-line description: the error kind, then its detail.
    pub fn message(&self) -> (r: String)
        ensures
            self matches PatchError::ParseError(m) ==> r@ == "ParseError::ParseError: "@ + m@,
            self matches PatchError::IOError(_) ==> "PatchError::FileError: "@.is_prefix_of(r@),
            self is Unknown ==> r@ == "PatchError::Unknown: Unknown error."@,
    {
        match self {
            PatchError::ParseError(m) => {
                let mut r = String::from_str("ParseError::ParseError: ");
                r.append(m.as_str());
                r
            },
            PatchError::IOError(e) => {
                let detail = io_error_text(e);
                file_error_message(detail.as_str())
            },
            PatchError::Unknown => String::from_str("PatchError::Unknown: Unknown error."),
        }
    }
}

} // verus!
