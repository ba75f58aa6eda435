//! Errors of the library.
use vstd::prelude::*;
use vstd::string::StringExecFns;

verus! {

/// What can go wrong while resolving a template or starting the helper process.
#[derive(Debug, PartialEq, Eq)]
pub enum Error {
    /// A failure reported by the environment, as its message.
    String(String),
    /// The list of templates could not be read; the message says why.
    FailedReadBatsList(String),
    /// The named template holds no command line.
    FailedParseBatFile(String),
    /// The helper process could not be started, or stopped as soon as it was.
    FailedRunWinwsProcess,
}

/// The text shown for a failure to read the list of templates with the given reason.
pub open spec fn list_error_text(msg: Seq<char>) -> Seq<char> {
    "Failed to read .bat files list: "@ + msg
}

/// The message for a failure to read the list of templates, given the reason as text.
pub fn err_to_str(msg: &str) -> (r: String)
    ensures
        r@ == list_error_text(msg@),
{
    let mut s = String::from_str("Failed to read .bat files list: ");
    s.append(msg);
    s
}

impl Error {
    /// The human-readable message of the error.
    pub fn message(&self) -> (r: String)
        ensures
            r@ == match self {
                Error::String(m) => m@,
                Error::FailedReadBatsList(m) => list_error_text(m@),
                Error::FailedParseBatFile(n) => "Failed to read '"@ + n@ + ".bat' file"@,
                Error::FailedRunWinwsProcess =>
                    "Failed to run winws.exe process, check the permissions"@,
            },
    {
        match self {
            Error::String(m) => m.clone(),
            Error::FailedReadBatsList(m) => err_to_str(m.as_str()),
            Error::FailedParseBatFile(n) => {
                let mut s = String::from_str("Failed to read '");
                s.append(n.as_str());
                s.append(".bat' file");
                s
            },
            Error::FailedRunWinwsProcess => String::from_str(
                "Failed to run winws.exe process, check the permissions",
            ),
        }
    }
}

} // verus!
