//! Errors of the library.

use vstd::prelude::*;
use vstd::string::StringExecFns;

verus! {

/// A failed call into the multiplexer, with a human-readable cause.
#[derive(Debug, Clone)]
pub struct BackendError {
    pub message: String,
}

/// The errors that the library reports to its callers.
#[derive(Debug, Clone)]
pub enum SeshError {
    /// The multiplexer program cannot be run at all.
    BackendUnavailable(BackendError),
    /// One call into the multiplexer failed.
    BackendFailed(BackendError),
    /// The configuration file exists already and may not be overwritten.
    ConfigExists,
    /// A declaration edit named a window that the declaration does not hold.
    WindowNotFound(String),
    /// Removing a window was asked for without a name to match.
    NameRequired,
}

impl SeshError {
    /// The text shown to a user for this error.
    pub fn message(&self) -> (r: String)
        ensures
            self matches SeshError::BackendUnavailable(e) ==> r@ == e.message@,
            self matches SeshError::BackendFailed(e) ==> r@ == e.message@,
            self is ConfigExists ==> r@ == "Config file already exists. To overwrite, pass --overwrite."@,
            self matches SeshError::WindowNotFound(n) ==> r@ == window_not_found_text(n@),
            self is NameRequired ==> r@ == "Must specify --name to remove a window"@,
    {
        match self {
            SeshError::BackendUnavailable(e) => e.message.clone(),
            SeshError::BackendFailed(e) => e.message.clone(),
            SeshError::ConfigExists => String::from_str(
                "Config file already exists. To overwrite, pass --overwrite.",
            ),
            SeshError::WindowNotFound(n) => {
                let mut r = String::from_str("Window '");
                r.append(n.as_str());
                r.append("' not found in config");
                r
            },
            SeshError::NameRequired => String::from_str("Must specify --name to remove a window"),
        }
    }
}

/// An error whose message is `before`, then `name` in quotes, then `after`.
pub(crate) fn quoted_error(before: &str, name: &str, after: &str) -> (r: BackendError)
    ensures
        r.message@ == before@ + "'"@ + name@ + "'"@ + after@,
{
    let mut m = String::from_str(before);
    m.append("'");
    m.append(name);
    m.append("'");
    m.append(after);
    BackendError { message: m }
}

/// The message for a window name that a declaration does not hold.
pub open spec fn window_not_found_text(name: Seq<char>) -> Seq<char> {
    "Window '"@ + name + "' not found in config"@
}

} // verus!
