//! Error types shared across the library.

use vstd::prelude::*;

use crate::text::concat3;

verus! {

/// `std::io::Error`, carried through unopened.
#[verifier::external_type_specification]
#[verifier::external_body]
pub struct ExIoError(std::io::Error);

/// `std::io::Error`'s display text, which depends on the operating system.
#[verifier::external_body]
pub(crate) fn io_error_text(e: &std::io::Error) -> String {
    e.to_string()
}

/// Errors produced by the shared utilities layer.
#[derive(Debug)]
pub enum UtilError {
    /// A configuration value was missing or invalid.
    Config(String),
    /// An underlying I/O operation failed.
    Io(std::io::Error),
    /// An environment variable held a value that could not be used.
    Env {
        /// The offending variable name.
        name: String,
        /// Why it was rejected.
        reason: String,
    },
}

/// What a [`UtilError`] says.
pub enum UtilErrorView {
    Config(Seq<char>),
    Io,
    Env { name: Seq<char>, reason: Seq<char> },
}

impl View for UtilError {
    type V = UtilErrorView;

    open spec fn view(&self) -> UtilErrorView {
        match self {
            UtilError::Config(reason) => UtilErrorView::Config(reason@),
            UtilError::Io(_) => UtilErrorView::Io,
            UtilError::Env { name, reason } => UtilErrorView::Env { name: name@, reason: reason@ },
        }
    }
}

impl From<std::io::Error> for UtilError {
    fn from(e: std::io::Error) -> (r: UtilError) {
        UtilError::Io(e)
    }
}

impl vstd::std_specs::convert::FromSpecImpl<std::io::Error> for UtilError {
    open spec fn obeys_from_spec() -> bool {
        true
    }

    open spec fn from_spec(e: std::io::Error) -> UtilError {
        UtilError::Io(e)
    }
}

impl UtilError {
    /// The message shown to an operator. What follows the prefix of an I/O error is the
    /// operating system's wording.
    pub fn to_string(&self) -> (r: String)
        ensures
            match self@ {
                UtilErrorView::Config(reason) => r@ == "invalid configuration: "@ + reason,
                UtilErrorView::Io => "i/o error: "@.is_prefix_of(r@),
                UtilErrorView::Env { name, reason } => r@ == "environment variable `"@ + name
                    + "` is invalid: "@ + reason,
            },
    {
        match self {
            UtilError::Config(reason) => {
                let mut out = "invalid configuration: ".to_string();
                out.append(reason.as_str());
                out
            },
            UtilError::Io(e) => {
                let text = io_error_text(e);
                let mut out = "i/o error: ".to_string();
                out.append(text.as_str());
                out
            },
            UtilError::Env { name, reason } => {
                let mut out = concat3("environment variable `", name.as_str(), "` is invalid: ");
                out.append(reason.as_str());
                out
            },
        }
    }
}

} // verus!
