//! Error type for the network layer.

use vstd::prelude::*;

use crate::text::concat3;
use crate::utilities::error::io_error_text;

verus! {

/// Errors produced by DNS resolution and TLS setup.
#[derive(Debug)]
pub enum NetworkError {
    /// A DNS lookup failed.
    Resolve {
        /// The queried name.
        name: String,
        /// Underlying cause.
        reason: String,
    },
    /// A DNS record could not be parsed into the expected shape.
    Record {
        /// Record kind (e.g. `DKIM`, `DMARC`).
        kind: String,
        /// What was wrong.
        reason: String,
    },
    /// A TLS configuration error (certificate or key load, or builder).
    Tls(String),
    /// An I/O error (PEM file read, socket).
    Io(std::io::Error),
}

/// What a [`NetworkError`] says.
pub enum NetworkErrorView {
    /// A DNS lookup failed.
    Resolve { name: Seq<char>, reason: Seq<char> },
    /// A DNS record could not be parsed.
    Record { kind: Seq<char>, reason: Seq<char> },
    /// A TLS configuration error.
    Tls(Seq<char>),
    /// An I/O error.
    Io,
}

impl View for NetworkError {
    type V = NetworkErrorView;

    open spec fn view(&self) -> NetworkErrorView {
        match self {
            NetworkError::Resolve { name, reason } => NetworkErrorView::Resolve {
                name: name@,
                reason: reason@,
            },
            NetworkError::Record { kind, reason } => NetworkErrorView::Record {
                kind: kind@,
                reason: reason@,
            },
            NetworkError::Tls(reason) => NetworkErrorView::Tls(reason@),
            NetworkError::Io(_) => NetworkErrorView::Io,
        }
    }
}

/// Whether a result says what its model says: the same value, or the same error.
pub open spec fn agrees<T: View>(
    r: Result<T, NetworkError>,
    model: Result<T::V, NetworkErrorView>,
) -> bool {
    match (r, model) {
        (Ok(x), Ok(v)) => x@ == v,
        (Err(e), Err(w)) => e@ == w,
        _ => false,
    }
}

impl From<std::io::Error> for NetworkError {
    fn from(e: std::io::Error) -> (r: NetworkError) {
        NetworkError::Io(e)
    }
}

impl vstd::std_specs::convert::FromSpecImpl<std::io::Error> for NetworkError {
    open spec fn obeys_from_spec() -> bool {
        true
    }

    open spec fn from_spec(e: std::io::Error) -> NetworkError {
        NetworkError::Io(e)
    }
}

impl NetworkError {
    /// A malformed-record error.
    pub fn record(kind: &str, reason: &str) -> (r: NetworkError)
        ensures
            r@ == (NetworkErrorView::Record { kind: kind@, reason: reason@ }),
    {
        NetworkError::Record { kind: kind.to_string(), reason: reason.to_string() }
    }

    /// The message shown to an operator.
    pub fn to_string(&self) -> (r: String)
        ensures
            match self@ {
                NetworkErrorView::Resolve { name, reason } => r@ == "dns lookup failed for `"@
                    + name + "`: "@ + reason,
                NetworkErrorView::Record { kind, reason } => r@ == "malformed "@ + kind
                    + " record: "@ + reason,
                NetworkErrorView::Tls(reason) => r@ == "tls configuration error: "@ + reason,
                NetworkErrorView::Io => "i/o error: "@.is_prefix_of(r@),
            },
    {
        match self {
            NetworkError::Resolve { name, reason } => {
                let mut out = concat3("dns lookup failed for `", name.as_str(), "`: ");
                out.append(reason.as_str());
                out
            },
            NetworkError::Record { kind, reason } => {
                let mut out = concat3("malformed ", kind.as_str(), " record: ");
                out.append(reason.as_str());
                out
            },
            NetworkError::Tls(reason) => {
                let mut out = "tls configuration error: ".to_string();
                out.append(reason.as_str());
                out
            },
            NetworkError::Io(e) => {
                let text = io_error_text(e);
                let mut out = "i/o error: ".to_string();
                out.append(text.as_str());
                out
            },
        }
    }
}

} // verus!
