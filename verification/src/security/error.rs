//! Error type for the security layer.

use vstd::prelude::*;

verus! {

/// Errors produced by cryptography and connection policy.
#[derive(Debug)]
pub enum SecurityError {
    /// Password hashing or verification failed.
    Hash(String),
    /// Secret encryption failed.
    Encrypt(String),
    /// Secret decryption or authentication failed.
    Decrypt(String),
    /// A credential-store operation failed.
    Credential(String),
    /// A firewall or connection-policy operation failed.
    Firewall(String),
}

/// What a [`SecurityError`] says.
pub enum SecurityErrorView {
    Hash(Seq<char>),
    Encrypt(Seq<char>),
    Decrypt(Seq<char>),
    Credential(Seq<char>),
    Firewall(Seq<char>),
}

impl View for SecurityError {
    type V = SecurityErrorView;

    open spec fn view(&self) -> SecurityErrorView {
        match self {
            SecurityError::Hash(reason) => SecurityErrorView::Hash(reason@),
            SecurityError::Encrypt(reason) => SecurityErrorView::Encrypt(reason@),
            SecurityError::Decrypt(reason) => SecurityErrorView::Decrypt(reason@),
            SecurityError::Credential(reason) => SecurityErrorView::Credential(reason@),
            SecurityError::Firewall(reason) => SecurityErrorView::Firewall(reason@),
        }
    }
}

impl SecurityErrorView {
    /// The message shown to an operator.
    pub open spec fn message(self) -> Seq<char> {
        match self {
            SecurityErrorView::Hash(reason) => "password hashing error: "@ + reason,
            SecurityErrorView::Encrypt(reason) => "encryption error: "@ + reason,
            SecurityErrorView::Decrypt(reason) => "decryption error: "@ + reason,
            SecurityErrorView::Credential(reason) => "credential error: "@ + reason,
            SecurityErrorView::Firewall(reason) => "firewall error: "@ + reason,
        }
    }
}

impl SecurityError {
    /// The message shown to an operator.
    pub fn to_string(&self) -> (r: String)
        ensures
            r@ == self@.message(),
    {
        let (prefix, reason) = match self {
            SecurityError::Hash(reason) => ("password hashing error: ", reason),
            SecurityError::Encrypt(reason) => ("encryption error: ", reason),
            SecurityError::Decrypt(reason) => ("decryption error: ", reason),
            SecurityError::Credential(reason) => ("credential error: ", reason),
            SecurityError::Firewall(reason) => ("firewall error: ", reason),
        };
        let mut out = prefix.to_string();
        out.append(reason.as_str());
        out
    }
}

} // verus!
