//! What can go wrong while signing or verifying a document.
use vstd::prelude::*;

use crate::util::{append_dec, dec_text};

verus! {

/// Errors that can occur while signing or verifying a PDF.
#[derive(Debug)]
pub enum Error {
    /// Reading, writing or the network failed.
    Io(String),
    /// The document cannot be parsed, or an object of it is missing or has the
    /// wrong type.
    Pdf(String),
    /// A key, a certificate or a signature cannot be handled.
    Crypto(String),
    /// The placeholder reserved for the signature is too small for the
    /// produced CMS blob. Increase `SignOptions::signature_capacity`.
    PlaceholderTooSmall { needed: usize, capacity: usize },
    /// The file does not have the layout that a signature needs.
    Malformed(String),
    /// A signature does not hold.
    Verification(String),
}

/// The mathematical view of an [`Error`].
pub enum ErrorView {
    Io(Seq<char>),
    Pdf(Seq<char>),
    Crypto(Seq<char>),
    PlaceholderTooSmall { needed: int, capacity: int },
    Malformed(Seq<char>),
    Verification(Seq<char>),
}

/// The text of an error, as shown to a user.
pub open spec fn error_text(e: ErrorView) -> Seq<char> {
    match e {
        ErrorView::Io(t) => "I/O error: "@ + t,
        ErrorView::Pdf(t) => "PDF parsing/serialization error: "@ + t,
        ErrorView::Crypto(t) => "cryptography error: "@ + t,
        ErrorView::PlaceholderTooSmall { needed, capacity } =>
            "signature does not fit in reserved placeholder: need "@ + dec_text(needed as nat)
                + " bytes, have "@ + dec_text(capacity as nat),
        ErrorView::Malformed(t) => "malformed PDF: "@ + t,
        ErrorView::Verification(t) => "signature verification failed: "@ + t,
    }
}

impl Error {
    pub open spec fn view(&self) -> ErrorView {
        match *self {
            Error::Io(t) => ErrorView::Io(t@),
            Error::Pdf(t) => ErrorView::Pdf(t@),
            Error::Crypto(t) => ErrorView::Crypto(t@),
            Error::PlaceholderTooSmall { needed, capacity } => ErrorView::PlaceholderTooSmall {
                needed: needed as int,
                capacity: capacity as int,
            },
            Error::Malformed(t) => ErrorView::Malformed(t@),
            Error::Verification(t) => ErrorView::Verification(t@),
        }
    }

    /// The text of the error.
    pub fn message(&self) -> (r: String)
        ensures
            r@ == error_text(self@),
    {
        match self {
            Error::Io(t) => "I/O error: ".to_owned().concat(t.as_str()),
            Error::Pdf(t) => "PDF parsing/serialization error: ".to_owned().concat(t.as_str()),
            Error::Crypto(t) => "cryptography error: ".to_owned().concat(t.as_str()),
            Error::PlaceholderTooSmall { needed, capacity } => {
                let mut s: String = "signature does not fit in reserved placeholder: need ".to_owned();
                append_dec(&mut s, *needed as u64);
                s.append(" bytes, have ");
                append_dec(&mut s, *capacity as u64);
                s
            },
            Error::Malformed(t) => "malformed PDF: ".to_owned().concat(t.as_str()),
            Error::Verification(t) => "signature verification failed: ".to_owned().concat(t.as_str()),
        }
    }
}

/// A malformed-document error with the given text.
pub fn malformed(text: &str) -> (r: Error)
    ensures
        r@ == ErrorView::Malformed(text@),
{
    Error::Malformed(text.to_owned())
}

/// A cryptography error with the given text.
pub fn crypto(text: &str) -> (r: Error)
    ensures
        r@ == ErrorView::Crypto(text@),
{
    Error::Crypto(text.to_owned())
}

/// A verification error with the given text.
pub fn unverified(text: &str) -> (r: Error)
    ensures
        r@ == ErrorView::Verification(text@),
{
    Error::Verification(text.to_owned())
}

/// The view of a result that carries bytes.
pub open spec fn bytes_result(r: Result<Vec<u8>, Error>) -> Result<Seq<u8>, ErrorView> {
    match r {
        Ok(v) => Ok(v@),
        Err(e) => Err(e@),
    }
}

/// The view of a result whose value is taken as it is.
pub open spec fn plain_result<T>(r: Result<T, Error>) -> Result<T, ErrorView> {
    match r {
        Ok(v) => Ok(v),
        Err(e) => Err(e@),
    }
}

} // verus!
