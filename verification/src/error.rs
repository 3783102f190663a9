//! Error types surfaced by the capability traits.

use vstd::prelude::*;

use crate::text::{decimal, push_decimal, push_str};

verus! {

/// `std::io::Error`, carried through opaquely.
#[verifier::external_type_specification]
#[verifier::external_body]
pub struct ExIoError(std::io::Error);

/// The underlying adapter-specific cause of an [`OpenError::Format`].
///
/// Held opaquely: the boxed `dyn Error + Send + Sync` is a type that the
/// verifier does not model, so the box lives behind this newtype and the
/// library never looks inside it.
#[verifier::external_body]
#[derive(Debug)]
pub struct ErrorSource(pub Box<dyn std::error::Error + Send + Sync>);

/// Errors returned by a filtered query.
#[derive(Debug)]
#[non_exhaustive]
pub enum QueryError {
    /// Query embedding had a dimension different from the vault's.
    EmbeddingDimMismatch {
        /// Dimension the vault was built with.
        expected: u32,
        /// Dimension of the query embedding.
        got: u32,
    },
    /// Underlying index is corrupted in a way the search cannot recover from.
    IndexCorrupted(String),
    /// I/O failure during search.
    Io(std::io::Error),
}

/// Errors returned when opening a tenant.
#[derive(Debug)]
#[non_exhaustive]
pub enum OpenError {
    /// No vault at the given path.
    NotFound,
    /// Permission denied opening one of the vault's files.
    PermissionDenied,
    /// On-disk format error. Adapter-specific cause (if any) is in `source`.
    Format {
        /// Human-readable summary supplied by the adapter.
        message: String,
        /// Underlying adapter-specific error, if available.
        source: Option<ErrorSource>,
    },
    /// Generic I/O failure.
    Io(std::io::Error),
}

/// How an I/O error is classified when it becomes an [`OpenError`]: by its
/// `std::io::ErrorKind`.
#[derive(Debug, Clone, Copy, PartialEq, Eq, Structural)]
pub enum IoErrorClass {
    /// `ErrorKind::NotFound`.
    NotFound,
    /// `ErrorKind::PermissionDenied`.
    PermissionDenied,
    /// Any other kind.
    Other,
}

/// The class of an I/O error's `ErrorKind`, as a name: the kind is fixed
/// when the error is made and read back by `std::io::Error::kind`.
pub uninterp spec fn io_kind_class(e: std::io::Error) -> IoErrorClass;

/// The class of `e`'s `ErrorKind`.
///
/// Trusted: calls `std::io::Error::kind` and tells two of its variants
/// apart; the answer is [`io_kind_class`] of `e`.
#[verifier::external_body]
fn io_error_class(e: &std::io::Error) -> (c: IoErrorClass)
    ensures
        c == io_kind_class(*e),
{
    match e.kind() {
        std::io::ErrorKind::NotFound => IoErrorClass::NotFound,
        std::io::ErrorKind::PermissionDenied => IoErrorClass::PermissionDenied,
        _ => IoErrorClass::Other,
    }
}

/// The `Display` text of an I/O error.
///
/// Trusted: calls `<std::io::Error as ToString>::to_string`. The text comes
/// from the operating system and the error is opaque to the verifier, so
/// nothing is stated of it.
#[verifier::external_body]
pub(crate) fn io_error_text(e: &std::io::Error) -> String {
    e.to_string()
}

impl OpenError {
    /// The `OpenError` for an I/O error of the given class: `NotFound` and
    /// `PermissionDenied` map to their own variants, every other kind is
    /// carried in `Io`.
    pub fn from_io_class(class: IoErrorClass, e: std::io::Error) -> (r: OpenError)
        ensures
            class == IoErrorClass::NotFound ==> r is NotFound,
            class == IoErrorClass::PermissionDenied ==> r is PermissionDenied,
            class == IoErrorClass::Other ==> r == OpenError::Io(e),
    {
        match class {
            IoErrorClass::NotFound => OpenError::NotFound,
            IoErrorClass::PermissionDenied => OpenError::PermissionDenied,
            IoErrorClass::Other => OpenError::Io(e),
        }
    }

    /// Converts an I/O error by its kind (see [`OpenError::from_io_class`]).
    pub fn from_io(e: std::io::Error) -> (r: OpenError)
        ensures
            io_kind_class(e) == IoErrorClass::NotFound ==> r is NotFound,
            io_kind_class(e) == IoErrorClass::PermissionDenied ==> r is PermissionDenied,
            io_kind_class(e) == IoErrorClass::Other ==> r == OpenError::Io(e),
    {
        let class = io_error_class(&e);
        OpenError::from_io_class(class, e)
    }

    /// The human-readable message, as the error's `Display` form writes it.
    pub fn to_string(&self) -> (s: String)
        ensures
            self is NotFound ==> s@ == "vault not found"@,
            self is PermissionDenied ==> s@ == "permission denied"@,
            self matches OpenError::Format { message, .. } ==> s@ == "format error: "@
                + message@,
            self is Io ==> "I/O error: "@.is_prefix_of(s@),
    {
        let mut s = String::new();
        match self {
            OpenError::NotFound => {
                push_str(&mut s, "vault not found");
            },
            OpenError::PermissionDenied => {
                push_str(&mut s, "permission denied");
            },
            OpenError::Format { message, .. } => {
                push_str(&mut s, "format error: ");
                push_str(&mut s, message.as_str());
            },
            OpenError::Io(e) => {
                push_str(&mut s, "I/O error: ");
                let text = io_error_text(e);
                push_str(&mut s, text.as_str());
            },
        }
        proof {
            reveal_strlit("vault not found");
            reveal_strlit("permission denied");
            reveal_strlit("format error: ");
            reveal_strlit("I/O error: ");
        }
        s
    }
}

impl QueryError {
    /// The human-readable message, as the error's `Display` form writes it.
    pub fn to_string(&self) -> (s: String)
        ensures
            self matches QueryError::EmbeddingDimMismatch { expected, got } ==> s@
                == "embedding dim mismatch: expected "@ + decimal(expected as nat) + ", got "@
                + decimal(got as nat),
            self matches QueryError::IndexCorrupted(m) ==> s@ == "index corrupted: "@ + m@,
            self is Io ==> "I/O error: "@.is_prefix_of(s@),
    {
        let mut s = String::new();
        match self {
            QueryError::EmbeddingDimMismatch { expected, got } => {
                push_str(&mut s, "embedding dim mismatch: expected ");
                push_decimal(&mut s, *expected as u64);
                push_str(&mut s, ", got ");
                push_decimal(&mut s, *got as u64);
            },
            QueryError::IndexCorrupted(m) => {
                push_str(&mut s, "index corrupted: ");
                push_str(&mut s, m.as_str());
            },
            QueryError::Io(e) => {
                push_str(&mut s, "I/O error: ");
                let text = io_error_text(e);
                push_str(&mut s, text.as_str());
            },
        }
        s
    }
}

/// A query embedding's length checked against a tenant's dimension: a
/// mismatch (compared after casting the length to `u32`) is
/// [`QueryError::EmbeddingDimMismatch`].
pub fn check_query_dim(dim: u32, query_len: usize) -> (r: Result<(), QueryError>)
    ensures
        (query_len as u32) == dim ==> r is Ok,
        (query_len as u32) != dim ==> (r matches Err(QueryError::EmbeddingDimMismatch { expected, got })
            && expected == dim && got == query_len as u32),
{
    if query_len as u32 != dim {
        return Err(QueryError::EmbeddingDimMismatch { expected: dim, got: query_len as u32 });
    }
    Ok(())
}

} // verus!
