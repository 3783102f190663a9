//! Tenant accounting: resource counters and quotas.

use vstd::prelude::*;

use crate::error::{io_error_text, io_kind_class, IoErrorClass, OpenError};
use crate::text::{decimal, push_decimal, push_str};

verus! {

/// Resource counters. Snapshot semantics: every getter returns the value at
/// call time.
pub trait TenantStats {
    /// Total bytes the tenant currently occupies on persistent storage.
    fn bytes_on_disk(&self) -> u64;

    /// Number of records visible to a fresh query right now.
    fn record_count(&self) -> u64;

    /// Best effort estimate of the bytes the tenant keeps resident in
    /// process memory.
    fn memory_resident(&self) -> u64;
}

/// Caps on tenant resource consumption, enforced by the implementation on
/// inserts.
pub trait TenantQuota {
    /// Replace the current quota. Passing [`Quota::UNLIMITED`] lifts every
    /// cap; a quota stricter than the current usage is allowed (the next
    /// write that violates it fails, existing rows are untouched).
    fn set_quota(&mut self, quota: Quota) -> Result<(), QuotaError>;

    /// Current quota in force. Default after open is [`Quota::UNLIMITED`].
    fn quota(&self) -> Quota;

    /// What the tenant is consuming right now.
    fn current_usage(&self) -> Usage;
}

/// Resource caps. `None` on a dimension means "unlimited on that dimension".
#[derive(Debug, Clone, Copy, PartialEq, Eq, Structural)]
pub struct Quota {
    /// Maximum bytes the tenant may occupy on disk.
    pub max_bytes: Option<u64>,
    /// Maximum live record count.
    pub max_records: Option<u64>,
}

impl Quota {
    /// No caps. Default after open.
    #[allow(non_snake_case)]
    pub fn UNLIMITED() -> (q: Quota)
        ensures
            q.max_bytes is None,
            q.max_records is None,
    {
        Quota { max_bytes: None, max_records: None }
    }

    /// True when no dimension is capped.
    pub open spec fn spec_is_unlimited(&self) -> bool {
        self.max_bytes is None && self.max_records is None
    }

    /// True when no dimension is capped.
    pub fn is_unlimited(&self) -> (b: bool)
        ensures
            b == self.spec_is_unlimited(),
    {
        self.max_bytes.is_none() && self.max_records.is_none()
    }
}

impl Default for Quota {
    fn default() -> (q: Quota)
        ensures
            q.max_bytes is None,
            q.max_records is None,
    {
        Quota::UNLIMITED()
    }
}

/// Current consumption snapshot; mirrors the dimensions of [`Quota`].
#[derive(Debug, Clone, Copy, PartialEq, Eq, Structural)]
pub struct Usage {
    /// Bytes currently on disk.
    pub bytes: u64,
    /// Records currently live.
    pub records: u64,
}

impl Default for Usage {
    fn default() -> (u: Usage)
        ensures
            u.bytes == 0,
            u.records == 0,
    {
        Usage { bytes: 0, records: 0 }
    }
}

/// Errors from the quota surface.
#[derive(Debug)]
pub enum QuotaError {
    /// A write would push the tenant past its quota.
    Exceeded {
        /// Which dimension hit the cap: `"bytes"` or `"records"`.
        dimension: &'static str,
        /// The cap currently in force.
        cap: u64,
        /// The value the write would have brought the dimension to.
        attempted: u64,
    },
    /// An I/O failure while sampling or persisting the quota.
    Io(std::io::Error),
}

/// An I/O error of kind `Other` carrying `msg`.
///
/// Trusted: calls `std::io::Error::other`, whose error has kind `Other`. Its
/// text is `msg`, but the text of an I/O error in general depends on the
/// operating system's locale and gets no name here, so that is not stated.
#[verifier::external_body]
fn io_error_other(msg: String) -> (e: std::io::Error)
    ensures
        io_kind_class(e) == IoErrorClass::Other,
{
    std::io::Error::other(msg)
}

impl QuotaError {
    /// The human-readable message, as the error's `Display` form writes it:
    /// `quota exceeded: {dimension} (cap {cap}, attempted {attempted})`.
    pub fn to_string(&self) -> (s: String)
        ensures
            self matches QuotaError::Exceeded { dimension, cap, attempted } ==> s@
                == "quota exceeded: "@ + dimension@ + " (cap "@ + decimal(cap as nat)
                + ", attempted "@ + decimal(attempted as nat) + ")"@,
            self is Io ==> "I/O error: "@.is_prefix_of(s@),
    {
        let mut s = String::new();
        match self {
            QuotaError::Exceeded { dimension, cap, attempted } => {
                push_str(&mut s, "quota exceeded: ");
                push_str(&mut s, dimension);
                push_str(&mut s, " (cap ");
                push_decimal(&mut s, *cap);
                push_str(&mut s, ", attempted ");
                push_decimal(&mut s, *attempted);
                push_str(&mut s, ")");
            },
            QuotaError::Io(e) => {
                push_str(&mut s, "I/O error: ");
                let text = io_error_text(e);
                push_str(&mut s, text.as_str());
            },
        }
        s
    }
}

impl OpenError {
    /// An `OpenError` for a quota error: an I/O failure is carried as it is;
    /// an exceeded cap becomes an I/O error of kind `Other` whose text is the
    /// quota error's message.
    pub fn from_quota(e: QuotaError) -> (r: OpenError)
        ensures
            e matches QuotaError::Io(io) ==> r == OpenError::Io(io),
            e is Exceeded ==> (r matches OpenError::Io(io) && io_kind_class(io)
                == IoErrorClass::Other),
    {
        match e {
            QuotaError::Io(io) => OpenError::Io(io),
            QuotaError::Exceeded { .. } => {
                let msg = e.to_string();
                OpenError::Io(io_error_other(msg))
            },
        }
    }
}

} // verus!
