//! Read-only access to a tenant opened from a path.

use vstd::prelude::*;

use crate::error::OpenError;
use crate::ids::TenantId;

verus! {

/// Read-only view onto a tenant on disk: its identity and an explicit close.
///
/// Vector iteration and filtered similarity search work on `f32` vectors and
/// scores, which this crate does not hold, so they are not supertraits of
/// this trait; the crates that provide them combine them with it into one
/// read-only tenant trait.
pub trait ReadOnlyView: Send + Sync {
    /// Stable identifier of the tenant behind this view.
    fn tenant_id(&self) -> TenantId;

    /// Explicitly release file handles.
    fn close(self: Box<Self>) -> Result<(), OpenError>;
}

/// Open a tenant at `path` in read-only mode.
///
/// This crate knows no on-disk format, so there is no tenant to open here:
/// the answer is always [`OpenError::NotFound`]. Adapter crates provide their
/// own opener.
pub fn open_readonly(_path: &str) -> (r: Result<Box<dyn ReadOnlyView>, OpenError>)
    ensures
        r matches Err(OpenError::NotFound),
{
    Err(OpenError::NotFound)
}

} // verus!
