//! Tenant lifecycle: discovery, snapshot, destroy.

use vstd::prelude::*;

use crate::error::OpenError;
use crate::ids::TenantId;

verus! {

/// Engine + plugin capability namespace, such as `vector.kv`. The string is
/// the source of truth; comparison is byte-for-byte.
#[derive(Copy, Clone, Eq, PartialEq, Hash, Debug, Ord, PartialOrd)]
pub struct CapabilityId(pub &'static str);

impl CapabilityId {
    /// The underlying string slice.
    pub fn as_str(&self) -> (s: &'static str)
        ensures
            s@ == self.0@,
    {
        self.0
    }

    /// The identifier as a `String`, as its `Display` form writes it.
    pub fn to_string(&self) -> (s: String)
        ensures
            s@ == self.0@,
    {
        let mut s = String::new();
        crate::text::push_str(&mut s, self.0);
        s
    }
}

/// Canonical capability for the skeg-core KV + vector engine: `vector.kv`.
#[allow(non_snake_case)]
pub fn CAP_VECTOR_KV() -> (c: CapabilityId)
    ensures
        c.0@ == "vector.kv"@,
{
    CapabilityId("vector.kv")
}

/// Canonical capability for quantised vector tiers: `vector.quantized`.
#[allow(non_snake_case)]
pub fn CAP_VECTOR_QUANTIZED() -> (c: CapabilityId)
    ensures
        c.0@ == "vector.quantized"@,
{
    CapabilityId("vector.quantized")
}

/// Discovery surface for a tenant. Engine-neutral.
pub trait TenantInfo {
    /// Stable id of this tenant.
    fn tenant_id(&self) -> TenantId;
    /// Embedding dimension.
    fn embedding_dim(&self) -> u32;
    /// Records currently live in this tenant.
    fn record_count(&self) -> u64;
    /// Capabilities this tenant exposes.
    fn capabilities(&self) -> Vec<CapabilityId>;
}

/// Management surface for a tenant. Object-safe.
pub trait TenantLifecycle: Send + Sync {
    /// Snapshot the tenant's persistent state into the directory `dest`,
    /// creating it if missing.
    fn snapshot(&self, dest: &str) -> Result<(), OpenError>;

    /// Destroy the tenant, removing its on-disk state.
    fn destroy(self: Box<Self>) -> Result<(), OpenError>;
}

} // verus!
