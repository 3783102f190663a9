//! Common imports for plugin authors.

pub use crate::accounting::{Quota, QuotaError, TenantQuota, TenantStats, Usage};
pub use crate::error::{OpenError, QueryError};
pub use crate::events::{Event, EventFilter, EventKind, EventStream, TenantEvents};
pub use crate::filter::{Filter, RecordMeta};
pub use crate::ids::{RecordId, TenantId};
pub use crate::lifecycle::{CapabilityId, TenantInfo, TenantLifecycle};
pub use crate::readonly::{open_readonly, ReadOnlyView};
