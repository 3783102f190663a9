//! `skeg_rigging`: the capability contract between memory engines and the
//! plugins built on top of them, with the engine-neutral logic behind it
//! verified: id types, event filtering, quota accounting, an in-memory
//! reference tenant, stable top-k ranking, the metadata sidecar of the
//! on-disk adapter, and the chunking and planning of file ingest.

pub mod accounting;
pub mod asyncs;
pub mod chunk;
pub mod embed;
pub mod error;
pub mod events;
pub mod filter;
pub mod ids;
pub mod ingest;
pub mod lifecycle;
pub mod mock;
pub mod prelude;
pub mod ranking;
pub mod readonly;
pub mod sidecar;
pub mod text;

pub use accounting::{Quota, QuotaError, TenantQuota, TenantStats, Usage};
pub use chunk::{chunk, word_count, Chunk, ChunkMode};
pub use embed::{EmbedError, OllamaEmbed};
pub use error::{ErrorSource, OpenError, QueryError};
pub use events::{Event, EventFilter, EventKind, EventStream, TenantEvents};
pub use filter::{Filter, RecordMeta};
pub use ids::{RecordId, TenantId};
pub use ingest::{IngestOptions, IngestStats};
pub use lifecycle::{CapabilityId, TenantInfo, TenantLifecycle, CAP_VECTOR_KV, CAP_VECTOR_QUANTIZED};
pub use readonly::{open_readonly, ReadOnlyView};
pub use sidecar::{MetadataSidecar, RecordEntry};
