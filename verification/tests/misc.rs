use skeg_rigging::accounting::{Quota, Usage};
use skeg_rigging::asyncs::SyncToAsync;
use skeg_rigging::lifecycle::{CAP_VECTOR_KV, CAP_VECTOR_QUANTIZED};

#[test]
fn quota_defaults() {
    assert!(Quota::default().is_unlimited());
    assert_eq!(Quota::default(), Quota::UNLIMITED());
    assert!(!Quota {
        max_bytes: Some(1),
        max_records: None
    }
    .is_unlimited());
    assert_eq!(Usage::default(), Usage { bytes: 0, records: 0 });
}

#[test]
fn capability_ids() {
    assert_eq!(CAP_VECTOR_KV().as_str(), "vector.kv");
    assert_eq!(CAP_VECTOR_QUANTIZED().to_string(), "vector.quantized");
    assert_ne!(CAP_VECTOR_KV(), CAP_VECTOR_QUANTIZED());
}

#[test]
fn sync_to_async_holds_inner() {
    let s = SyncToAsync::new(41u32);
    assert_eq!(*s.inner(), 41);
    let shared = std::sync::Arc::new(String::from("t"));
    let s2 = SyncToAsync::from_arc(shared.clone());
    assert_eq!(s2.inner(), "t");
    assert!(std::sync::Arc::ptr_eq(s2.shared(), &shared));
}
