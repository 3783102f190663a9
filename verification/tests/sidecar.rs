use skeg_rigging::filter::{Filter, RecordMeta};
use skeg_rigging::ids::{RecordId, TenantId};
use skeg_rigging::sidecar::{
    dim_check, insert_precheck, query_oversample, MetadataSidecar, RecordEntry, WriteRefusal,
};

fn entry(id: u64, shareable: bool, payload: &[u8]) -> RecordEntry {
    RecordEntry {
        record_id: id,
        shareable,
        tags: vec![format!("t{id}")],
        payload: payload.to_vec(),
    }
}

#[test]
fn empty_sidecar() {
    let s = MetadataSidecar::empty(TenantId::from_bytes([3; 16]), 8);
    assert!(s.is_empty());
    assert_eq!(s.tenant_id, [3; 16]);
    assert_eq!(s.embedding_dim, 8);
    assert!(s.get(RecordId(1)).is_none());
}

#[test]
fn upsert_get_and_remove() {
    let mut s = MetadataSidecar::empty(TenantId::ZERO(), 4);
    s.upsert(entry(1, true, b"hello"));
    s.upsert(entry(2, false, b"world"));
    s.upsert(entry(1, false, b"again"));
    assert_eq!(s.record_count(), 2);
    assert_eq!(s.records[0].payload, b"again".to_vec());
    assert_eq!(s.get(RecordId(2)).unwrap().payload, b"world".to_vec());
    assert!(s.remove_id(1));
    assert!(!s.remove_id(1));
    assert!(s.get(RecordId(1)).is_none());
    assert_eq!(s.record_count(), 1);
}

#[test]
fn select_hits_skips_missing_and_filtered() {
    let mut s = MetadataSidecar::empty(TenantId::ZERO(), 4);
    s.upsert(entry(10, true, b"a"));
    s.upsert(entry(11, false, b"b"));
    s.upsert(entry(12, true, b"c"));
    let ranked = vec![11, 99, 12, 10];
    let hits = s.select_hits(&ranked, 10, &|m: &RecordMeta<'_>| m.shareable);
    assert_eq!(hits, vec![(2, 2), (3, 0)]);
    let one = s.select_hits(&ranked, 1, &|_: &RecordMeta<'_>| true);
    assert_eq!(one, vec![(0, 1)]);
    // A top_k of zero keeps nothing.
    let zero = s.select_hits(&ranked, 0, &|m: &RecordMeta<'_>| m.shareable);
    assert!(zero.is_empty());
    // Tags reach the filter.
    let tagged = s.select_hits(&ranked, 5, &|m: &RecordMeta<'_>| m.tags.contains(&"t10"));
    assert_eq!(tagged, vec![(3, 0)]);
}

#[test]
fn oversample_and_prechecks() {
    assert_eq!(query_oversample(10), 64);
    assert_eq!(query_oversample(16), 64);
    assert_eq!(query_oversample(17), 68);
    assert_eq!(insert_precheck(true, 4, 3), Err(WriteRefusal::ReadOnly));
    assert_eq!(
        insert_precheck(false, 4, 3),
        Err(WriteRefusal::DimMismatch {
            on_disk: 4,
            requested: 3
        })
    );
    assert_eq!(insert_precheck(false, 4, 4), Ok(()));
    assert_eq!(dim_check(4, 4), Ok(()));
    assert_eq!(
        dim_check(4, 8),
        Err(WriteRefusal::DimMismatch {
            on_disk: 4,
            requested: 8
        })
    );
}

/// A filter implemented by a caller's own type rather than a closure.
struct SharedOnly;

impl Filter for SharedOnly {
    fn accept(&self, meta: &RecordMeta<'_>) -> bool {
        meta.shareable
    }
}

#[test]
fn caller_filter_type_is_asked_with_record_metadata() {
    let mut s = MetadataSidecar::empty(TenantId::ZERO(), 4);
    s.upsert(entry(10, true, b"a"));
    s.upsert(entry(11, false, b"b"));
    let hits = s.select_hits(&vec![11, 10], 5, &SharedOnly);
    assert_eq!(hits, vec![(1, 0)]);
}
