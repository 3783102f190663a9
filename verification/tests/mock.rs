use bytes::Bytes;
use skeg_rigging::accounting::{Quota, QuotaError, TenantQuota, TenantStats};
use skeg_rigging::error::QueryError;
use skeg_rigging::events::{Event, EventFilter, EventStream, TenantEvents};
use skeg_rigging::filter::RecordMeta;
use skeg_rigging::ids::{RecordId, TenantId};
use skeg_rigging::mock::MockTenant;
use skeg_rigging::ranking::rank_by_similarity;

/// The embedding as the bit patterns the tenant stores.
fn emb(v: &[f32]) -> Vec<u32> {
    v.iter().map(|x| x.to_bits()).collect()
}

fn cosine(a: &[f32], b: &[f32]) -> f32 {
    let mut dot = 0.0f32;
    let mut na = 0.0f32;
    let mut nb = 0.0f32;
    for i in 0..a.len() {
        dot += a[i] * b[i];
        na += a[i] * a[i];
        nb += b[i] * b[i];
    }
    if na == 0.0 || nb == 0.0 {
        return 0.0;
    }
    dot / (na.sqrt() * nb.sqrt())
}

/// Pull the next event that passes the stream's filter, waiting at most
/// `timeout` in all; `Err` on timeout or once every producer is gone.
fn recv_timeout(
    stream: &EventStream,
    timeout: std::time::Duration,
) -> Result<Event, std::sync::mpsc::RecvTimeoutError> {
    let deadline = std::time::Instant::now() + timeout;
    loop {
        let remaining = deadline.saturating_duration_since(std::time::Instant::now());
        let ev = stream.receiver().recv_timeout(remaining)?;
        if let Some(ev) = stream.screen(ev) {
            return Ok(ev);
        }
    }
}

/// Non-blocking pull of the next event that passes the stream's filter.
fn poll(stream: &EventStream) -> Option<Event> {
    loop {
        match stream.receiver().try_recv() {
            Ok(ev) => {
                if let Some(ev) = stream.screen(ev) {
                    return Some(ev);
                }
            }
            Err(_) => return None,
        }
    }
}

#[test]
fn empty_mock_tenant_has_zero_count() {
    let t = MockTenant::new(TenantId::ZERO(), 3);
    assert_eq!(<MockTenant as TenantStats>::record_count(&t), 0);
    assert_eq!(t.embedding_dim(), 3);
}

#[test]
fn insert_and_query() {
    let mut t = MockTenant::new(TenantId::from_bytes([1; 16]), 3);
    t.insert(
        RecordId(1),
        emb(&[1.0, 0.0, 0.0]),
        true,
        vec!["a".into()],
        Bytes::from_static(b"x"),
    )
    .unwrap();
    t.insert(
        RecordId(2),
        emb(&[0.0, 1.0, 0.0]),
        false,
        vec!["b".into()],
        Bytes::from_static(b"y"),
    )
    .unwrap();
    let q = [1.0f32, 0.0, 0.0];
    t.check_query_dim(q.len()).unwrap();
    let cands = t.filtered_candidates(&|m: &RecordMeta<'_>| m.shareable);
    let sims: Vec<u32> = cands
        .iter()
        .map(|&i| {
            let v: Vec<f32> = t.records()[i].embedding.iter().map(|b| f32::from_bits(*b)).collect();
            cosine(&q, &v).to_bits()
        })
        .collect();
    let order = rank_by_similarity(&sims, 5);
    let hits: Vec<RecordId> = order.iter().map(|&o| t.records()[cands[o]].record_id).collect();
    assert_eq!(hits.len(), 1);
    assert_eq!(hits[0], RecordId(1));
}

#[test]
fn dim_mismatch_errors() {
    let t = MockTenant::new(TenantId::ZERO(), 4);
    let err = t.check_query_dim([1.0f32, 0.0].len()).unwrap_err();
    assert!(matches!(err, QueryError::EmbeddingDimMismatch { .. }));
    match err {
        QueryError::EmbeddingDimMismatch { expected, got } => {
            assert_eq!((expected, got), (4, 2));
        }
        _ => unreachable!(),
    }
}

#[test]
fn delete_round_trip() {
    let mut t = MockTenant::new(TenantId::ZERO(), 2);
    t.insert(
        RecordId(7),
        emb(&[1.0, 0.0]),
        true,
        vec![],
        Bytes::from_static(b""),
    )
    .unwrap();
    assert_eq!(<MockTenant as TenantStats>::record_count(&t), 1);
    assert!(t.delete(RecordId(7)));
    assert_eq!(<MockTenant as TenantStats>::record_count(&t), 0);
    assert!(!t.delete(RecordId(7)));
}

#[test]
fn stats_bytes_grow_with_records() {
    let mut t = MockTenant::new(TenantId::ZERO(), 3);
    assert_eq!(t.bytes_on_disk(), 0);
    t.insert(
        RecordId(1),
        emb(&[1.0, 0.0, 0.0]),
        true,
        vec!["tag".into()],
        Bytes::from_static(b"payload-1"),
    )
    .unwrap();
    let after_one = t.bytes_on_disk();
    assert!(after_one > 0);
    t.insert(
        RecordId(2),
        emb(&[0.0, 1.0, 0.0]),
        true,
        vec!["another".into()],
        Bytes::from_static(b"payload-2"),
    )
    .unwrap();
    assert!(t.bytes_on_disk() > after_one);
}

#[test]
fn mock_stats_record_count_matches_inserts() {
    let mut t = MockTenant::new(TenantId::ZERO(), 2);
    for i in 0..7 {
        t.insert(
            RecordId(i),
            emb(&[1.0, 0.0]),
            false,
            vec![],
            Bytes::from_static(b""),
        )
        .unwrap();
    }
    assert_eq!(<MockTenant as TenantStats>::record_count(&t), 7);
}

#[test]
fn default_quota_is_unlimited() {
    let t = MockTenant::new(TenantId::ZERO(), 2);
    assert_eq!(t.quota(), Quota::UNLIMITED());
    assert!(t.quota().is_unlimited());
}

#[test]
fn quota_records_blocks_inserts_past_cap() {
    let mut t = MockTenant::new(TenantId::ZERO(), 2);
    t.set_quota(Quota {
        max_records: Some(2),
        ..Quota::UNLIMITED()
    })
    .unwrap();
    t.insert(RecordId(1), emb(&[1.0, 0.0]), false, vec![], Bytes::new())
        .unwrap();
    t.insert(RecordId(2), emb(&[0.0, 1.0]), false, vec![], Bytes::new())
        .unwrap();
    let err = t
        .insert(RecordId(3), emb(&[1.0, 1.0]), false, vec![], Bytes::new())
        .unwrap_err();
    match err {
        QuotaError::Exceeded {
            dimension,
            cap,
            attempted,
        } => {
            assert_eq!(dimension, "records");
            assert_eq!(cap, 2);
            assert_eq!(attempted, 3);
        }
        other => panic!("expected Exceeded, got {other:?}"),
    }
    assert_eq!(t.current_usage().records, 2);
}

#[test]
fn quota_bytes_blocks_inserts_past_cap() {
    let mut t = MockTenant::new(TenantId::ZERO(), 2);
    // 2 floats = 8 B; payload "x" = 1 B; tag "" = 0; per record = 9 B.
    t.set_quota(Quota {
        max_bytes: Some(20),
        ..Quota::UNLIMITED()
    })
    .unwrap();
    t.insert(
        RecordId(1),
        emb(&[1.0, 0.0]),
        false,
        vec![],
        Bytes::from_static(b"x"),
    )
    .unwrap();
    t.insert(
        RecordId(2),
        emb(&[0.0, 1.0]),
        false,
        vec![],
        Bytes::from_static(b"y"),
    )
    .unwrap();
    // Third record would push past 20 B.
    let err = t
        .insert(
            RecordId(3),
            emb(&[1.0, 1.0]),
            false,
            vec![],
            Bytes::from_static(b"z"),
        )
        .unwrap_err();
    assert!(matches!(
        err,
        QuotaError::Exceeded {
            dimension: "bytes",
            ..
        }
    ));
}

#[test]
fn quota_overwrite_existing_record_does_not_trigger_check() {
    let mut t = MockTenant::new(TenantId::ZERO(), 2);
    t.insert(
        RecordId(1),
        emb(&[1.0, 0.0]),
        false,
        vec![],
        Bytes::from_static(b"x"),
    )
    .unwrap();
    // Cap at the current count: a new insert would fail, but an
    // overwrite of an existing row must still succeed.
    t.set_quota(Quota {
        max_records: Some(1),
        ..Quota::UNLIMITED()
    })
    .unwrap();
    t.insert(
        RecordId(1),
        emb(&[0.0, 1.0]),
        true,
        vec![],
        Bytes::from_static(b"x-updated"),
    )
    .unwrap();
    assert_eq!(t.current_usage().records, 1);
}

#[test]
fn subscribe_receives_record_inserted() {
    let mut t = MockTenant::new(TenantId::ZERO(), 2);
    let stream = t.subscribe(EventFilter::ALL());
    t.insert(RecordId(1), emb(&[1.0, 0.0]), true, vec![], Bytes::new())
        .unwrap();
    let ev = recv_timeout(&stream, std::time::Duration::from_millis(100)).expect("event should arrive");
    match ev {
        Event::RecordInserted {
            record_id,
            shareable,
        } => {
            assert_eq!(record_id, RecordId(1));
            assert!(shareable);
        }
        other => panic!("expected RecordInserted, got {other:?}"),
    }
}

#[test]
fn subscribe_receives_record_deleted() {
    let mut t = MockTenant::new(TenantId::ZERO(), 2);
    t.insert(RecordId(7), emb(&[1.0, 0.0]), false, vec![], Bytes::new())
        .unwrap();
    let stream = t.subscribe(EventFilter::ALL());
    assert!(t.delete(RecordId(7)));
    let ev = recv_timeout(&stream, std::time::Duration::from_millis(100)).expect("event should arrive");
    assert!(matches!(ev, Event::RecordDeleted { record_id } if record_id == RecordId(7)));
}

#[test]
fn filter_drops_unwanted_events() {
    let mut t = MockTenant::new(TenantId::ZERO(), 2);
    let stream = t.subscribe(EventFilter {
        record_inserted: false,
        record_deleted: true,
        ..EventFilter::NONE()
    });
    t.insert(RecordId(1), emb(&[1.0, 0.0]), false, vec![], Bytes::new())
        .unwrap();
    // Insert is filtered out - nothing passes yet.
    assert!(poll(&stream).is_none());
    // Deletes pass.
    t.delete(RecordId(1));
    let ev = recv_timeout(&stream, std::time::Duration::from_millis(100)).expect("delete should pass filter");
    assert!(matches!(ev, Event::RecordDeleted { .. }));
}

#[test]
fn multiple_subscribers_each_get_their_own_copy() {
    let mut t = MockTenant::new(TenantId::ZERO(), 2);
    let s1 = t.subscribe(EventFilter::ALL());
    let s2 = t.subscribe(EventFilter::ALL());
    t.insert(RecordId(42), emb(&[1.0, 0.0]), true, vec![], Bytes::new())
        .unwrap();
    let e1 = recv_timeout(&s1, std::time::Duration::from_millis(100)).unwrap();
    let e2 = recv_timeout(&s2, std::time::Duration::from_millis(100)).unwrap();
    assert!(matches!(e1, Event::RecordInserted { record_id, .. } if record_id == RecordId(42)));
    assert!(matches!(e2, Event::RecordInserted { record_id, .. } if record_id == RecordId(42)));
}

#[test]
fn mock_dropping_subscription_prunes_sender() {
    let mut t = MockTenant::new(TenantId::ZERO(), 2);
    {
        let _stream = t.subscribe(EventFilter::ALL());
        t.insert(RecordId(1), emb(&[1.0, 0.0]), false, vec![], Bytes::new())
            .unwrap();
        // _stream dropped at end of block, sender becomes invalid.
    }
    // Next emit prunes the dead sender; no panic, len -> 0.
    t.insert(RecordId(2), emb(&[0.0, 1.0]), false, vec![], Bytes::new())
        .unwrap();
    let live = t.subscriber_count();
    assert_eq!(live, 0, "dead sender should have been pruned");
}

#[test]
fn delete_of_missing_record_is_silent() {
    let mut t = MockTenant::new(TenantId::ZERO(), 2);
    let stream = t.subscribe(EventFilter::ALL());
    assert!(!t.delete(RecordId(99)));
    assert!(poll(&stream).is_none());
}

#[test]
fn set_quota_below_current_usage_is_allowed_but_blocks_growth() {
    let mut t = MockTenant::new(TenantId::ZERO(), 2);
    for i in 0..5 {
        t.insert(RecordId(i), emb(&[1.0, 0.0]), false, vec![], Bytes::new())
            .unwrap();
    }
    // Existing rows untouched; further growth blocked.
    t.set_quota(Quota {
        max_records: Some(3),
        ..Quota::UNLIMITED()
    })
    .unwrap();
    assert_eq!(t.current_usage().records, 5);
    let err = t
        .insert(RecordId(99), emb(&[1.0, 1.0]), false, vec![], Bytes::new())
        .unwrap_err();
    assert!(matches!(err, QuotaError::Exceeded { .. }));
}

#[test]
fn byte_estimate_counts_embedding_tags_and_payload() {
    let mut t = MockTenant::new(TenantId::ZERO(), 3);
    // 3 floats = 12 B; tags "ab" + "é" = 2 + 2 B; payload 5 B.
    t.insert(
        RecordId(1),
        emb(&[0.5, 0.25, 0.125]),
        true,
        vec!["ab".into(), "é".into()],
        Bytes::from_static(b"hello"),
    )
    .unwrap();
    assert_eq!(t.bytes_on_disk(), 21);
    assert_eq!(t.memory_resident(), 21);
    assert_eq!(t.current_usage().bytes, 21);
    // Overwrite replaces the estimate rather than adding to it.
    t.insert(RecordId(1), emb(&[0.0, 0.0, 0.0]), false, vec![], Bytes::new())
        .unwrap();
    assert_eq!(t.bytes_on_disk(), 12);
}

#[test]
fn overwrite_replaces_record_in_place() {
    let mut t = MockTenant::new(TenantId::ZERO(), 1);
    for i in 0..3 {
        t.insert(RecordId(i), emb(&[1.0]), false, vec![], Bytes::new())
            .unwrap();
    }
    t.insert(
        RecordId(1),
        emb(&[2.0]),
        true,
        vec!["new".into()],
        Bytes::from_static(b"p"),
    )
    .unwrap();
    let ids: Vec<u64> = t.records().iter().map(|r| r.record_id.0).collect();
    assert_eq!(ids, vec![0, 1, 2]);
    let r = &t.records()[1];
    assert!(r.shareable);
    assert_eq!(r.tags, vec!["new".to_string()]);
    assert_eq!(&r.payload[..], b"p");
    assert_eq!(r.embedding, emb(&[2.0]));
}

#[test]
fn refused_insert_changes_nothing() {
    let mut t = MockTenant::new(TenantId::ZERO(), 1);
    t.set_quota(Quota {
        max_records: Some(0),
        max_bytes: None,
    })
    .unwrap();
    let stream = t.subscribe(EventFilter::ALL());
    assert!(t
        .insert(RecordId(1), emb(&[1.0]), false, vec![], Bytes::new())
        .is_err());
    assert!(t.records().is_empty());
    assert!(poll(&stream).is_none());
}

#[test]
fn records_cap_checked_before_bytes_cap() {
    let mut t = MockTenant::new(TenantId::ZERO(), 1);
    t.set_quota(Quota {
        max_records: Some(0),
        max_bytes: Some(0),
    })
    .unwrap();
    match t
        .insert(RecordId(1), emb(&[1.0]), false, vec![], Bytes::new())
        .unwrap_err()
    {
        QuotaError::Exceeded {
            dimension,
            cap,
            attempted,
        } => assert_eq!((dimension, cap, attempted), ("records", 0, 1)),
        other => panic!("expected Exceeded, got {other:?}"),
    }
    t.set_quota(Quota {
        max_records: None,
        max_bytes: Some(3),
    })
    .unwrap();
    match t
        .insert(RecordId(1), emb(&[1.0]), false, vec![], Bytes::new())
        .unwrap_err()
    {
        QuotaError::Exceeded {
            dimension,
            cap,
            attempted,
        } => assert_eq!((dimension, cap, attempted), ("bytes", 3, 4)),
        other => panic!("expected Exceeded, got {other:?}"),
    }
}

#[test]
fn quota_error_message() {
    let e = QuotaError::Exceeded {
        dimension: "bytes",
        cap: 20,
        attempted: 27,
    };
    assert_eq!(e.to_string(), "quota exceeded: bytes (cap 20, attempted 27)");
    let io = QuotaError::Io(std::io::Error::other("disk gone"));
    assert_eq!(io.to_string(), "I/O error: disk gone");
}

#[test]
fn insert_within_limits_writes_like_insert() {
    let mut t = MockTenant::new(TenantId::ZERO(), 2);
    let r = t.insert_within_limits(
        RecordId(1),
        emb(&[1.0, 0.0]),
        true,
        vec!["t".into()],
        Bytes::from_static(b"xy"),
    );
    assert!(matches!(r, Some(Ok(()))));
    assert_eq!(t.records().len(), 1);
    assert_eq!(TenantStats::bytes_on_disk(&t), 8 + 1 + 2);
    // An overwrite under the same id is written in place.
    let r = t.insert_within_limits(RecordId(1), emb(&[0.0, 1.0]), false, vec![], Bytes::new());
    assert!(matches!(r, Some(Ok(()))));
    assert_eq!(t.records().len(), 1);
    assert!(!t.records()[0].shareable);
}
