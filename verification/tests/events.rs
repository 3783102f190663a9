use skeg_rigging::events::{Event, EventFilter, EventKind, EventStream};
use skeg_rigging::ids::{RecordId, TenantId};

fn all_kinds() -> Vec<Event> {
    vec![
        Event::RecordInserted {
            record_id: RecordId(1),
            shareable: true,
        },
        Event::RecordDeleted {
            record_id: RecordId(2),
        },
        Event::SagaRebuilt {
            tenant_id: TenantId::ZERO(),
            built_at: std::time::SystemTime::UNIX_EPOCH,
        },
        Event::HansaMemberJoined {
            tenant_id: TenantId::ZERO(),
        },
        Event::HansaMemberLeft {
            tenant_id: TenantId::ZERO(),
        },
    ]
}

#[test]
fn event_kind_matches_variant() {
    let kinds: Vec<EventKind> = all_kinds().iter().map(|e| e.kind()).collect();
    assert_eq!(
        kinds,
        vec![
            EventKind::RecordInserted,
            EventKind::RecordDeleted,
            EventKind::SagaRebuilt,
            EventKind::HansaMemberJoined,
            EventKind::HansaMemberLeft,
        ]
    );
}

#[test]
fn all_accepts_everything_none_nothing() {
    for e in all_kinds() {
        assert!(EventFilter::ALL().accepts(&e));
        assert!(!EventFilter::NONE().accepts(&e));
        assert!(EventFilter::default().accepts(&e));
    }
}

#[test]
fn per_kind_filter() {
    let f = EventFilter {
        saga_rebuilt: true,
        ..EventFilter::NONE()
    };
    let accepted: Vec<bool> = all_kinds().iter().map(|e| f.accepts(e)).collect();
    assert_eq!(accepted, vec![false, false, true, false, false]);
}

/// Pull the next event that passes the stream's filter, waiting at most
/// `timeout` in all; `Err` on timeout or once every producer is gone.
fn recv_timeout(
    stream: &EventStream,
    timeout: std::time::Duration,
) -> Result<Event, std::sync::mpsc::RecvTimeoutError> {
    let deadline = std::time::Instant::now() + timeout;
    loop {
        let remaining = deadline.saturating_duration_since(std::time::Instant::now());
        let ev = stream.receiver().recv_timeout(remaining)?;
        if let Some(ev) = stream.screen(ev) {
            return Ok(ev);
        }
    }
}

#[test]
fn stream_recv_skips_filtered_and_ends_on_hangup() {
    let (tx, rx) = std::sync::mpsc::channel();
    let stream = EventStream::new(
        rx,
        EventFilter {
            record_deleted: true,
            ..EventFilter::NONE()
        },
    );
    for e in all_kinds() {
        tx.send(e).unwrap();
    }
    drop(tx);
    let got = recv_timeout(&stream, std::time::Duration::from_millis(100)).unwrap();
    assert!(matches!(got, Event::RecordDeleted { record_id } if record_id == RecordId(2)));
    assert!(recv_timeout(&stream, std::time::Duration::from_millis(100)).is_err());
    assert!(stream.screen(all_kinds().remove(0)).is_none());
    assert!(stream.screen(all_kinds().remove(1)).is_some());
}

#[test]
fn broadcast_keeps_live_and_returns_gone_subscriptions() {
    let (live, stream) = skeg_rigging::events::open_subscription(EventFilter::ALL());
    let (dead, dropped) = skeg_rigging::events::open_subscription(EventFilter::ALL());
    drop(dropped);
    let mut subs = vec![dead, live];
    let ev = Event::RecordDeleted {
        record_id: RecordId(5),
    };
    let gone = skeg_rigging::events::broadcast(&mut subs, &ev);
    assert_eq!(subs.len(), 1);
    assert_eq!(gone.len(), 1);
    let got = recv_timeout(&stream, std::time::Duration::from_millis(100)).unwrap();
    assert!(matches!(got, Event::RecordDeleted { record_id } if record_id == RecordId(5)));
}
