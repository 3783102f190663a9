//! Tenant event notifications.

use vstd::prelude::*;

use crate::ids::{RecordId, TenantId};

verus! {

/// `std::time::SystemTime`, carried through opaquely.
#[verifier::external_type_specification]
#[verifier::external_body]
pub struct ExSystemTime(std::time::SystemTime);

/// `std::sync::mpsc::Sender`, carried through opaquely.
#[verifier::external_type_specification]
#[verifier::external_body]
#[verifier::reject_recursive_types(T)]
pub struct ExSender<T>(std::sync::mpsc::Sender<T>);

/// `std::sync::mpsc::Receiver`, carried through opaquely.
#[verifier::external_type_specification]
#[verifier::external_body]
#[verifier::reject_recursive_types(T)]
pub struct ExReceiver<T>(std::sync::mpsc::Receiver<T>);

/// Trusted: `SystemTime` is `Copy`, and its `clone` returns the same instant.
pub assume_specification[ <std::time::SystemTime as Clone>::clone ](
    t: &std::time::SystemTime,
) -> (r: std::time::SystemTime)
    ensures
        r == *t,
;

/// One observable change in a tenant's state.
#[derive(Debug, Clone)]
#[non_exhaustive]
pub enum Event {
    /// A new record was written.
    RecordInserted {
        /// Record identifier.
        record_id: RecordId,
        /// Whether the record opted into peer sharing.
        shareable: bool,
    },
    /// A record was removed from the tenant.
    RecordDeleted {
        /// Record identifier that was removed.
        record_id: RecordId,
    },
    /// The tenant's saga digest was rebuilt.
    SagaRebuilt {
        /// The tenant whose saga was rebuilt.
        tenant_id: TenantId,
        /// Wall-clock time of the rebuild.
        built_at: std::time::SystemTime,
    },
    /// A new member joined the hansa containing this tenant.
    HansaMemberJoined {
        /// The joining tenant's id.
        tenant_id: TenantId,
    },
    /// A member left the hansa.
    HansaMemberLeft {
        /// The leaving tenant's id.
        tenant_id: TenantId,
    },
}

/// Discriminator used by [`EventFilter`]. Matches the variant tags of
/// [`Event`].
#[derive(Debug, Clone, Copy, PartialEq, Eq, Structural, Hash)]
pub enum EventKind {
    /// Matches [`Event::RecordInserted`].
    RecordInserted,
    /// Matches [`Event::RecordDeleted`].
    RecordDeleted,
    /// Matches [`Event::SagaRebuilt`].
    SagaRebuilt,
    /// Matches [`Event::HansaMemberJoined`].
    HansaMemberJoined,
    /// Matches [`Event::HansaMemberLeft`].
    HansaMemberLeft,
}

impl Event {
    /// The variant tag of this event.
    pub open spec fn spec_kind(&self) -> EventKind {
        match self {
            Event::RecordInserted { .. } => EventKind::RecordInserted,
            Event::RecordDeleted { .. } => EventKind::RecordDeleted,
            Event::SagaRebuilt { .. } => EventKind::SagaRebuilt,
            Event::HansaMemberJoined { .. } => EventKind::HansaMemberJoined,
            Event::HansaMemberLeft { .. } => EventKind::HansaMemberLeft,
        }
    }

    /// Discriminant used for [`EventFilter`] matching.
    pub fn kind(&self) -> (k: EventKind)
        ensures
            k == self.spec_kind(),
    {
        match self {
            Event::RecordInserted { .. } => EventKind::RecordInserted,
            Event::RecordDeleted { .. } => EventKind::RecordDeleted,
            Event::SagaRebuilt { .. } => EventKind::SagaRebuilt,
            Event::HansaMemberJoined { .. } => EventKind::HansaMemberJoined,
            Event::HansaMemberLeft { .. } => EventKind::HansaMemberLeft,
        }
    }
}

/// Subscription filter: a per-kind allow-list.
#[derive(Debug, Clone, Copy, PartialEq, Eq, Structural)]
pub struct EventFilter {
    /// Allow [`Event::RecordInserted`].
    pub record_inserted: bool,
    /// Allow [`Event::RecordDeleted`].
    pub record_deleted: bool,
    /// Allow [`Event::SagaRebuilt`].
    pub saga_rebuilt: bool,
    /// Allow [`Event::HansaMemberJoined`].
    pub hansa_member_joined: bool,
    /// Allow [`Event::HansaMemberLeft`].
    pub hansa_member_left: bool,
}

impl EventFilter {
    /// Match every event variant.
    #[allow(non_snake_case)]
    pub fn ALL() -> (f: EventFilter)
        ensures
            f.record_inserted && f.record_deleted && f.saga_rebuilt && f.hansa_member_joined
                && f.hansa_member_left,
    {
        EventFilter {
            record_inserted: true,
            record_deleted: true,
            saga_rebuilt: true,
            hansa_member_joined: true,
            hansa_member_left: true,
        }
    }

    /// Match nothing.
    #[allow(non_snake_case)]
    pub fn NONE() -> (f: EventFilter)
        ensures
            !f.record_inserted && !f.record_deleted && !f.saga_rebuilt && !f.hansa_member_joined
                && !f.hansa_member_left,
    {
        EventFilter {
            record_inserted: false,
            record_deleted: false,
            saga_rebuilt: false,
            hansa_member_joined: false,
            hansa_member_left: false,
        }
    }

    /// Whether this filter allows events of kind `k`.
    pub open spec fn allows(&self, k: EventKind) -> bool {
        match k {
            EventKind::RecordInserted => self.record_inserted,
            EventKind::RecordDeleted => self.record_deleted,
            EventKind::SagaRebuilt => self.saga_rebuilt,
            EventKind::HansaMemberJoined => self.hansa_member_joined,
            EventKind::HansaMemberLeft => self.hansa_member_left,
        }
    }

    /// Whether `event` passes this filter.
    pub open spec fn spec_accepts(&self, event: Event) -> bool {
        self.allows(event.spec_kind())
    }

    /// True when `event` passes this filter.
    pub fn accepts(&self, event: &Event) -> (b: bool)
        ensures
            b == self.spec_accepts(*event),
    {
        match event.kind() {
            EventKind::RecordInserted => self.record_inserted,
            EventKind::RecordDeleted => self.record_deleted,
            EventKind::SagaRebuilt => self.saga_rebuilt,
            EventKind::HansaMemberJoined => self.hansa_member_joined,
            EventKind::HansaMemberLeft => self.hansa_member_left,
        }
    }
}

impl Default for EventFilter {
    fn default() -> (f: EventFilter)
        ensures
            f.record_inserted && f.record_deleted && f.saga_rebuilt && f.hansa_member_joined
                && f.hansa_member_left,
    {
        EventFilter::ALL()
    }
}

/// [`EventFilter::ALL`] passes every event and [`EventFilter::NONE`] passes
/// none.
pub proof fn lemma_all_and_none(all: EventFilter, none: EventFilter, e: Event)
    requires
        all.record_inserted && all.record_deleted && all.saga_rebuilt && all.hansa_member_joined
            && all.hansa_member_left,
        !none.record_inserted && !none.record_deleted && !none.saga_rebuilt
            && !none.hansa_member_joined && !none.hansa_member_left,
    ensures
        all.spec_accepts(e),
        !none.spec_accepts(e),
{
}

/// Each flag of a filter governs exactly its own kind of event: the filter
/// that sets one flag alone accepts the events of that kind and no others.
pub proof fn lemma_each_flag_selects_its_kind(e: Event)
    ensures
        (EventFilter {
            record_inserted: true,
            record_deleted: false,
            saga_rebuilt: false,
            hansa_member_joined: false,
            hansa_member_left: false,
        }).spec_accepts(e) <==> e is RecordInserted,
        (EventFilter {
            record_inserted: false,
            record_deleted: true,
            saga_rebuilt: false,
            hansa_member_joined: false,
            hansa_member_left: false,
        }).spec_accepts(e) <==> e is RecordDeleted,
        (EventFilter {
            record_inserted: false,
            record_deleted: false,
            saga_rebuilt: true,
            hansa_member_joined: false,
            hansa_member_left: false,
        }).spec_accepts(e) <==> e is SagaRebuilt,
        (EventFilter {
            record_inserted: false,
            record_deleted: false,
            saga_rebuilt: false,
            hansa_member_joined: true,
            hansa_member_left: false,
        }).spec_accepts(e) <==> e is HansaMemberJoined,
        (EventFilter {
            record_inserted: false,
            record_deleted: false,
            saga_rebuilt: false,
            hansa_member_joined: false,
            hansa_member_left: true,
        }).spec_accepts(e) <==> e is HansaMemberLeft,
{
}

/// One subscription: the sending half of a channel, with a model of it.
///
/// The model holds the receiving half this sender is paired with
/// ([`Subscription::peer`]), every event handed to it ([`Subscription::offered`]),
/// the events the channel accepted ([`Subscription::sent`]), and whether the
/// last send found the receiving half gone ([`Subscription::refused`]). They
/// are set only by the trusted channel calls below.
pub struct Subscription {
    tx: std::sync::mpsc::Sender<Event>,
    peer: Ghost<std::sync::mpsc::Receiver<Event>>,
    offered: Ghost<Seq<Event>>,
    sent: Ghost<Seq<Event>>,
    refused: Ghost<bool>,
}

impl Subscription {
    /// The receiving half of this subscription's channel.
    pub closed spec fn peer(&self) -> std::sync::mpsc::Receiver<Event> {
        self.peer@
    }

    /// Every event handed to this subscription to send, oldest first.
    pub closed spec fn offered(&self) -> Seq<Event> {
        self.offered@
    }

    /// The events the channel has accepted from this subscription, oldest
    /// first: what its receiving half gets, in this order.
    pub closed spec fn sent(&self) -> Seq<Event> {
        self.sent@
    }

    /// Whether the last send found the receiving half gone.
    pub closed spec fn refused(&self) -> bool {
        self.refused@
    }
}

/// A new channel: its sending half as a subscription, and its receiving half.
///
/// Trusted: calls `std::sync::mpsc::channel`, whose two halves belong
/// together; nothing has been handed over yet.
#[verifier::external_body]
fn new_channel() -> (r: (Subscription, std::sync::mpsc::Receiver<Event>))
    ensures
        r.0.peer() == r.1,
        r.0.offered() == Seq::<Event>::empty(),
        r.0.sent() == Seq::<Event>::empty(),
        !r.0.refused(),
{
    let (tx, rx) = std::sync::mpsc::channel();
    (
        Subscription {
            tx,
            peer: Ghost(rx),
            offered: Ghost(Seq::empty()),
            sent: Ghost(Seq::empty()),
            refused: Ghost(false),
        },
        rx,
    )
}

/// Sends a copy of `ev`; `true` when the channel accepted it.
///
/// Trusted: calls `Sender::send` on a clone of the event. It fails exactly
/// when the receiving half has been dropped, which is for good: once a send
/// was refused, every later one is. On success the event is queued for the
/// receiving half. Whether that half is alive is outside the verifier's view,
/// so the answer itself is not stated; what each answer means is.
#[verifier::external_body]
fn send_event(sub: &mut Subscription, ev: &Event) -> (ok: bool)
    ensures
        final(sub).peer() == old(sub).peer(),
        final(sub).offered() == old(sub).offered().push(*ev),
        final(sub).refused() == !ok,
        old(sub).refused() ==> !ok,
        ok ==> final(sub).sent() == old(sub).sent().push(*ev),
        !ok ==> final(sub).sent() == old(sub).sent(),
{
    sub.tx.send(ev.clone()).is_ok()
}

/// A new subscription, and the stream that receives what is sent to it,
/// screened by `filter`.
pub fn open_subscription(filter: EventFilter) -> (r: (Subscription, EventStream))
    ensures
        r.0.peer() == r.1.spec_receiver(),
        r.0.offered() == Seq::<Event>::empty(),
        r.0.sent() == Seq::<Event>::empty(),
        !r.0.refused(),
        r.1.spec_filter() == filter,
{
    let (sub, rx) = new_channel();
    let stream = EventStream::new(rx, filter);
    (sub, stream)
}

/// `after` is `before` once `ev` was handed to it and its channel accepted
/// it.
pub open spec fn took(before: Subscription, after: Subscription, ev: Event) -> bool {
    &&& after.peer() == before.peer()
    &&& after.offered() == before.offered().push(ev)
    &&& after.sent() == before.sent().push(ev)
    &&& !after.refused()
}

/// `after` is `before` once `ev` was handed to it and its channel refused
/// it: the receiving half is gone.
pub open spec fn refused_by(before: Subscription, after: Subscription, ev: Event) -> bool {
    &&& after.peer() == before.peer()
    &&& after.offered() == before.offered().push(ev)
    &&& after.sent() == before.sent()
    &&& after.refused()
}

/// `part` are some of `orig`, in their order, each related to its original
/// by `rel` under `ev` (`took` when `accepted`, else `refused_by`): `idx`
/// gives, for each item of `part`, its position in `orig`.
pub open spec fn part_in_order(
    orig: Seq<Subscription>,
    part: Seq<Subscription>,
    idx: Seq<int>,
    ev: Event,
    accepted: bool,
) -> bool {
    &&& idx.len() == part.len()
    &&& forall|k: int|
        0 <= k < part.len() ==> 0 <= #[trigger] idx[k] < orig.len() && (if accepted {
            took(orig[idx[k]], part[k], ev)
        } else {
            refused_by(orig[idx[k]], part[k], ev)
        })
    &&& forall|a: int, b: int| 0 <= a < b < idx.len() ==> #[trigger] idx[a] < #[trigger] idx[b]
}

/// Broadcasting `ev` to `before` left `kept` and `gone`: every subscription
/// of `before` was handed `ev` once, in order; those whose channel accepted
/// it are `kept` and those whose receiving half was gone are `gone`, each in
/// their old order, and each old subscription is in exactly one of them.
pub open spec fn broadcast_split(
    before: Seq<Subscription>,
    kept: Seq<Subscription>,
    gone: Seq<Subscription>,
    ev: Event,
) -> bool {
    exists|idx: Seq<int>, gidx: Seq<int>|
        {
            &&& #[trigger] part_in_order(before, kept, idx, ev, true)
            &&& #[trigger] part_in_order(before, gone, gidx, ev, false)
            &&& kept.len() + gone.len() == before.len()
            &&& forall|a: int, b: int|
                0 <= a < idx.len() && 0 <= b < gidx.len() ==> #[trigger] idx[a] != #[trigger] gidx[b]
        }
}

/// Hands `event` to every subscription, in order. Those whose channel
/// accepted it stay in `subs`; those whose receiving half is gone are taken
/// out and returned.
pub fn broadcast(subs: &mut Vec<Subscription>, event: &Event) -> (gone: Vec<Subscription>)
    ensures
        broadcast_split(old(subs)@, final(subs)@, gone@, *event),
{
    let ghost orig = subs@;
    assert(orig.len() == subs.len());
    let mut pending: Vec<Subscription> = Vec::new();
    std::mem::swap(&mut pending, subs);
    let mut kept: Vec<Subscription> = Vec::new();
    let mut gone: Vec<Subscription> = Vec::new();
    let ghost mut idx: Seq<int> = Seq::empty();
    let ghost mut gidx: Seq<int> = Seq::empty();
    let mut done: usize = 0;
    while pending.len() > 0
        invariant
            pending@ == orig.skip(done as int),
            done <= orig.len(),
            orig.len() <= usize::MAX,
            part_in_order(orig, kept@, idx, *event, true),
            part_in_order(orig, gone@, gidx, *event, false),
            kept@.len() + gone@.len() == done,
            forall|k: int| 0 <= k < idx.len() ==> #[trigger] idx[k] < done,
            forall|k: int| 0 <= k < gidx.len() ==> #[trigger] gidx[k] < done,
            forall|a: int, b: int|
                0 <= a < idx.len() && 0 <= b < gidx.len() ==> #[trigger] idx[a] != #[trigger] gidx[b],
        decreases pending.len(),
    {
        assert(pending@.len() == orig.len() - done);
        let mut s = pending.remove(0);
        proof {
            assert(orig[done as int] == s);
        }
        let ghost kb = kept@;
        let ghost gb = gone@;
        if send_event(&mut s, event) {
            kept.push(s);
            proof {
                idx = idx.push(done as int);
                assert forall|k: int| 0 <= k < kept@.len() implies 0 <= #[trigger] idx[k] < orig.len()
                    && took(orig[idx[k]], kept@[k], *event) by {
                    if k < kb.len() {
                        assert(kept@[k] == kb[k]);
                    }
                }
            }
        } else {
            gone.push(s);
            proof {
                gidx = gidx.push(done as int);
                assert forall|k: int| 0 <= k < gone@.len() implies 0 <= #[trigger] gidx[k] < orig.len()
                    && refused_by(orig[gidx[k]], gone@[k], *event) by {
                    if k < gb.len() {
                        assert(gone@[k] == gb[k]);
                    }
                }
            }
        }
        done = done + 1;
        assert(pending@ =~= orig.skip(done as int));
    }
    assert(part_in_order(orig, kept@, idx, *event, true));
    assert(part_in_order(orig, gone@, gidx, *event, false));
    *subs = kept;
    gone
}

/// `s` is one of `before` once its channel accepted `ev`.
pub open spec fn took_from(before: Seq<Subscription>, s: Subscription, ev: Event) -> bool {
    exists|j: int| 0 <= j < before.len() && #[trigger] took(before[j], s, ev)
}

/// Every subscription still held after a broadcast was held before, on the
/// same channel, and that channel accepted the event after all it had
/// accepted before: each live subscriber's stream receives every event, in
/// order, and screens it by its own filter.
pub proof fn lemma_live_subscribers_get_the_event(
    before: Seq<Subscription>,
    kept: Seq<Subscription>,
    gone: Seq<Subscription>,
    ev: Event,
)
    requires
        broadcast_split(before, kept, gone, ev),
    ensures
        forall|k: int| 0 <= k < kept.len() ==> #[trigger] took_from(before, kept[k], ev),
{
    let (idx, gidx) = choose|idx: Seq<int>, gidx: Seq<int>|
        {
            &&& #[trigger] part_in_order(before, kept, idx, ev, true)
            &&& #[trigger] part_in_order(before, gone, gidx, ev, false)
            &&& kept.len() + gone.len() == before.len()
            &&& forall|a: int, b: int|
                0 <= a < idx.len() && 0 <= b < gidx.len() ==> #[trigger] idx[a] != #[trigger] gidx[b]
        };
    assert forall|k: int| 0 <= k < kept.len() implies #[trigger] took_from(before, kept[k], ev) by {
        assert(took(before[idx[k]], kept[k], ev));
    }
}

/// Receiver end of a tenant subscription: the channel's receiving half and
/// the filter applied to what comes through it.
pub struct EventStream {
    rx: std::sync::mpsc::Receiver<Event>,
    filter: EventFilter,
}

impl EventStream {
    /// The filter this stream applies.
    pub closed spec fn spec_filter(&self) -> EventFilter {
        self.filter
    }

    /// The channel's receiving half that this stream reads.
    pub closed spec fn spec_receiver(&self) -> std::sync::mpsc::Receiver<Event> {
        self.rx
    }

    /// Construct a stream from a raw receiver.
    pub fn new(rx: std::sync::mpsc::Receiver<Event>, filter: EventFilter) -> (s: Self)
        ensures
            s.spec_filter() == filter,
            s.spec_receiver() == rx,
    {
        EventStream { rx, filter }
    }

    /// The filter this stream applies.
    pub fn filter(&self) -> (f: EventFilter)
        ensures
            f == self.spec_filter(),
    {
        self.filter
    }

    /// The raw receiving half. Waiting on it (blocking, non-blocking, with a
    /// deadline) is the caller's; each arrival is screened with
    /// [`EventStream::screen`], and arrivals it drops are skipped.
    pub fn receiver(&self) -> (r: &std::sync::mpsc::Receiver<Event>)
        ensures
            *r == self.spec_receiver(),
    {
        &self.rx
    }

    /// One arrival screened by the filter: kept when it passes, dropped
    /// otherwise.
    pub fn screen(&self, ev: Event) -> (r: Option<Event>)
        ensures
            self.spec_filter().spec_accepts(ev) ==> r == Some(ev),
            !self.spec_filter().spec_accepts(ev) ==> r is None,
    {
        if self.filter.accepts(&ev) {
            Some(ev)
        } else {
            None
        }
    }
}

/// Push-mode notifications for tenant state changes.
pub trait TenantEvents {
    /// Subscribe to events. Every subscriber sees every event that passes its
    /// own filter.
    fn subscribe(&mut self, filter: EventFilter) -> EventStream;
}

} // verus!
