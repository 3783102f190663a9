//! In-memory tenant for exercising plugin code: a brute-force store of
//! records with quota enforcement and event broadcast.
//!
//! Embeddings are held as the bit patterns of their `f32` components
//! (`f32::to_bits`), so the store never computes with them; similarity is
//! computed by the caller and ranked with [`crate::ranking`].

use vstd::prelude::*;

use crate::accounting::{Quota, QuotaError, TenantQuota, TenantStats, Usage};
use crate::error::{check_query_dim, OpenError, QueryError};
use crate::events::{
    broadcast, broadcast_split, open_subscription, Event, EventFilter, EventStream, Subscription,
    TenantEvents,
};
use crate::filter::{meta_of, string_chars, tag_chars, tag_strs, Filter};
use crate::ids::{RecordId, TenantId};
use crate::readonly::ReadOnlyView;
use vstd::utf8::encode_utf8;

verus! {

/// `bytes::Bytes`, a refcounted byte buffer.
#[verifier::external_type_specification]
#[verifier::external_body]
pub struct ExBytes(bytes::Bytes);

/// The bytes a `Bytes` buffer holds.
pub uninterp spec fn bytes_contents(b: bytes::Bytes) -> Seq<u8>;

/// Length of a `Bytes` buffer.
///
/// Trusted: calls `Bytes::len`, which returns the number of bytes the buffer
/// holds.
#[verifier::external_body]
fn bytes_len(b: &bytes::Bytes) -> (n: usize)
    ensures
        n == bytes_contents(*b).len(),
{
    b.len()
}

/// Trusted: `Bytes::clone` returns a handle on the same bytes.
pub assume_specification[ <bytes::Bytes as Clone>::clone ](b: &bytes::Bytes) -> (r: bytes::Bytes)
    ensures
        bytes_contents(r) == bytes_contents(*b),
;

/// One record in a [`MockTenant`].
#[derive(Debug, Clone)]
pub struct MockRecord {
    /// Record identifier.
    pub record_id: RecordId,
    /// The embedding, as the bit patterns of its `f32` components.
    pub embedding: Vec<u32>,
    /// Visibility flag: peers never see records with `shareable == false`.
    pub shareable: bool,
    /// Tag strings.
    pub tags: Vec<String>,
    /// Record payload, refcounted.
    pub payload: bytes::Bytes,
}

/// Total UTF-8 length of the tags.
pub open spec fn tag_bytes(tags: Seq<String>) -> nat
    decreases tags.len(),
{
    if tags.len() == 0 {
        0
    } else {
        tag_bytes(tags.drop_last()) + encode_utf8(tags.last()@).len()
    }
}

/// Best effort byte estimate of one record: 4 bytes per embedding component,
/// the UTF-8 length of every tag, and the payload length.
pub open spec fn record_bytes(r: MockRecord) -> nat {
    4 * r.embedding@.len() + tag_bytes(r.tags@) + bytes_contents(r.payload).len()
}

/// Sum of [`record_bytes`] over `rs`.
pub open spec fn total_bytes(rs: Seq<MockRecord>) -> nat
    decreases rs.len(),
{
    if rs.len() == 0 {
        0
    } else {
        total_bytes(rs.drop_last()) + record_bytes(rs.last())
    }
}

/// Some record of `rs` carries `id`.
pub open spec fn has_id(rs: Seq<MockRecord>, id: RecordId) -> bool {
    exists|i: int| 0 <= i < rs.len() && #[trigger] rs[i].record_id == id
}

/// No two records of `rs` carry the same id.
pub open spec fn unique_ids(rs: Seq<MockRecord>) -> bool {
    forall|i: int, j: int|
        0 <= i < rs.len() && 0 <= j < rs.len() && #[trigger] rs[i].record_id
            == #[trigger] rs[j].record_id ==> i == j
}

/// `rs` after writing `rec`: the record carrying `rec`'s id is replaced in
/// place, or `rec` is appended when no record carries it.
pub open spec fn upsert(rs: Seq<MockRecord>, rec: MockRecord) -> Seq<MockRecord> {
    if has_id(rs, rec.record_id) {
        let i = choose|i: int| 0 <= i < rs.len() && #[trigger] rs[i].record_id == rec.record_id;
        rs.update(i, rec)
    } else {
        rs.push(rec)
    }
}

/// Whether writing `rec` into `rs` under `quota` is refused: only a new id
/// can be refused, first on the record cap, then on the byte cap.
pub open spec fn records_cap_hit(rs: Seq<MockRecord>, quota: Quota, rec: MockRecord) -> bool {
    &&& !has_id(rs, rec.record_id)
    &&& quota.max_records matches Some(cap) && rs.len() + 1 > cap
}

/// See [`records_cap_hit`]: the byte cap, checked when the record cap passed.
pub open spec fn bytes_cap_hit(rs: Seq<MockRecord>, quota: Quota, rec: MockRecord) -> bool {
    &&& !has_id(rs, rec.record_id)
    &&& !records_cap_hit(rs, quota, rec)
    &&& quota.max_bytes matches Some(cap) && total_bytes(rs) + record_bytes(rec) > cap
}

proof fn lemma_total_push(rs: Seq<MockRecord>, r: MockRecord)
    ensures
        total_bytes(rs.push(r)) == total_bytes(rs) + record_bytes(r),
{
    assert(rs.push(r).drop_last() =~= rs);
}

proof fn lemma_total_update(rs: Seq<MockRecord>, i: int, r: MockRecord)
    requires
        0 <= i < rs.len(),
    ensures
        total_bytes(rs.update(i, r)) + record_bytes(rs[i]) == total_bytes(rs) + record_bytes(r),
    decreases rs.len(),
{
    if i == rs.len() - 1 {
        assert(rs.update(i, r).drop_last() =~= rs.drop_last());
    } else {
        lemma_total_update(rs.drop_last(), i, r);
        assert(rs.update(i, r).drop_last() =~= rs.drop_last().update(i, r));
    }
}

proof fn lemma_total_remove(rs: Seq<MockRecord>, i: int)
    requires
        0 <= i < rs.len(),
    ensures
        total_bytes(rs.remove(i)) + record_bytes(rs[i]) == total_bytes(rs),
    decreases rs.len(),
{
    if i == rs.len() - 1 {
        assert(rs.remove(i) =~= rs.drop_last());
    } else {
        lemma_total_remove(rs.drop_last(), i);
        assert(rs.remove(i).drop_last() =~= rs.drop_last().remove(i));
    }
}

proof fn lemma_tag_bytes_prefix(tags: Seq<String>, i: int)
    requires
        0 <= i <= tags.len(),
    ensures
        tag_bytes(tags.take(i)) <= tag_bytes(tags),
    decreases tags.len() - i,
{
    if i < tags.len() {
        lemma_tag_bytes_prefix(tags, i + 1);
        assert(tags.take(i + 1).drop_last() =~= tags.take(i));
    } else {
        assert(tags.take(i) =~= tags);
    }
}

/// Byte estimate of one record (see [`record_bytes`]).
fn estimate_size(embedding: &Vec<u32>, tags: &Vec<String>, payload: &bytes::Bytes) -> (n: u64)
    requires
        4 * embedding@.len() + tag_bytes(tags@) + bytes_contents(*payload).len() <= u64::MAX,
    ensures
        n == 4 * embedding@.len() + tag_bytes(tags@) + bytes_contents(*payload).len(),
{
    let emb_bytes: u64 = 4 * (embedding.len() as u64);
    let mut tag_total: u64 = 0;
    let mut i: usize = 0;
    while i < tags.len()
        invariant
            i <= tags.len(),
            tag_total == tag_bytes(tags@.take(i as int)),
            4 * embedding@.len() + tag_bytes(tags@) + bytes_contents(*payload).len() <= u64::MAX,
        decreases tags.len() - i,
    {
        proof {
            lemma_tag_bytes_prefix(tags@, i + 1);
            assert(tags@.take(i + 1).drop_last() =~= tags@.take(i as int));
        }
        let t: &str = tags[i].as_str();
        proof {
            assert(tags@.take(i + 1).last() == tags@[i as int]);
        }
        let ghost prev = tag_total;
        tag_total = tag_total + t.as_bytes().len() as u64;
        proof {
            let tk = tags@.take(i + 1);
            assert(t@ == tags@[i as int]@);
            assert(tag_bytes(tk) == tag_bytes(tk.drop_last()) + encode_utf8(tk.last()@).len());
            assert(tag_total == prev + encode_utf8(tags@[i as int]@).len());
        }
        i = i + 1;
    }
    assert(tags@.take(tags.len() as int) =~= tags@);
    emb_bytes + tag_total + bytes_len(payload) as u64
}

/// The positions `i < n` whose answer in `ans` is `true`, in order.
pub open spec fn accepted_positions(ans: Seq<bool>, n: int) -> Seq<usize>
    decreases n,
{
    if n <= 0 {
        Seq::empty()
    } else if ans[n - 1] {
        accepted_positions(ans, n - 1).push((n - 1) as usize)
    } else {
        accepted_positions(ans, n - 1)
    }
}

/// The filter may be asked about every record of `rs`.
pub open spec fn askable<F: Filter + ?Sized>(filter: &F, rs: Seq<MockRecord>) -> bool {
    forall|i: int|
        0 <= i < rs.len() ==> filter.can_answer(
            (#[trigger] rs[i]).record_id,
            rs[i].shareable,
            string_chars(rs[i].tags@),
        )
}

/// `ans` holds, for each record of `rs` in order, an answer the filter may
/// give about that record's id, `shareable` flag and tags.
pub open spec fn answers_about<F: Filter + ?Sized>(filter: &F, rs: Seq<MockRecord>, ans: Seq<bool>) -> bool {
    &&& ans.len() == rs.len()
    &&& forall|i: int|
        0 <= i < rs.len() ==> filter.may_answer(
            (#[trigger] rs[i]).record_id,
            rs[i].shareable,
            string_chars(rs[i].tags@),
            ans[i],
        )
}

/// The accepted positions below `n` depend only on the first `n` answers.
proof fn lemma_accepted_positions_prefix(ans: Seq<bool>, n: int)
    requires
        0 <= n <= ans.len(),
    ensures
        forall|longer: Seq<bool>|
            longer.len() >= n && longer.take(n) == ans.take(n) ==> #[trigger] accepted_positions(
                longer,
                n,
            ) == accepted_positions(ans, n),
    decreases n,
{
    if n > 0 {
        lemma_accepted_positions_prefix(ans, n - 1);
        assert forall|longer: Seq<bool>|
            longer.len() >= n && longer.take(n) == ans.take(n) implies #[trigger] accepted_positions(
            longer,
            n,
        ) == accepted_positions(ans, n) by {
            assert(longer.take(n - 1) =~= longer.take(n).take(n - 1));
            assert(ans.take(n - 1) =~= ans.take(n).take(n - 1));
            assert(longer[n - 1] == longer.take(n)[n - 1]);
            assert(ans[n - 1] == ans.take(n)[n - 1]);
            assert(accepted_positions(longer, n - 1) == accepted_positions(ans, n - 1));
        }
    }
}

/// What an insert of `rec` into `pre` did, leaving `post` and answering `r`:
/// a new id is refused when it would pass the record cap, then when it
/// would pass the byte cap; otherwise the record is written (replacing the
/// one with its id, or appended) and a [`Event::RecordInserted`] is
/// broadcast to the subscriptions. A refused insert changes nothing.
pub open spec fn insert_outcome(
    pre: MockTenant,
    post: MockTenant,
    rec: MockRecord,
    r: Result<(), QuotaError>,
) -> bool {
        let rs = pre.spec_records();
        let q = pre.spec_quota();
        &&& post.spec_tenant_id() == pre.spec_tenant_id()
        &&& post.spec_dim() == pre.spec_dim()
        &&& post.spec_quota() == q
        &&& r is Err <==> (records_cap_hit(rs, q, rec) || bytes_cap_hit(rs, q, rec))
        &&& r is Ok ==> post.spec_records() == upsert(rs, rec)
        &&& r is Err ==> post.spec_records() == rs
        &&& r is Ok ==> broadcast_in(
            pre,
            post,
            Event::RecordInserted { record_id: rec.record_id, shareable: rec.shareable },
        )
        &&& r is Err ==> post.spec_subscribers() == pre.spec_subscribers()
        &&& r is Err ==> post.spec_pruned() == pre.spec_pruned()
        &&& records_cap_hit(rs, q, rec) ==> (r matches Err(
            QuotaError::Exceeded { dimension, cap, attempted },
        ) && dimension@ == "records"@ && Some(cap) == q.max_records && attempted == rs.len()
            + 1)
        &&& bytes_cap_hit(rs, q, rec) ==> (r matches Err(
            QuotaError::Exceeded { dimension, cap, attempted },
        ) && dimension@ == "bytes"@ && Some(cap) == q.max_bytes && attempted
            == total_bytes(rs) + record_bytes(rec))
        &&& unique_ids(post.spec_records())
}

/// `post` is `pre` once `ev` was broadcast: every subscription of `pre` was
/// handed `ev`; those whose channel accepted it are `post`'s subscriptions,
/// and those whose receiving half was gone were pruned, appended to the
/// pruned ones.
pub open spec fn broadcast_in(pre: MockTenant, post: MockTenant, ev: Event) -> bool {
    &&& pre.spec_pruned().len() <= post.spec_pruned().len()
    &&& post.spec_pruned().take(pre.spec_pruned().len() as int) == pre.spec_pruned()
    &&& broadcast_split(
        pre.spec_subscribers(),
        post.spec_subscribers(),
        post.spec_pruned().skip(pre.spec_pruned().len() as int),
        ev,
    )
}

/// Whether the byte and record totals of `pre` still fit their counters
/// once `rec` is written.
pub open spec fn insert_fits(pre: MockTenant, rec: MockRecord) -> bool {
    &&& total_bytes(upsert(pre.spec_records(), rec)) <= u64::MAX
    &&& pre.spec_records().len() + 1 < u64::MAX
}

/// Byte estimate of one record (see [`record_bytes`]), or `None` when it
/// does not fit a `u64`.
fn estimate_checked(embedding: &Vec<u32>, tags: &Vec<String>, payload: &bytes::Bytes) -> (r: Option<
    u64,
>)
    ensures
        r matches Some(n) ==> n == 4 * embedding@.len() + tag_bytes(tags@) + bytes_contents(
            *payload,
        ).len(),
        r is None ==> 4 * embedding@.len() + tag_bytes(tags@) + bytes_contents(*payload).len()
            > u64::MAX,
{
    let len = embedding.len() as u64;
    if len > u64::MAX / 4 {
        return None;
    }
    let emb_bytes: u64 = 4 * len;
    let mut total: u64 = emb_bytes;
    let mut i: usize = 0;
    while i < tags.len()
        invariant
            i <= tags.len(),
            emb_bytes == 4 * embedding@.len(),
            total == emb_bytes + tag_bytes(tags@.take(i as int)),
        decreases tags.len() - i,
    {
        proof {
            lemma_tag_bytes_prefix(tags@, i + 1);
            assert(tags@.take(i + 1).drop_last() =~= tags@.take(i as int));
            assert(tags@.take(i + 1).last() == tags@[i as int]);
        }
        let t: &str = tags[i].as_str();
        let n = t.as_bytes().len() as u64;
        proof {
            assert(t@ == tags@[i as int]@);
            let tk = tags@.take(i + 1);
            assert(tag_bytes(tk) == tag_bytes(tk.drop_last()) + encode_utf8(tk.last()@).len());
        }
        if n > u64::MAX - total {
            return None;
        }
        total = total + n;
        i = i + 1;
    }
    assert(tags@.take(tags.len() as int) =~= tags@);
    let p = bytes_len(payload) as u64;
    if p > u64::MAX - total {
        return None;
    }
    Some(total + p)
}

/// A record's estimate is part of the total.
proof fn lemma_record_le_total(rs: Seq<MockRecord>, p: int)
    requires
        0 <= p < rs.len(),
    ensures
        record_bytes(rs[p]) <= total_bytes(rs),
    decreases rs.len(),
{
    if p < rs.len() - 1 {
        lemma_record_le_total(rs.drop_last(), p);
        assert(rs.drop_last()[p] == rs[p]);
    }
}

/// In-memory tenant: a brute-force vector store.
pub struct MockTenant {
    tenant_id: TenantId,
    dim: u32,
    records: Vec<MockRecord>,
    quota: Quota,
    subscribers: Vec<Subscription>,
    pruned: Ghost<Seq<Subscription>>,
}

impl MockTenant {
    /// Ids are unique, every embedding has the tenant's dimension, and the
    /// byte total fits the counters.
    #[verifier::type_invariant]
    spec fn inv(&self) -> bool {
        &&& unique_ids(self.records@)
        &&& forall|i: int|
            0 <= i < self.records@.len() ==> #[trigger] self.records@[i].embedding@.len()
                == self.dim
        &&& total_bytes(self.records@) <= u64::MAX
        &&& self.records@.len() < u64::MAX
    }

    /// The tenant's id.
    pub closed spec fn spec_tenant_id(&self) -> TenantId {
        self.tenant_id
    }

    /// The embedding dimension.
    pub closed spec fn spec_dim(&self) -> u32 {
        self.dim
    }

    /// The records, in insertion order.
    pub closed spec fn spec_records(&self) -> Seq<MockRecord> {
        self.records@
    }

    /// The quota in force.
    pub closed spec fn spec_quota(&self) -> Quota {
        self.quota
    }

    /// The live subscriptions.
    pub closed spec fn spec_subscribers(&self) -> Seq<Subscription> {
        self.subscribers@
    }

    /// The subscriptions dropped so far because their receiving half was
    /// gone, each as its last, refused, send left it.
    pub closed spec fn spec_pruned(&self) -> Seq<Subscription> {
        self.pruned@
    }

    /// Construct an empty tenant with an unlimited quota.
    pub fn new(tenant_id: TenantId, embedding_dim: u32) -> (t: Self)
        ensures
            t.spec_tenant_id() == tenant_id,
            t.spec_dim() == embedding_dim,
            t.spec_records() == Seq::<MockRecord>::empty(),
            t.spec_quota().spec_is_unlimited(),
            t.spec_subscribers().len() == 0,
            t.spec_pruned().len() == 0,
    {
        MockTenant {
            tenant_id,
            dim: embedding_dim,
            records: Vec::new(),
            quota: Quota::UNLIMITED(),
            subscribers: Vec::new(),
            pruned: Ghost(Seq::empty()),
        }
    }

    /// The tenant's id.
    pub fn tenant_id(&self) -> (t: TenantId)
        ensures
            t == self.spec_tenant_id(),
    {
        self.tenant_id
    }

    /// Embedding dimension.
    pub fn embedding_dim(&self) -> (d: u32)
        ensures
            d == self.spec_dim(),
    {
        self.dim
    }

    /// Number of live subscriptions.
    pub fn subscriber_count(&self) -> (n: usize)
        ensures
            n == self.spec_subscribers().len(),
    {
        self.subscribers.len()
    }

    /// Position of the record carrying `id`, if any.
    fn position_of(&self, id: RecordId) -> (r: Option<usize>)
        ensures
            r matches Some(p) ==> p < self.records@.len() && self.records@[p as int].record_id
                == id,
            r is None ==> !has_id(self.records@, id),
    {
        let mut i: usize = 0;
        while i < self.records.len()
            invariant
                i <= self.records@.len(),
                forall|j: int| 0 <= j < i ==> #[trigger] self.records@[j].record_id != id,
            decreases self.records.len() - i,
        {
            if self.records[i].record_id.0 == id.0 {
                return Some(i);
            }
            i = i + 1;
        }
        None
    }

    /// Broadcast `event` to every live subscriber, dropping the
    /// subscriptions whose receiving end is gone.
    fn emit(&mut self, event: Event)
        ensures
            final(self).records@ == old(self).records@,
            final(self).quota == old(self).quota,
            final(self).dim == old(self).dim,
            final(self).tenant_id == old(self).tenant_id,
            broadcast_in(*old(self), *final(self), event),
    {
        proof {
            use_type_invariant(&*self);
        }
        let mut subs: Vec<Subscription> = Vec::new();
        std::mem::swap(&mut subs, &mut self.subscribers);
        let gone = broadcast(&mut subs, &event);
        self.subscribers = subs;
        let ghost before = self.pruned@;
        self.pruned = Ghost(self.pruned@ + gone@);
        assert(self.pruned@.take(before.len() as int) =~= before);
        assert(self.pruned@.skip(before.len() as int) =~= gone@);
    }

    /// Insert (or overwrite) a record.
    ///
    /// A record with a new id is refused with [`QuotaError::Exceeded`] when
    /// it would push the tenant past a cap: first the record cap, then the
    /// byte cap. Overwrites of an existing id are always allowed. On success
    /// a [`Event::RecordInserted`] goes out to the subscribers.
    pub fn insert(
        &mut self,
        record_id: RecordId,
        embedding: Vec<u32>,
        shareable: bool,
        tags: Vec<String>,
        payload: bytes::Bytes,
    ) -> (r: Result<(), QuotaError>)
        requires
            embedding@.len() == old(self).spec_dim(),
            insert_fits(*old(self), MockRecord { record_id, embedding, shareable, tags, payload }),
        ensures
            insert_outcome(
                *old(self),
                *final(self),
                MockRecord { record_id, embedding, shareable, tags, payload },
                r,
            ),
    {
        proof {
            use_type_invariant(&*self);
        }
        let ghost rec = MockRecord { record_id, embedding, shareable, tags, payload };
        let ghost rs = self.records@;
        let pos = self.position_of(record_id);
        let quota = self.quota;
        if pos.is_none() {
            let next_records: u64 = self.records.len() as u64 + 1;
            if let Some(cap) = quota.max_records {
                if next_records > cap {
                    proof {
                        reveal_strlit("records");
                    }
                    return Err(QuotaError::Exceeded { dimension: "records", cap, attempted: next_records });
                }
            }
            if let Some(cap) = quota.max_bytes {
                proof {
                    lemma_total_push(rs, rec);
                }
                let next_bytes = self.bytes_on_disk() + estimate_size(&embedding, &tags, &payload);
                if next_bytes > cap {
                    proof {
                        reveal_strlit("bytes");
                    }
                    return Err(QuotaError::Exceeded { dimension: "bytes", cap, attempted: next_bytes });
                }
            }
        }
        let new_rec = MockRecord { record_id, embedding, shareable, tags, payload };
        let mut recs: Vec<MockRecord> = Vec::new();
        std::mem::swap(&mut recs, &mut self.records);
        match pos {
            Some(p) => {
                recs.set(p, new_rec);
                proof {
                    let i = choose|i: int| 0 <= i < rs.len() && #[trigger] rs[i].record_id == record_id;
                    assert(i == p);
                    assert(recs@ == upsert(rs, rec));
                    lemma_total_update(rs, p as int, rec);
                    assert forall|a: int, b: int|
                        0 <= a < recs@.len() && 0 <= b < recs@.len()
                            && #[trigger] recs@[a].record_id == #[trigger] recs@[b].record_id
                        implies a == b by {
                        if a != p && b != p {
                            assert(rs[a].record_id == rs[b].record_id);
                        } else if a == p && b != p {
                            assert(rs[b].record_id == rs[a].record_id);
                        } else if b == p && a != p {
                            assert(rs[a].record_id == rs[b].record_id);
                        }
                    }
                }
            },
            None => {
                recs.push(new_rec);
                proof {
                    assert(recs@ == upsert(rs, rec));
                    lemma_total_push(rs, rec);
                    assert forall|a: int, b: int|
                        0 <= a < recs@.len() && 0 <= b < recs@.len()
                            && #[trigger] recs@[a].record_id == #[trigger] recs@[b].record_id
                        implies a == b by {
                        if a < rs.len() && b < rs.len() {
                            assert(rs[a].record_id == rs[b].record_id);
                        } else if a < rs.len() {
                            assert(rs[a].record_id == record_id);
                        } else if b < rs.len() {
                            assert(rs[b].record_id == record_id);
                        }
                    }
                }
            },
        }
        self.records = recs;
        self.emit(Event::RecordInserted { record_id, shareable });
        Ok(())
    }

    /// Insert (or overwrite) a record where the tenant's byte and record
    /// totals still fit their counters afterwards, as
    /// [`MockTenant::insert`] does; `None`, with nothing changed, where they
    /// would not.
    pub fn insert_within_limits(
        &mut self,
        record_id: RecordId,
        embedding: Vec<u32>,
        shareable: bool,
        tags: Vec<String>,
        payload: bytes::Bytes,
    ) -> (r: Option<Result<(), QuotaError>>)
        requires
            embedding@.len() == old(self).spec_dim(),
        ensures
            ({
                let rec = MockRecord { record_id, embedding, shareable, tags, payload };
                &&& r is None <==> !insert_fits(*old(self), rec)
                &&& r is None ==> *final(self) == *old(self)
                &&& r matches Some(res) ==> insert_outcome(*old(self), *final(self), rec, res)
            }),
    {
        proof {
            use_type_invariant(&*self);
        }
        let ghost rec = MockRecord { record_id, embedding, shareable, tags, payload };
        let ghost rs = self.records@;
        if self.records.len() as u64 >= u64::MAX - 1 {
            return None;
        }
        let est = match estimate_checked(&embedding, &tags, &payload) {
            Some(n) => n,
            None => {
                proof {
                    lemma_write_bytes(rs, rec);
                    if has_id(rs, record_id) {
                        let p = choose|i: int| 0 <= i < rs.len() && #[trigger] rs[i].record_id == record_id;
                        assert(rs[p].record_id == rec.record_id);
                        lemma_record_le_total(rs, p);
                    }
                    assert(record_bytes(rec) > u64::MAX);
                }
                return None;
            },
        };
        let total = self.bytes_on_disk();
        proof {
            lemma_write_bytes(rs, rec);
        }
        match self.position_of(record_id) {
            Some(p) => {
                proof {
                    lemma_record_le_total(rs, p as int);
                    assert(rs[p as int].record_id == rec.record_id);
                }
                let old_est = estimate_size(
                    &self.records[p].embedding,
                    &self.records[p].tags,
                    &self.records[p].payload,
                );
                if est > u64::MAX - (total - old_est) {
                    return None;
                }
            },
            None => {
                if est > u64::MAX - total {
                    return None;
                }
            },
        }
        Some(self.insert(record_id, embedding, shareable, tags, payload))
    }

    /// Remove a record. Returns `true` if it was present (and sends
    /// [`Event::RecordDeleted`] to the subscribers); missing ids are a
    /// silent no-op.
    pub fn delete(&mut self, record_id: RecordId) -> (removed: bool)
        ensures
            final(self).spec_tenant_id() == old(self).spec_tenant_id(),
            final(self).spec_dim() == old(self).spec_dim(),
            final(self).spec_quota() == old(self).spec_quota(),
            removed == has_id(old(self).spec_records(), record_id),
            !removed ==> final(self).spec_records() == old(self).spec_records(),
            removed ==> broadcast_in(*old(self), *final(self), Event::RecordDeleted { record_id }),
            !removed ==> final(self).spec_subscribers() == old(self).spec_subscribers(),
            !removed ==> final(self).spec_pruned() == old(self).spec_pruned(),
            removed ==> exists|p: int|
                0 <= p < old(self).spec_records().len() && old(self).spec_records()[p].record_id
                    == record_id && final(self).spec_records() == old(
                    self,
                ).spec_records().remove(p),
            !has_id(final(self).spec_records(), record_id),
            unique_ids(final(self).spec_records()),
    {
        proof {
            use_type_invariant(&*self);
        }
        let ghost rs = self.records@;
        match self.position_of(record_id) {
            Some(p) => {
                let mut recs: Vec<MockRecord> = Vec::new();
                std::mem::swap(&mut recs, &mut self.records);
                let _gone = recs.remove(p);
                proof {
                    lemma_total_remove(rs, p as int);
                    assert forall|i: int| 0 <= i < recs@.len() implies #[trigger] recs@[i].record_id
                        != record_id by {
                        if i < p {
                            assert(recs@[i] == rs[i]);
                        } else {
                            assert(recs@[i] == rs[i + 1]);
                        }
                    }
                    assert forall|a: int, b: int|
                        0 <= a < recs@.len() && 0 <= b < recs@.len()
                            && #[trigger] recs@[a].record_id == #[trigger] recs@[b].record_id
                        implies a == b by {
                        let a2 = if a < p { a } else { a + 1 };
                        let b2 = if b < p { b } else { b + 1 };
                        assert(recs@[a] == rs[a2]);
                        assert(recs@[b] == rs[b2]);
                    }
                    assert forall|i: int| 0 <= i < recs@.len() implies #[trigger] recs@[i].embedding@.len()
                        == self.dim by {
                        if i < p {
                            assert(recs@[i] == rs[i]);
                        } else {
                            assert(recs@[i] == rs[i + 1]);
                        }
                    }
                }
                self.records = recs;
                proof {
                    assert(self.records@ == rs.remove(p as int));
                    assert(rs[p as int].record_id == record_id);
                }
                self.emit(Event::RecordDeleted { record_id });
                proof {
                    assert(old(self).spec_records()[p as int].record_id == record_id);
                    assert(self.spec_records() == old(self).spec_records().remove(p as int));
                }
                true
            },
            None => false,
        }
    }

    /// The records, in insertion order. No two carry the same id, and every
    /// embedding has the tenant's dimension.
    pub fn records(&self) -> (r: &[MockRecord])
        ensures
            r@ == self.spec_records(),
            unique_ids(r@),
            forall|i: int| 0 <= i < r@.len() ==> (#[trigger] r@[i]).embedding@.len() == self.spec_dim(),
    {
        proof {
            use_type_invariant(self);
        }
        self.records.as_slice()
    }

    /// The query embedding's dimension checked against the tenant's: a
    /// mismatch (compared after casting the length to `u32`) is
    /// [`QueryError::EmbeddingDimMismatch`].
    pub fn check_query_dim(&self, query_len: usize) -> (r: Result<(), QueryError>)
        ensures
            (query_len as u32) == self.spec_dim() ==> r is Ok,
            (query_len as u32) != self.spec_dim() ==> (r matches Err(
                QueryError::EmbeddingDimMismatch { expected, got },
            ) && expected == self.spec_dim() && got == query_len as u32),
    {
        check_query_dim(self.dim, query_len)
    }

    /// Positions of the records that `filter` accepts, in record order: the
    /// filter is asked once about every record, first to last, with that
    /// record's id, `shareable` flag and tags, and the position of each
    /// record it accepts is kept. `ans` in the contract are the answers it
    /// gave, one per record, each one the filter may give about that record.
    pub fn filtered_candidates<F: Filter + ?Sized>(&self, filter: &F) -> (r: Vec<usize>)
        requires
            askable(filter, self.spec_records()),
        ensures
            exists|ans: Seq<bool>|
                answers_about(filter, self.spec_records(), ans) && r@ == #[trigger] accepted_positions(
                    ans,
                    ans.len() as int,
                ),
            forall|i: int| 0 <= i < r@.len() ==> #[trigger] r@[i] < self.spec_records().len(),
            forall|i: int, j: int| 0 <= i < j < r@.len() ==> #[trigger] r@[i] < #[trigger] r@[j],
    {
        let mut out: Vec<usize> = Vec::new();
        let ghost mut ans: Seq<bool> = Seq::empty();
        let mut i: usize = 0;
        while i < self.records.len()
            invariant
                i <= self.records@.len(),
                askable(filter, self.records@),
                ans.len() == i,
                answers_about(filter, self.records@.take(i as int), ans),
                out@ == accepted_positions(ans, i as int),
                forall|k: int| 0 <= k < out@.len() ==> #[trigger] out@[k] < i,
                forall|a: int, b: int| 0 <= a < b < out@.len() ==> #[trigger] out@[a] < #[trigger] out@[b],
            decreases self.records.len() - i,
        {
            let rec = &self.records[i];
            let tags = tag_strs(&rec.tags);
            let meta = meta_of(rec.record_id, rec.shareable, tags.as_slice());
            proof {
                assert(self.records@[i as int] == *rec);
                assert(tag_chars(meta.tags@) == string_chars(rec.tags@));
            }
            let answer = filter.accept(&meta);
            proof {
                let prev = ans;
                ans = ans.push(answer);
                lemma_accepted_positions_prefix(prev, i as int);
                assert(ans.take(i as int) =~= prev.take(i as int));
                assert(accepted_positions(ans, i as int) == accepted_positions(prev, i as int));
                let rs = self.records@.take(i + 1);
                assert forall|k: int| 0 <= k < rs.len() implies filter.may_answer(
                    (#[trigger] rs[k]).record_id,
                    rs[k].shareable,
                    string_chars(rs[k].tags@),
                    ans[k],
                ) by {
                    if k < i {
                        assert(self.records@.take(i as int)[k] == rs[k]);
                    }
                }
            }
            if answer {
                out.push(i);
            }
            i = i + 1;
        }
        proof {
            assert(self.records@.take(self.records@.len() as int) =~= self.records@);
        }
        out
    }
}

impl TenantStats for MockTenant {
    /// Sum of the records' byte estimates.
    fn bytes_on_disk(&self) -> (n: u64)
        ensures
            n == total_bytes(self.spec_records()),
    {
        proof {
            use_type_invariant(self);
        }
        let mut total: u64 = 0;
        let mut i: usize = 0;
        while i < self.records.len()
            invariant
                i <= self.records@.len(),
                total == total_bytes(self.records@.take(i as int)),
                total_bytes(self.records@) <= u64::MAX,
            decreases self.records.len() - i,
        {
            proof {
                assert(self.records@.take(i + 1).drop_last() =~= self.records@.take(i as int));
                lemma_total_prefix(self.records@, i + 1);
            }
            let r = &self.records[i];
            total = total + estimate_size(&r.embedding, &r.tags, &r.payload);
            i = i + 1;
        }
        assert(self.records@.take(self.records.len() as int) =~= self.records@);
        total
    }

    /// Number of records.
    fn record_count(&self) -> (n: u64)
        ensures
            n == self.spec_records().len(),
    {
        self.records.len() as u64
    }

    /// The mock is purely in memory: resident bytes equal the byte estimate.
    fn memory_resident(&self) -> (n: u64)
        ensures
            n == total_bytes(self.spec_records()),
    {
        self.bytes_on_disk()
    }
}

proof fn lemma_total_prefix(rs: Seq<MockRecord>, i: int)
    requires
        0 <= i <= rs.len(),
    ensures
        total_bytes(rs.take(i)) <= total_bytes(rs),
    decreases rs.len() - i,
{
    if i < rs.len() {
        lemma_total_prefix(rs, i + 1);
        assert(rs.take(i + 1).drop_last() =~= rs.take(i));
    } else {
        assert(rs.take(i) =~= rs);
    }
}

impl TenantQuota for MockTenant {
    /// Replace the quota; always succeeds.
    fn set_quota(&mut self, quota: Quota) -> (r: Result<(), QuotaError>)
        ensures
            r is Ok,
            final(self).spec_quota() == quota,
            final(self).spec_records() == old(self).spec_records(),
            final(self).spec_dim() == old(self).spec_dim(),
            final(self).spec_tenant_id() == old(self).spec_tenant_id(),
            final(self).spec_subscribers() == old(self).spec_subscribers(),
            final(self).spec_pruned() == old(self).spec_pruned(),
    {
        proof {
            use_type_invariant(&*self);
        }
        self.quota = quota;
        Ok(())
    }

    /// The quota in force.
    fn quota(&self) -> (q: Quota)
        ensures
            q == self.spec_quota(),
    {
        self.quota
    }

    /// Bytes and records currently held.
    fn current_usage(&self) -> (u: Usage)
        ensures
            u.bytes == total_bytes(self.spec_records()),
            u.records == self.spec_records().len(),
    {
        Usage { bytes: self.bytes_on_disk(), records: self.records.len() as u64 }
    }
}

impl ReadOnlyView for MockTenant {
    fn tenant_id(&self) -> (t: TenantId)
        ensures
            t == self.spec_tenant_id(),
    {
        self.tenant_id
    }

    /// Nothing to release: always `Ok`.
    fn close(self: Box<Self>) -> (r: Result<(), OpenError>)
        ensures
            r is Ok,
    {
        Ok(())
    }
}

impl TenantEvents for MockTenant {
    /// Open a subscription with its own channel: the returned stream is the
    /// receiving half of the subscription added last, which has sent nothing
    /// yet; the others stay as they were.
    fn subscribe(&mut self, filter: EventFilter) -> (s: EventStream)
        ensures
            s.spec_filter() == filter,
            final(self).spec_subscribers().len() == old(self).spec_subscribers().len() + 1,
            final(self).spec_subscribers().drop_last() == old(self).spec_subscribers(),
            final(self).spec_subscribers().last().peer() == s.spec_receiver(),
            final(self).spec_subscribers().last().sent() == Seq::<Event>::empty(),
            final(self).spec_subscribers().last().offered() == Seq::<Event>::empty(),
            final(self).spec_pruned() == old(self).spec_pruned(),
            final(self).spec_records() == old(self).spec_records(),
            final(self).spec_quota() == old(self).spec_quota(),
            final(self).spec_dim() == old(self).spec_dim(),
            final(self).spec_tenant_id() == old(self).spec_tenant_id(),
    {
        proof {
            use_type_invariant(&*self);
        }
        let (sub, stream) = open_subscription(filter);
        let mut subs: Vec<Subscription> = Vec::new();
        std::mem::swap(&mut subs, &mut self.subscribers);
        subs.push(sub);
        self.subscribers = subs;
        assert(self.subscribers@.drop_last() =~= old(self).subscribers@);
        stream
    }
}

/// Writing a record makes it the record its id answers with, leaves every
/// record under another id where it was, keeps ids unique, and grows the
/// tenant by one exactly when the id was new.
pub proof fn lemma_write_then_read(rs: Seq<MockRecord>, rec: MockRecord)
    requires
        unique_ids(rs),
    ensures
        unique_ids(upsert(rs, rec)),
        has_id(upsert(rs, rec), rec.record_id),
        forall|i: int|
            0 <= i < upsert(rs, rec).len() && (#[trigger] upsert(rs, rec)[i]).record_id
                == rec.record_id ==> upsert(rs, rec)[i] == rec,
        forall|i: int|
            0 <= i < rs.len() && (#[trigger] rs[i]).record_id != rec.record_id ==> upsert(
                rs,
                rec,
            )[i] == rs[i],
        upsert(rs, rec).len() == (if has_id(rs, rec.record_id) {
            rs.len()
        } else {
            rs.len() + 1
        }),
{
    let u = upsert(rs, rec);
    if has_id(rs, rec.record_id) {
        let p = choose|i: int| 0 <= i < rs.len() && #[trigger] rs[i].record_id == rec.record_id;
        assert(u[p] == rec);
        assert forall|i: int| 0 <= i < u.len() && (#[trigger] u[i]).record_id == rec.record_id implies u[i]
            == rec by {
            if i != p {
                assert(rs[i].record_id == rs[p].record_id);
            }
        }
        assert forall|a: int, b: int|
            0 <= a < u.len() && 0 <= b < u.len() && #[trigger] u[a].record_id
                == #[trigger] u[b].record_id implies a == b by {
            if a != p && b != p {
                assert(rs[a].record_id == rs[b].record_id);
            } else if a == p && b != p {
                assert(rs[b].record_id == rs[p].record_id);
            } else if b == p && a != p {
                assert(rs[a].record_id == rs[p].record_id);
            }
        }
    } else {
        assert(u[rs.len() as int] == rec);
        assert forall|i: int| 0 <= i < u.len() && (#[trigger] u[i]).record_id == rec.record_id implies u[i]
            == rec by {
            if i < rs.len() {
                assert(rs[i].record_id == rec.record_id);
            }
        }
        assert forall|a: int, b: int|
            0 <= a < u.len() && 0 <= b < u.len() && #[trigger] u[a].record_id
                == #[trigger] u[b].record_id implies a == b by {
            if a < rs.len() && b < rs.len() {
                assert(rs[a].record_id == rs[b].record_id);
            } else if a < rs.len() {
                assert(rs[a].record_id == rec.record_id);
            } else if b < rs.len() {
                assert(rs[b].record_id == rec.record_id);
            }
        }
    }
}

/// A write with a new id adds its byte estimate to the tenant's total; an
/// overwrite trades the old record's estimate for the new one's.
pub proof fn lemma_write_bytes(rs: Seq<MockRecord>, rec: MockRecord)
    requires
        unique_ids(rs),
    ensures
        !has_id(rs, rec.record_id) ==> total_bytes(upsert(rs, rec)) == total_bytes(rs)
            + record_bytes(rec),
        forall|i: int|
            0 <= i < rs.len() && (#[trigger] rs[i]).record_id == rec.record_id ==> total_bytes(
                upsert(rs, rec),
            ) + record_bytes(rs[i]) == total_bytes(rs) + record_bytes(rec),
{
    if has_id(rs, rec.record_id) {
        let p = choose|i: int| 0 <= i < rs.len() && #[trigger] rs[i].record_id == rec.record_id;
        lemma_total_update(rs, p, rec);
        assert forall|i: int|
            0 <= i < rs.len() && (#[trigger] rs[i]).record_id == rec.record_id implies total_bytes(
                upsert(rs, rec),
            ) + record_bytes(rs[i]) == total_bytes(rs) + record_bytes(rec) by {
            assert(rs[i].record_id == rs[p].record_id);
        }
    } else {
        lemma_total_push(rs, rec);
    }
}

/// The quota only ever refuses growth: an overwrite of an existing id is
/// never refused, and nothing is refused under an unlimited quota.
pub proof fn lemma_quota_refuses_only_growth(rs: Seq<MockRecord>, q: Quota, rec: MockRecord)
    requires
        has_id(rs, rec.record_id) || q.spec_is_unlimited(),
    ensures
        !records_cap_hit(rs, q, rec),
        !bytes_cap_hit(rs, q, rec),
{
}

/// Once the live count has reached the record cap (for instance after the
/// cap was lowered below the current usage), every write under a new id is
/// refused on the record dimension, while the records already held stay.
pub proof fn lemma_record_cap_blocks_growth(rs: Seq<MockRecord>, q: Quota, rec: MockRecord)
    requires
        q.max_records matches Some(cap) && rs.len() >= cap,
        !has_id(rs, rec.record_id),
    ensures
        records_cap_hit(rs, q, rec),
{
}

/// Deleting the record just written under a new id gives the records back as
/// they were: that record is the only one carrying its id, at the end.
pub proof fn lemma_write_then_delete(rs: Seq<MockRecord>, rec: MockRecord)
    requires
        unique_ids(rs),
        !has_id(rs, rec.record_id),
    ensures
        forall|p: int|
            0 <= p < upsert(rs, rec).len() && (#[trigger] upsert(rs, rec)[p]).record_id
                == rec.record_id ==> p == rs.len(),
        upsert(rs, rec).remove(rs.len() as int) == rs,
{
    let u = upsert(rs, rec);
    assert forall|p: int| 0 <= p < u.len() && (#[trigger] u[p]).record_id == rec.record_id implies p
        == rs.len() by {
        if p < rs.len() {
            assert(rs[p].record_id == rec.record_id);
        }
    }
    assert(u.remove(rs.len() as int) =~= rs);
}

} // verus!
