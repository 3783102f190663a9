//! The metadata sidecar of an on-disk tenant: per-record `shareable` flag,
//! tags and payload, keyed by record id, beside a vector index that holds the
//! embeddings. Also the decisions the on-disk adapter takes around it.

use vstd::prelude::*;

use crate::filter::{meta_of, string_chars, tag_chars, tag_strs, Filter};
use crate::ids::{RecordId, TenantId};

verus! {

/// Per-record metadata. The vector lives in the index, not here.
#[derive(Debug, Clone)]
pub struct RecordEntry {
    /// Record identifier (matches the index id).
    pub record_id: u64,
    /// Whether this record is visible to peers.
    pub shareable: bool,
    /// Tag strings.
    pub tags: Vec<String>,
    /// Raw payload bytes.
    pub payload: Vec<u8>,
}

/// The serialised tenant snapshot.
#[derive(Debug, Clone)]
pub struct MetadataSidecar {
    /// Stable tenant id as raw bytes.
    pub tenant_id: [u8; 16],
    /// Embedding dimension shared by all records.
    pub embedding_dim: u32,
    /// Records, ordered by insertion.
    pub records: Vec<RecordEntry>,
}

/// `p` is the first position of `rs` whose record carries `id`.
pub open spec fn first_with_id(rs: Seq<RecordEntry>, id: u64, p: int) -> bool {
    &&& 0 <= p < rs.len()
    &&& rs[p].record_id == id
    &&& forall|q: int| 0 <= q < p ==> #[trigger] rs[q].record_id != id
}

/// Some record of `rs` carries `id`.
pub open spec fn holds_id(rs: Seq<RecordEntry>, id: u64) -> bool {
    exists|p: int| 0 <= p < rs.len() && #[trigger] rs[p].record_id == id
}

/// `rs` after writing `e`: the first record carrying `e`'s id is replaced,
/// or `e` is appended when none does.
pub open spec fn upsert_entry(rs: Seq<RecordEntry>, e: RecordEntry) -> Seq<RecordEntry> {
    if holds_id(rs, e.record_id) {
        let p = choose|p: int| first_with_id(rs, e.record_id, p);
        rs.update(p, e)
    } else {
        rs.push(e)
    }
}

/// The records of `rs` that do not carry `id`, in order.
pub open spec fn without_id(rs: Seq<RecordEntry>, id: u64) -> Seq<RecordEntry> {
    rs.filter(|r: RecordEntry| r.record_id != id)
}

proof fn lemma_first_unique(rs: Seq<RecordEntry>, id: u64, p: int, q: int)
    requires
        first_with_id(rs, id, p),
        first_with_id(rs, id, q),
    ensures
        p == q,
{
    if p < q {
        assert(rs[p].record_id != id);
    } else if q < p {
        assert(rs[q].record_id != id);
    }
}

proof fn lemma_first_exists(rs: Seq<RecordEntry>, id: u64, w: int)
    requires
        0 <= w < rs.len(),
        rs[w].record_id == id,
    ensures
        exists|p: int| first_with_id(rs, id, p),
    decreases w,
{
    if exists|q: int| 0 <= q < w && #[trigger] rs[q].record_id == id {
        let q = choose|q: int| 0 <= q < w && #[trigger] rs[q].record_id == id;
        lemma_first_exists(rs, id, q);
    } else {
        assert(first_with_id(rs, id, w));
    }
}

impl MetadataSidecar {
    /// Fresh empty sidecar for a tenant with the given id and dim.
    pub fn empty(tenant_id: TenantId, embedding_dim: u32) -> (s: Self)
        ensures
            s.tenant_id == tenant_id.0,
            s.embedding_dim == embedding_dim,
            s.records@.len() == 0,
    {
        MetadataSidecar { tenant_id: tenant_id.0, embedding_dim, records: Vec::new() }
    }

    /// Position of the first record carrying `id`.
    pub fn position(&self, id: u64) -> (r: Option<usize>)
        ensures
            r matches Some(p) ==> first_with_id(self.records@, id, p as int),
            r is None ==> !holds_id(self.records@, id),
    {
        let mut i: usize = 0;
        while i < self.records.len()
            invariant
                i <= self.records@.len(),
                forall|q: int| 0 <= q < i ==> #[trigger] self.records@[q].record_id != id,
            decreases self.records.len() - i,
        {
            if self.records[i].record_id == id {
                return Some(i);
            }
            i = i + 1;
        }
        None
    }

    /// Find a record's metadata by id: the first record carrying it.
    pub fn get(&self, id: RecordId) -> (r: Option<&RecordEntry>)
        ensures
            r matches Some(e) ==> exists|p: int|
                first_with_id(self.records@, id.0, p) && *e == self.records@[p],
            r is None ==> !holds_id(self.records@, id.0),
    {
        match self.position(id.0) {
            Some(p) => Some(&self.records[p]),
            None => None,
        }
    }

    /// True when no records have been inserted.
    pub fn is_empty(&self) -> (b: bool)
        ensures
            b == (self.records@.len() == 0),
    {
        self.records.len() == 0
    }

    /// Number of records.
    pub fn record_count(&self) -> (n: u64)
        ensures
            n == self.records@.len(),
    {
        self.records.len() as u64
    }

    /// Write `entry`: replace the first record carrying its id, or append it.
    pub fn upsert(&mut self, entry: RecordEntry)
        ensures
            final(self).records@ == upsert_entry(old(self).records@, entry),
            final(self).tenant_id == old(self).tenant_id,
            final(self).embedding_dim == old(self).embedding_dim,
    {
        let ghost rs = self.records@;
        match self.position(entry.record_id) {
            Some(p) => {
                self.records.set(p, entry);
                proof {
                    let q = choose|q: int| first_with_id(rs, entry.record_id, q);
                    lemma_first_unique(rs, entry.record_id, p as int, q);
                }
            },
            None => {
                self.records.push(entry);
            },
        }
    }

    /// Remove every record carrying `id`; `true` when there was one.
    pub fn remove_id(&mut self, id: u64) -> (removed: bool)
        ensures
            final(self).records@ == without_id(old(self).records@, id),
            removed == holds_id(old(self).records@, id),
            final(self).tenant_id == old(self).tenant_id,
            final(self).embedding_dim == old(self).embedding_dim,
    {
        let ghost orig = self.records@;
        let mut pending: Vec<RecordEntry> = Vec::new();
        std::mem::swap(&mut pending, &mut self.records);
        let mut kept: Vec<RecordEntry> = Vec::new();
        let mut removed = false;
        let mut done: usize = 0;
        assert(orig.len() == pending.len());
        while pending.len() > 0
            invariant
                pending@ == orig.skip(done as int),
                done <= orig.len(),
                orig.len() <= usize::MAX,
                kept@ == without_id(orig.take(done as int), id),
                removed == holds_id(orig.take(done as int), id),
            decreases pending.len(),
        {
            assert(pending@.len() == orig.len() - done);
            let e = pending.remove(0);
            proof {
                assert(orig[done as int] == e);
                let t = orig.take(done + 1);
                assert(t.drop_last() =~= orig.take(done as int));
                assert(t.last() == e);
                reveal(Seq::filter);
            }
            let ghost before = kept@;
            if e.record_id != id {
                kept.push(e);
            } else {
                removed = true;
            }
            proof {
                let t = orig.take(done + 1);
                assert(without_id(t, id) == (if t.last().record_id != id {
                    without_id(t.drop_last(), id).push(t.last())
                } else {
                    without_id(t.drop_last(), id)
                }));
                if holds_id(orig.take(done as int), id) {
                    let p = choose|p: int|
                        0 <= p < orig.take(done as int).len() && #[trigger] orig.take(
                            done as int,
                        )[p].record_id == id;
                    assert(t[p] == orig.take(done as int)[p]);
                }
                if e.record_id == id {
                    assert(t[done as int] == e);
                }
                if holds_id(t, id) && e.record_id != id {
                    let p = choose|p: int| 0 <= p < t.len() && #[trigger] t[p].record_id == id;
                    assert(orig.take(done as int)[p] == t[p]);
                }
            }
            done = done + 1;
            assert(pending@ =~= orig.skip(done as int));
        }
        assert(orig.take(done as int) =~= orig);
        self.records = kept;
        removed
    }

    /// The candidates a filtered query returns, from the index's ranked ids:
    /// ids the sidecar does not hold are skipped, each remaining candidate is
    /// put to the filter in ranked order (with the id, `shareable` flag and
    /// tags of the first record carrying it, see [`meta_of`]), and the walk
    /// stops once `top_k` candidates were kept; a `top_k` of 0 keeps none and
    /// asks nothing. Each result pairs a position in `ranked` with the
    /// position of the first record carrying that id.
    ///
    /// In the contract, `asked` is how many ranked ids the walk went through
    /// and `ans` the filter's answers there, each one the filter may give
    /// about that candidate.
    pub fn select_hits<F: Filter + ?Sized>(&self, ranked: &Vec<u64>, top_k: u32, filter: &F) -> (r: Vec<
        (usize, usize),
    >)
        requires
            entries_askable(filter, self.records@),
        ensures
            exists|asked: int, ans: Seq<bool>|
                #[trigger] walked(self.records@, ranked@, filter, top_k, asked, ans, r@),
            r@.len() <= top_k,
            forall|i: int|
                0 <= i < r@.len() ==> (#[trigger] r@[i]).0 < ranked@.len() && first_with_id(
                    self.records@,
                    ranked@[r@[i].0 as int],
                    r@[i].1 as int,
                ),
            forall|i: int, j: int| 0 <= i < j < r@.len() ==> (#[trigger] r@[i]).0 < (#[trigger] r@[j]).0,
    {
        let ghost rs = self.records@;
        if top_k == 0 {
            proof {
                let none = Seq::<bool>::empty();
                assert(walked(rs, ranked@, filter, top_k, 0, none, Seq::empty()));
            }
            return Vec::new();
        }
        let mut out: Vec<(usize, usize)> = Vec::new();
        let ghost mut ans: Seq<bool> = Seq::empty();
        let mut i: usize = 0;
        while i < ranked.len()
            invariant
                i <= ranked@.len(),
                rs == self.records@,
                entries_askable(filter, rs),
                ans.len() == i,
                out@ == picks(rs, ranked@, ans, i as int),
                out@.len() < top_k,
                answered(rs, ranked@, filter, i as int, ans),
                forall|k: int|
                    0 <= k < out@.len() ==> (#[trigger] out@[k]).0 < i && first_with_id(
                        self.records@,
                        ranked@[out@[k].0 as int],
                        out@[k].1 as int,
                    ),
                forall|a: int, b: int| 0 <= a < b < out@.len() ==> (#[trigger] out@[a]).0 < (#[trigger] out@[b]).0,
            decreases ranked.len() - i,
        {
            let id = ranked[i];
            let ghost prev = ans;
            match self.position(id) {
                None => {
                    proof {
                        ans = ans.push(false);
                        lemma_picks_agree(rs, ranked@, prev, ans, i as int);
                        assert(answered(rs, ranked@, filter, i + 1, ans));
                    }
                },
                Some(p) => {
                    let rec = &self.records[p];
                    let tags = tag_strs(&rec.tags);
                    let meta = meta_of(RecordId(id), rec.shareable, tags.as_slice());
                    proof {
                        assert(rs[p as int] == *rec);
                        assert(tag_chars(meta.tags@) == string_chars(rec.tags@));
                        assert(RecordId(rs[p as int].record_id) == RecordId(id));
                    }
                    let answer = filter.accept(&meta);
                    proof {
                        ans = ans.push(answer);
                        lemma_picks_agree(rs, ranked@, prev, ans, i as int);
                        assert(holds_id(rs, id));
                        lemma_first_unique(rs, id, p as int, first_pos(rs, id));
                        assert(answered(rs, ranked@, filter, i + 1, ans));
                    }
                    if answer {
                        let ghost before = out@;
                        out.push((i, p));
                        proof {
                            assert forall|k: int| 0 <= k < out@.len() implies (
                            #[trigger] out@[k]).0 < i + 1 && first_with_id(
                                self.records@,
                                ranked@[out@[k].0 as int],
                                out@[k].1 as int,
                            ) by {
                                if k < before.len() {
                                    assert(out@[k] == before[k]);
                                }
                            }
                            assert forall|a: int, b: int| 0 <= a < b < out@.len() implies (
                            #[trigger] out@[a]).0 < (#[trigger] out@[b]).0 by {
                                assert(out@[a] == before[a]);
                                if b < before.len() {
                                    assert(out@[b] == before[b]);
                                }
                            }
                        }
                        if out.len() >= top_k as usize {
                            proof {
                                assert(walked(rs, ranked@, filter, top_k, i + 1, ans, out@));
                            }
                            return out;
                        }
                    }
                },
            }
            i = i + 1;
        }
        proof {
            assert(walked(rs, ranked@, filter, top_k, ranked@.len() as int, ans, out@));
        }
        out
    }
}

/// The filter may be asked about every record of `rs`.
pub open spec fn entries_askable<F: Filter + ?Sized>(filter: &F, rs: Seq<RecordEntry>) -> bool {
    forall|p: int|
        0 <= p < rs.len() ==> filter.can_answer(
            RecordId((#[trigger] rs[p]).record_id),
            rs[p].shareable,
            string_chars(rs[p].tags@),
        )
}

/// The position of the first record of `rs` carrying `id` (meaningful when
/// one does).
pub open spec fn first_pos(rs: Seq<RecordEntry>, id: u64) -> int {
    choose|p: int| first_with_id(rs, id, p)
}

/// `ans` holds, for the first `n` ranked ids that `rs` holds, an answer the
/// filter may give about the first record carrying each.
pub open spec fn answered<F: Filter + ?Sized>(
    rs: Seq<RecordEntry>,
    ranked: Seq<u64>,
    filter: &F,
    n: int,
    ans: Seq<bool>,
) -> bool {
    forall|i: int|
        #![trigger ans[i]]
        0 <= i < n && holds_id(rs, ranked[i]) ==> filter.may_answer(
            RecordId(ranked[i]),
            rs[first_pos(rs, ranked[i])].shareable,
            string_chars(rs[first_pos(rs, ranked[i])].tags@),
            ans[i],
        )
}

/// A filtered walk over `ranked` that went through the first `asked` ids,
/// got the answers `ans` there, and kept `r`: the held ids accepted, at most
/// `top_k` of them, stopping early only once `top_k` were kept.
pub open spec fn walked<F: Filter + ?Sized>(
    rs: Seq<RecordEntry>,
    ranked: Seq<u64>,
    filter: &F,
    top_k: u32,
    asked: int,
    ans: Seq<bool>,
    r: Seq<(usize, usize)>,
) -> bool {
    &&& 0 <= asked <= ranked.len()
    &&& ans.len() == asked
    &&& answered(rs, ranked, filter, asked, ans)
    &&& r == picks(rs, ranked, ans, asked)
    &&& r.len() <= top_k
    &&& asked < ranked.len() ==> r.len() == top_k
}

/// The candidates kept among the first `n` ranked ids, given the filter's
/// answer for each ranked position: the held ids that the filter accepted,
/// as (ranked position, position of the first record carrying the id), in
/// ranked order.
pub open spec fn picks(rs: Seq<RecordEntry>, ranked: Seq<u64>, ans: Seq<bool>, n: int) -> Seq<
    (usize, usize),
>
    decreases n,
{
    if n <= 0 {
        Seq::empty()
    } else {
        let prev = picks(rs, ranked, ans, n - 1);
        if holds_id(rs, ranked[n - 1]) && ans[n - 1] {
            prev.push(((n - 1) as usize, first_pos(rs, ranked[n - 1]) as usize))
        } else {
            prev
        }
    }
}

/// Every held id among the first `n` ranked ones that the answers accept is
/// picked, paired with the first record carrying it.
proof fn lemma_picks_hold_accepted(rs: Seq<RecordEntry>, ranked: Seq<u64>, ans: Seq<bool>, n: int)
    requires
        0 <= n <= ranked.len(),
        n <= ans.len(),
    ensures
        forall|i: int|
            0 <= i < n && holds_id(rs, ranked[i]) && #[trigger] ans[i] ==> exists|k: int|
                0 <= k < picks(rs, ranked, ans, n).len() && picks(rs, ranked, ans, n)[k]
                    == (i as usize, first_pos(rs, ranked[i]) as usize),
    decreases n,
{
    if n > 0 {
        lemma_picks_hold_accepted(rs, ranked, ans, n - 1);
        let prev = picks(rs, ranked, ans, n - 1);
        let cur = picks(rs, ranked, ans, n);
        assert forall|i: int| 0 <= i < n && holds_id(rs, ranked[i]) && #[trigger] ans[i] implies exists|
            k: int,
        | 0 <= k < cur.len() && cur[k] == (i as usize, first_pos(rs, ranked[i]) as usize) by {
            if i < n - 1 {
                let k = choose|k: int|
                    0 <= k < prev.len() && prev[k] == (i as usize, first_pos(rs, ranked[i]) as usize);
                assert(cur[k] == prev[k]);
            } else {
                assert(cur[prev.len() as int] == (i as usize, first_pos(rs, ranked[i]) as usize));
            }
        }
    }
}

/// A filtered walk that comes back with fewer than `top_k` hits went
/// through every ranked id, so every held id that the filter accepted is
/// among the hits: the walk stops early only once it has `top_k` hits.
pub proof fn lemma_short_walk_misses_nothing<F: Filter + ?Sized>(
    rs: Seq<RecordEntry>,
    ranked: Seq<u64>,
    filter: &F,
    top_k: u32,
    asked: int,
    ans: Seq<bool>,
    r: Seq<(usize, usize)>,
)
    requires
        walked(rs, ranked, filter, top_k, asked, ans, r),
        r.len() < top_k,
        ranked.len() <= usize::MAX,
        rs.len() <= usize::MAX,
    ensures
        asked == ranked.len(),
        forall|i: int|
            0 <= i < ranked.len() && holds_id(rs, ranked[i]) && #[trigger] ans[i] ==> exists|k: int|
                0 <= k < r.len() && (#[trigger] r[k]).0 == i && first_with_id(rs, ranked[i], r[k].1 as int),
{
    assert(asked == ranked.len());
    lemma_picks_hold_accepted(rs, ranked, ans, asked);
    assert forall|i: int| 0 <= i < ranked.len() && holds_id(rs, ranked[i]) && #[trigger] ans[i] implies exists|
        k: int,
    | 0 <= k < r.len() && (#[trigger] r[k]).0 == i && first_with_id(rs, ranked[i], r[k].1 as int) by {
        let w = choose|p: int| 0 <= p < rs.len() && #[trigger] rs[p].record_id == ranked[i];
        lemma_first_exists(rs, ranked[i], w);
        let fp = first_pos(rs, ranked[i]);
        assert(first_with_id(rs, ranked[i], fp));
        let k = choose|k: int| 0 <= k < r.len() && r[k] == (i as usize, fp as usize);
        assert(r[k].0 == i);
        assert(r[k].1 as int == fp);
    }
}

/// Picks among the first `n` depend only on the first `n` answers.
proof fn lemma_picks_agree(rs: Seq<RecordEntry>, ranked: Seq<u64>, a: Seq<bool>, b: Seq<bool>, n: int)
    requires
        0 <= n <= a.len(),
        n <= b.len(),
        forall|j: int| 0 <= j < n ==> a[j] == b[j],
    ensures
        picks(rs, ranked, a, n) == picks(rs, ranked, b, n),
    decreases n,
{
    if n > 0 {
        lemma_picks_agree(rs, ranked, a, b, n - 1);
    }
}

/// How many ranked candidates a filtered query asks the index for:
/// four per wanted hit, at least 64.
pub fn query_oversample(top_k: u32) -> (n: usize)
    requires
        4 * top_k <= usize::MAX,
    ensures
        n == (if 4 * top_k > 64 {
            4 * top_k
        } else {
            64
        }),
{
    let n = (top_k as usize) * 4;
    if n > 64 {
        n
    } else {
        64
    }
}

/// Why the on-disk adapter refuses a write before touching anything.
#[derive(Debug, Clone, Copy, PartialEq, Eq, Structural)]
pub enum WriteRefusal {
    /// The tenant was opened read-only.
    ReadOnly,
    /// The embedding's length (cast to `u32`) differs from the tenant's
    /// dimension.
    DimMismatch {
        /// The tenant's dimension.
        on_disk: u32,
        /// The embedding's length.
        requested: u32,
    },
}

/// What an insert tests before touching anything: a read-only tenant refuses first, then an
/// embedding whose length (cast to `u32`) is not the tenant's dimension.
pub fn insert_precheck(read_only: bool, dim: u32, embedding_len: usize) -> (r: Result<
    (),
    WriteRefusal,
>)
    ensures
        read_only ==> r == Err::<(), WriteRefusal>(WriteRefusal::ReadOnly),
        !read_only && embedding_len as u32 != dim ==> r == Err::<(), WriteRefusal>(
            WriteRefusal::DimMismatch { on_disk: dim, requested: embedding_len as u32 },
        ),
        !read_only && embedding_len as u32 == dim ==> r is Ok,
{
    if read_only {
        return Err(WriteRefusal::ReadOnly);
    }
    if embedding_len as u32 != dim {
        return Err(WriteRefusal::DimMismatch { on_disk: dim, requested: embedding_len as u32 });
    }
    Ok(())
}

/// The dimension test on reopening a tenant: the requested dimension must be the one
/// on disk.
pub fn dim_check(on_disk: u32, requested: u32) -> (r: Result<(), WriteRefusal>)
    ensures
        on_disk == requested ==> r is Ok,
        on_disk != requested ==> r == Err::<(), WriteRefusal>(
            WriteRefusal::DimMismatch { on_disk, requested },
        ),
{
    if on_disk != requested {
        Err(WriteRefusal::DimMismatch { on_disk, requested })
    } else {
        Ok(())
    }
}

/// Writing an entry makes it the answer for its id, and every other id keeps
/// its answer.
pub proof fn lemma_upsert_then_get(rs: Seq<RecordEntry>, e: RecordEntry, id: u64)
    ensures
        holds_id(upsert_entry(rs, e), e.record_id),
        exists|p: int|
            first_with_id(upsert_entry(rs, e), e.record_id, p) && upsert_entry(rs, e)[p] == e,
        id != e.record_id ==> (holds_id(upsert_entry(rs, e), id) == holds_id(rs, id)),
        id != e.record_id ==> forall|p: int|
            first_with_id(rs, id, p) ==> first_with_id(upsert_entry(rs, e), id, p)
                && upsert_entry(rs, e)[p] == rs[p],
{
    let u = upsert_entry(rs, e);
    if holds_id(rs, e.record_id) {
        let w = choose|p: int| 0 <= p < rs.len() && #[trigger] rs[p].record_id == e.record_id;
        lemma_first_exists(rs, e.record_id, w);
        let q = choose|q: int| first_with_id(rs, e.record_id, q);
        assert(u[q] == e);
        assert(first_with_id(u, e.record_id, q));
    } else {
        assert(u[rs.len() as int] == e);
        assert(first_with_id(u, e.record_id, rs.len() as int));
    }
    if id != e.record_id {
        if holds_id(u, id) {
            let p = choose|p: int| 0 <= p < u.len() && #[trigger] u[p].record_id == id;
            assert(rs[p].record_id == id);
        }
        if holds_id(rs, id) {
            let p = choose|p: int| 0 <= p < rs.len() && #[trigger] rs[p].record_id == id;
            assert(u[p].record_id == id);
        }
    }
}

/// After removing an id, no record carries it, and every other record keeps
/// its place in order.
pub proof fn lemma_remove_then_absent(rs: Seq<RecordEntry>, id: u64)
    ensures
        !holds_id(without_id(rs, id), id),
        forall|p: int|
            0 <= p < rs.len() && (#[trigger] rs[p]).record_id != id ==> without_id(rs, id).contains(
                rs[p],
            ),
{
    let pred = |r: RecordEntry| r.record_id != id;
    rs.filter_lemma(pred);
    assert forall|p: int|
        0 <= p < rs.len() && (#[trigger] rs[p]).record_id != id implies without_id(rs, id).contains(
        rs[p],
    ) by {
        assert(pred(rs[p]));
    }
    if holds_id(without_id(rs, id), id) {
        let p = choose|p: int|
            0 <= p < without_id(rs, id).len() && #[trigger] without_id(rs, id)[p].record_id == id;
        assert(pred(without_id(rs, id)[p]));
    }
}

} // verus!
