//! Planning the ingest of a file tree into a tenant: which files are taken,
//! how each file becomes records (chunk text as payload, a `src:` provenance
//! tag, ids allocated one per chunk), and the running totals. Reading files,
//! embedding and writing are done by the caller with the plan in hand.

use vstd::prelude::*;

use crate::chunk::{chunk, chunked, words_in, word_count, Chunk, ChunkMode};
use crate::ids::RecordId;
use crate::text::{contains_str, decimal, push_decimal, push_str, str_contains, str_equal};
use vstd::utf8::encode_utf8;

verus! {

/// Knobs for an ingest run.
#[derive(Debug, Clone)]
pub struct IngestOptions {
    /// Allowed file extensions (without the dot). Empty = accept all.
    pub exts: Vec<String>,
    /// Skip any path containing one of these substrings.
    pub excludes: Vec<String>,
    /// Mark inserted records as shareable with federation peers.
    pub shareable: bool,
    /// Extra tags attached to every record (on top of the `src:` tag).
    pub tags: Vec<String>,
    /// First record id to allocate; ids increase by one per chunk.
    pub start_id: u64,
}

/// The default exclusions: version control, build and dependency trees.
pub open spec fn default_excludes() -> Seq<Seq<char>> {
    seq!["/.git/"@, "/target/"@, "/node_modules/"@, "/.venv/"@, "/dist/"@]
}

/// The characters of each string.
pub open spec fn strings(v: Seq<String>) -> Seq<Seq<char>> {
    v.map_values(|s: String| s@)
}

fn string_from(s: &str) -> (r: String)
    ensures
        r@ == s@,
{
    let mut r = String::new();
    push_str(&mut r, s);
    r
}

impl Default for IngestOptions {
    fn default() -> (o: IngestOptions)
        ensures
            o.exts@.len() == 0,
            strings(o.excludes@) == default_excludes(),
            !o.shareable,
            o.tags@.len() == 0,
            o.start_id == 0,
    {
        let mut excludes: Vec<String> = Vec::new();
        excludes.push(string_from("/.git/"));
        excludes.push(string_from("/target/"));
        excludes.push(string_from("/node_modules/"));
        excludes.push(string_from("/.venv/"));
        excludes.push(string_from("/dist/"));
        assert(strings(excludes@) =~= default_excludes());
        IngestOptions { exts: Vec::new(), excludes, shareable: false, tags: Vec::new(), start_id: 0 }
    }
}

/// What an ingest run produced.
#[derive(Debug, Clone)]
pub struct IngestStats {
    /// Files read and chunked.
    pub files: usize,
    /// Chunks embedded and inserted.
    pub chunks: usize,
    /// Total words across all chunks.
    pub words: usize,
    /// Next free record id after this run.
    pub next_id: u64,
}

impl Default for IngestStats {
    fn default() -> (s: IngestStats)
        ensures
            s.files == 0 && s.chunks == 0 && s.words == 0 && s.next_id == 0,
    {
        IngestStats { files: 0, chunks: 0, words: 0, next_id: 0 }
    }
}

/// Why an ingest run stops before it starts.
#[derive(Debug, Clone, Copy, PartialEq, Eq, Structural)]
pub enum IngestError {
    /// The embedder and the tenant disagree on the dimension.
    DimMismatch {
        /// Dimension of the embedder.
        embed: u32,
        /// Dimension of the tenant.
        tenant: u32,
    },
}

impl IngestError {
    /// The human-readable message.
    pub fn to_string(&self) -> (s: String)
        ensures
            self matches IngestError::DimMismatch { embed, tenant } ==> s@ == "embedding dim "@
                + decimal(embed as nat) + " does not match tenant dim "@ + decimal(tenant as nat),
    {
        let mut s = String::new();
        match self {
            IngestError::DimMismatch { embed, tenant } => {
                push_str(&mut s, "embedding dim ");
                push_decimal(&mut s, *embed as u64);
                push_str(&mut s, " does not match tenant dim ");
                push_decimal(&mut s, *tenant as u64);
            },
        }
        s
    }
}

/// The embedder's dimension must be the tenant's.
pub fn check_dims(embed: u32, tenant: u32) -> (r: Result<(), IngestError>)
    ensures
        embed == tenant ==> r is Ok,
        embed != tenant ==> r == Err::<(), IngestError>(IngestError::DimMismatch { embed, tenant }),
{
    if embed != tenant {
        Err(IngestError::DimMismatch { embed, tenant })
    } else {
        Ok(())
    }
}

/// Whether a file is taken: its path contains none of the exclusions, and
/// when extensions are listed, its extension is one of them.
pub open spec fn accepted(path: Seq<char>, ext: Option<Seq<char>>, opts: IngestOptions) -> bool {
    &&& forall|k: int|
        0 <= k < opts.excludes@.len() ==> !contains_str(path, #[trigger] opts.excludes@[k]@)
    &&& (opts.exts@.len() == 0 || (ext matches Some(x) && exists|k: int|
        0 <= k < opts.exts@.len() && #[trigger] opts.exts@[k]@ == x))
}

/// The characters of an optional string slice.
pub open spec fn opt_chars(o: Option<&str>) -> Option<Seq<char>> {
    match o {
        Some(s) => Some(s@),
        None => None,
    }
}

/// True if the path (its text) contains one of the exclusions.
pub fn excluded(path: &str, opts: &IngestOptions) -> (b: bool)
    ensures
        b == exists|k: int|
            0 <= k < opts.excludes@.len() && contains_str(path@, #[trigger] opts.excludes@[k]@),
{
    let mut k: usize = 0;
    while k < opts.excludes.len()
        invariant
            k <= opts.excludes@.len(),
            forall|j: int| 0 <= j < k ==> !contains_str(path@, #[trigger] opts.excludes@[j]@),
        decreases opts.excludes.len() - k,
    {
        if str_contains(path, opts.excludes[k].as_str()) {
            return true;
        }
        k = k + 1;
    }
    false
}

/// True if the file at `path` (its text) with extension `ext` should be
/// ingested under `opts`.
pub fn accepts(path: &str, ext: Option<&str>, opts: &IngestOptions) -> (b: bool)
    ensures
        b == accepted(path@, opt_chars(ext), *opts),
{
    if excluded(path, opts) {
        return false;
    }
    if opts.exts.len() == 0 {
        return true;
    }
    match ext {
        None => false,
        Some(x) => {
            let mut j: usize = 0;
            while j < opts.exts.len()
                invariant
                    j <= opts.exts@.len(),
                    opts.exts@.len() > 0,
                    ext == Some(x),
                    forall|i: int| 0 <= i < j ==> #[trigger] opts.exts@[i]@ != x@,
                    forall|i: int|
                        0 <= i < opts.excludes@.len() ==> !contains_str(
                            path@,
                            #[trigger] opts.excludes@[i]@,
                        ),
                decreases opts.exts.len() - j,
            {
                if str_equal(opts.exts[j].as_str(), x) {
                    assert(opts.exts@[j as int]@ == x@);
                    return true;
                }
                j = j + 1;
            }
            false
        },
    }
}

/// Which files an ingest run takes: a path in which an exclusion occurs is
/// never taken; otherwise, with no extensions listed every file is taken,
/// and with a list a file is taken exactly when its extension is one of the
/// listed ones, wherever in the list it stands.
pub proof fn lemma_accepted_files(path: Seq<char>, ext: Option<Seq<char>>, opts: IngestOptions)
    ensures
        (exists|j: int| 0 <= j < opts.excludes@.len() && contains_str(path, #[trigger] opts.excludes@[j]@))
            ==> !accepted(path, ext, opts),
        (forall|j: int| 0 <= j < opts.excludes@.len() ==> !contains_str(path, #[trigger] opts.excludes@[j]@))
            ==> {
            &&& opts.exts@.len() == 0 ==> accepted(path, ext, opts)
            &&& forall|k: int|
                0 <= k < opts.exts@.len() && ext == Some(#[trigger] opts.exts@[k]@) ==> accepted(
                    path,
                    ext,
                    opts,
                )
            &&& opts.exts@.len() > 0 && ext is None ==> !accepted(path, ext, opts)
            &&& (opts.exts@.len() > 0 && ext is Some && forall|k: int|
                0 <= k < opts.exts@.len() ==> #[trigger] opts.exts@[k]@ != ext.unwrap())
                ==> !accepted(path, ext, opts)
        },
{
}

/// A path relative to the root that names something below it: present
/// and not empty.
pub open spec fn proper_rel(stripped: Option<&str>) -> bool {
    match stripped {
        Some(p) => p@.len() > 0,
        None => false,
    }
}

/// The name a file is tagged with: its path relative to the root when the
/// root is a proper prefix of it, else (the root is the file itself, or not
/// a prefix) its file name, else its whole path. The caller passes the three
/// candidates as the path library computed them.
pub fn relpath(stripped: Option<&str>, file_name: Option<&str>, full: &str) -> (s: String)
    ensures
        proper_rel(stripped) ==> opt_chars(stripped) == Some(s@),
        !proper_rel(stripped) ==> (file_name matches Some(f) ==> s@ == f@),
        !proper_rel(stripped) && file_name is None ==> s@ == full@,
{
    if let Some(p) = stripped {
        if p.unicode_len() > 0 {
            return string_from(p);
        }
    }
    match file_name {
        Some(f) => string_from(f),
        None => string_from(full),
    }
}

/// One record that an ingest plan writes.
#[derive(Debug, Clone)]
pub struct PlannedRecord {
    /// The id allocated to it.
    pub record_id: RecordId,
    /// The chunk text: what gets embedded.
    pub text: String,
    /// The tags: the run's extra tags, then the `src:` provenance tag.
    pub tags: Vec<String>,
    /// The payload: the chunk text's UTF-8 bytes.
    pub payload: Vec<u8>,
    /// Whitespace-delimited words in the chunk.
    pub words: usize,
}

/// The plan for one file.
#[derive(Debug, Clone)]
pub struct FilePlan {
    /// The records, one per chunk, in chunk order.
    pub records: Vec<PlannedRecord>,
    /// The next free id after this file.
    pub next_id: u64,
}

/// The provenance tag of a chunk: `src:{rel}:{lo}-{hi}`.
pub open spec fn src_tag(rel: Seq<char>, lo: nat, hi: nat) -> Seq<char> {
    "src:"@ + rel + ":"@ + decimal(lo) + "-"@ + decimal(hi)
}

/// `r` is the record planned for chunk `c` with id `id`.
pub open spec fn planned_for(
    r: PlannedRecord,
    c: Chunk,
    id: u64,
    rel: Seq<char>,
    opts: IngestOptions,
) -> bool {
    &&& r.record_id == RecordId(id)
    &&& r.text@ == c.text@
    &&& r.tags@.len() == opts.tags@.len() + 1
    &&& forall|i: int| 0 <= i < opts.tags@.len() ==> (#[trigger] r.tags@[i])@ == opts.tags@[i]@
    &&& r.tags@[opts.tags@.len() as int]@ == src_tag(rel, c.line_lo as nat, c.line_hi as nat)
    &&& r.payload@ == encode_utf8(c.text@)
    &&& r.words == words_in(c.text@)
}

/// The plan for a file: the file's text chunked under the mode its extension
/// selects, one record per chunk with ids from `next_id` upward.
pub open spec fn plan_of(
    text: Seq<char>,
    ext: Seq<char>,
    rel: Seq<char>,
    opts: IngestOptions,
    next_id: u64,
    plan: FilePlan,
) -> bool {
    exists|cs: Seq<Chunk>, mode: ChunkMode|
        {
            &&& (mode == ChunkMode::for_ext_spec(ext))
            &&& chunked(text, mode, cs)
            &&& plan.records@.len() == cs.len()
            &&& plan.next_id == next_id + cs.len()
            &&& forall|k: int|
                0 <= k < cs.len() ==> planned_for(
                    #[trigger] plan.records@[k],
                    cs[k],
                    (next_id + k) as u64,
                    rel,
                    opts,
                )
        }
}

impl ChunkMode {
    /// The mode [`ChunkMode::for_ext`] picks for an extension.
    pub open spec fn for_ext_spec(ext: Seq<char>) -> ChunkMode {
        if crate::chunk::prose_ext(ext) {
            ChunkMode::Paragraph
        } else {
            ChunkMode::Lines { win: 40, step: 30 }
        }
    }
}

fn push_bytes_of(out: &mut Vec<u8>, s: &str)
    ensures
        final(out)@ == old(out)@ + encode_utf8(s@),
{
    let b = s.as_bytes();
    let mut i: usize = 0;
    while i < b.len()
        invariant
            i <= b@.len(),
            b@ == encode_utf8(s@),
            out@ == old(out)@ + b@.take(i as int),
        decreases b.len() - i,
    {
        out.push(b[i]);
        proof {
            assert(b@.take(i + 1) =~= b@.take(i as int).push(b@[i as int]));
        }
        i = i + 1;
    }
    assert(b@.take(b@.len() as int) =~= b@);
}

/// Plan the records for one file: chunk its text under the mode its
/// extension selects, then give each chunk the next id, the run's tags plus
/// its `src:` tag, and its text as payload. `None` when the ids would run
/// past `u64::MAX`.
pub fn plan_file(text: &str, ext: &str, rel: &str, opts: &IngestOptions, next_id: u64) -> (plan:
    Option<FilePlan>)
    ensures
        plan matches Some(p) ==> plan_of(text@, ext@, rel@, *opts, next_id, p),
        plan is None ==> exists|cs: Seq<Chunk>|
            #[trigger] chunked(text@, ChunkMode::for_ext_spec(ext@), cs) && next_id + cs.len()
                > u64::MAX,
        (forall|cs: Seq<Chunk>| #[trigger] chunked(text@, ChunkMode::for_ext_spec(ext@), cs) ==> next_id
            + cs.len() <= u64::MAX) ==> plan is Some,
{
    let mode = ChunkMode::for_ext(ext);
    let cs = chunk(text, mode);
    if cs.len() as u64 > u64::MAX - next_id {
        return None;
    }
    let mut records: Vec<PlannedRecord> = Vec::new();
    let mut id = next_id;
    let mut k: usize = 0;
    while k < cs.len()
        invariant
            k <= cs@.len(),
            next_id + cs@.len() <= u64::MAX,
            id == next_id + k,
            records@.len() == k,
            forall|j: int|
                0 <= j < k ==> planned_for(
                    #[trigger] records@[j],
                    cs@[j],
                    (next_id + j) as u64,
                    rel@,
                    *opts,
                ),
        decreases cs.len() - k,
    {
        let c = &cs[k];
        let mut tags: Vec<String> = Vec::new();
        let mut t: usize = 0;
        while t < opts.tags.len()
            invariant
                t <= opts.tags@.len(),
                tags@.len() == t,
                forall|i: int| 0 <= i < t ==> (#[trigger] tags@[i])@ == opts.tags@[i]@,
            decreases opts.tags.len() - t,
        {
            let ghost before = tags@;
            let cl = opts.tags[t].clone();
            assert(cl == opts.tags@[t as int]);
            tags.push(cl);
            proof {
                assert forall|i: int| 0 <= i < t + 1 implies (#[trigger] tags@[i])@ == opts.tags@[i]@ by {
                    if i < t {
                        assert(tags@[i] == before[i]);
                    }
                }
            }
            t = t + 1;
        }
        let mut src = String::new();
        push_str(&mut src, "src:");
        push_str(&mut src, rel);
        push_str(&mut src, ":");
        push_decimal(&mut src, c.line_lo as u64);
        push_str(&mut src, "-");
        push_decimal(&mut src, c.line_hi as u64);
        let ghost before = tags@;
        tags.push(src);
        proof {
            assert forall|i: int| 0 <= i < opts.tags@.len() implies (#[trigger] tags@[i])@
                == opts.tags@[i]@ by {
                assert(tags@[i] == before[i]);
            }
        }
        let mut payload: Vec<u8> = Vec::new();
        push_bytes_of(&mut payload, c.text.as_str());
        let words = word_count(c.text.as_str());
        let rec = PlannedRecord {
            record_id: RecordId(id),
            text: c.text.clone(),
            tags,
            payload,
            words,
        };
        let ghost prev = records@;
        records.push(rec);
        proof {
            assert(Seq::<u8>::empty() + encode_utf8(c.text@) =~= encode_utf8(c.text@));
            assert forall|j: int| 0 <= j < k + 1 implies planned_for(
                #[trigger] records@[j],
                cs@[j],
                (next_id + j) as u64,
                rel@,
                *opts,
            ) by {
                if j < k {
                    assert(records@[j] == prev[j]);
                }
            }
        }
        id = id + 1;
        k = k + 1;
    }
    let plan = FilePlan { records, next_id: id };
    proof {
        assert(mode == ChunkMode::for_ext_spec(ext@));
    }
    Some(plan)
}

/// Sum of the words of the planned records.
pub open spec fn plan_words(rs: Seq<PlannedRecord>) -> nat
    decreases rs.len(),
{
    if rs.len() == 0 {
        0
    } else {
        plan_words(rs.drop_last()) + rs.last().words as nat
    }
}

impl IngestStats {
    /// Whether the totals can count one more written record without
    /// overflowing.
    pub open spec fn can_take_record(&self, rec: PlannedRecord) -> bool {
        &&& self.chunks + 1 <= usize::MAX
        &&& self.words + rec.words <= usize::MAX
        &&& self.next_id + 1 <= u64::MAX
    }

    /// Whether the totals can count one more written record without
    /// overflowing.
    pub fn fits_record(&self, rec: &PlannedRecord) -> (b: bool)
        ensures
            b == self.can_take_record(*rec),
    {
        self.chunks < usize::MAX && rec.words <= usize::MAX - self.words && self.next_id
            < u64::MAX
    }

    /// Count one record as it is written: one more chunk, its words, and the
    /// next free id moves on by one, so an id once handed out is never
    /// handed out again, even if the file fails part-way.
    pub fn add_record(&mut self, rec: &PlannedRecord)
        requires
            old(self).can_take_record(*rec),
        ensures
            final(self).files == old(self).files,
            final(self).chunks == old(self).chunks + 1,
            final(self).words == old(self).words + rec.words,
            final(self).next_id == old(self).next_id + 1,
    {
        self.chunks = self.chunks + 1;
        self.words = self.words + rec.words;
        self.next_id = self.next_id + 1;
    }

    /// Count one file whose records were all written.
    pub fn count_file(&mut self)
        requires
            old(self).files < usize::MAX,
        ensures
            final(self).files == old(self).files + 1,
            final(self).chunks == old(self).chunks,
            final(self).words == old(self).words,
            final(self).next_id == old(self).next_id,
    {
        self.files = self.files + 1;
    }

    /// Whether the totals can take in `plan` without overflowing.
    pub open spec fn can_take(&self, plan: FilePlan) -> bool {
        &&& self.files + 1 <= usize::MAX
        &&& self.chunks + plan.records@.len() <= usize::MAX
        &&& self.words + plan_words(plan.records@) <= usize::MAX
    }

    /// Whether the totals can take in `plan` without overflowing.
    pub fn fits(&self, plan: &FilePlan) -> (b: bool)
        ensures
            b == self.can_take(*plan),
    {
        if self.files == usize::MAX {
            return false;
        }
        if plan.records.len() > usize::MAX - self.chunks {
            return false;
        }
        let mut words = self.words;
        let mut i: usize = 0;
        while i < plan.records.len()
            invariant
                i <= plan.records@.len(),
                words == self.words + plan_words(plan.records@.take(i as int)),
            decreases plan.records.len() - i,
        {
            proof {
                assert(plan.records@.take(i + 1).drop_last() =~= plan.records@.take(i as int));
                lemma_plan_words_prefix(plan.records@, i + 1);
            }
            let w = plan.records[i].words;
            if w > usize::MAX - words {
                proof {
                    lemma_plan_words_prefix(plan.records@, i + 1);
                }
                return false;
            }
            words = words + w;
            i = i + 1;
        }
        assert(plan.records@.take(plan.records@.len() as int) =~= plan.records@);
        true
    }

    /// Count one ingested file and its records; the next free id becomes the
    /// plan's.
    pub fn add_file(&mut self, plan: &FilePlan)
        requires
            old(self).can_take(*plan),
        ensures
            final(self).files == old(self).files + 1,
            final(self).chunks == old(self).chunks + plan.records@.len(),
            final(self).words == old(self).words + plan_words(plan.records@),
            final(self).next_id == plan.next_id,
    {
        let mut words = self.words;
        let mut i: usize = 0;
        while i < plan.records.len()
            invariant
                i <= plan.records@.len(),
                words == old(self).words + plan_words(plan.records@.take(i as int)),
                old(self).words + plan_words(plan.records@) <= usize::MAX,
            decreases plan.records.len() - i,
        {
            proof {
                assert(plan.records@.take(i + 1).drop_last() =~= plan.records@.take(i as int));
                lemma_plan_words_prefix(plan.records@, i + 1);
            }
            words = words + plan.records[i].words;
            i = i + 1;
        }
        assert(plan.records@.take(plan.records@.len() as int) =~= plan.records@);
        self.files = self.files + 1;
        self.chunks = self.chunks + plan.records.len();
        self.words = words;
        self.next_id = plan.next_id;
    }
}

/// A plan's ids are the next free id upward, one per record, and its next
/// free id is the one after them.
pub proof fn lemma_plan_ids(
    text: Seq<char>,
    ext: Seq<char>,
    rel: Seq<char>,
    opts: IngestOptions,
    next_id: u64,
    plan: FilePlan,
)
    requires
        plan_of(text, ext, rel, opts, next_id, plan),
    ensures
        plan.next_id == next_id + plan.records@.len(),
        forall|k: int|
            0 <= k < plan.records@.len() ==> (#[trigger] plan.records@[k]).record_id.0 == next_id + k,
{
    let (cs, mode) = choose|cs: Seq<Chunk>, mode: ChunkMode|
        {
            &&& (mode == ChunkMode::for_ext_spec(ext))
            &&& chunked(text, mode, cs)
            &&& plan.records@.len() == cs.len()
            &&& plan.next_id == next_id + cs.len()
            &&& forall|k: int|
                0 <= k < cs.len() ==> planned_for(
                    #[trigger] plan.records@[k],
                    cs[k],
                    (next_id + k) as u64,
                    rel,
                    opts,
                )
        };
    assert forall|k: int| 0 <= k < plan.records@.len() implies (
    #[trigger] plan.records@[k]).record_id.0 == next_id + k by {
        assert(planned_for(plan.records@[k], cs[k], (next_id + k) as u64, rel, opts));
    }
}

/// Ids are never reused across files: when the first `written` records of a
/// file's plan were written and counted (all of them, or fewer when the file
/// failed part-way), the next file's plan, made from the next free id, gives
/// every record an id above all of those.
pub proof fn lemma_fresh_ids_across_files(
    t1: Seq<char>,
    e1: Seq<char>,
    r1: Seq<char>,
    t2: Seq<char>,
    e2: Seq<char>,
    r2: Seq<char>,
    opts: IngestOptions,
    first: u64,
    p1: FilePlan,
    written: int,
    p2: FilePlan,
)
    requires
        plan_of(t1, e1, r1, opts, first, p1),
        0 <= written <= p1.records@.len(),
        first + written <= u64::MAX,
        plan_of(t2, e2, r2, opts, (first + written) as u64, p2),
    ensures
        forall|a: int, b: int|
            0 <= a < written && 0 <= b < p2.records@.len() ==> (#[trigger] p1.records@[a]).record_id.0
                < (#[trigger] p2.records@[b]).record_id.0,
{
    lemma_plan_ids(t1, e1, r1, opts, first, p1);
    lemma_plan_ids(t2, e2, r2, opts, (first + written) as u64, p2);
}

proof fn lemma_plan_words_prefix(rs: Seq<PlannedRecord>, i: int)
    requires
        0 <= i <= rs.len(),
    ensures
        plan_words(rs.take(i)) <= plan_words(rs),
    decreases rs.len() - i,
{
    if i < rs.len() {
        lemma_plan_words_prefix(rs, i + 1);
        assert(rs.take(i + 1).drop_last() =~= rs.take(i));
    } else {
        assert(rs.take(i) =~= rs);
    }
}

/// How long a watched file must stay unchanged before a new change to it is
/// ingested again, in milliseconds: one save raises several filesystem
/// events, and this makes one edit ingest once.
pub const WATCH_DEBOUNCE_MS: u64 = 800;

/// Whether one filesystem change re-ingests a file while a tree is watched:
/// the change creates or modifies, the path is a regular file the options
/// accept, and the file was not taken up within the debounce window
/// (`since_last_ms` is the time since it last was, `None` if never).
pub fn watch_should_ingest(
    creates_or_modifies: bool,
    is_file: bool,
    accepted: bool,
    since_last_ms: Option<u64>,
) -> (b: bool)
    ensures
        b == (creates_or_modifies && is_file && accepted && match since_last_ms {
            Some(e) => e >= WATCH_DEBOUNCE_MS,
            None => true,
        }),
{
    if !creates_or_modifies || !is_file || !accepted {
        return false;
    }
    match since_last_ms {
        Some(e) => e >= WATCH_DEBOUNCE_MS,
        None => true,
    }
}

} // verus!
