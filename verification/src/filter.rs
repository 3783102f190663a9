//! Per-record metadata predicates for filtered search.

use vstd::prelude::*;

use crate::ids::RecordId;

verus! {

/// Metadata view of a candidate record during a filtered search. Borrows the
/// underlying tag strings; the filter must not retain them.
#[derive(Debug, Clone, Copy)]
pub struct RecordMeta<'a> {
    /// Record identifier.
    pub record_id: RecordId,
    /// Whether this record opts into being shared with peers in a hansa.
    pub shareable: bool,
    /// Tag strings attached to the record.
    pub tags: &'a [&'a str],
}

/// The characters of each tag slice.
pub open spec fn tag_chars(tags: Seq<&str>) -> Seq<Seq<char>> {
    tags.map_values(|t: &str| t@)
}

/// The characters of each owned tag.
pub open spec fn string_chars(tags: Seq<String>) -> Seq<Seq<char>> {
    tags.map_values(|t: String| t@)
}

/// The tags as string slices borrowed from `tags`, in order.
pub fn tag_strs<'a>(tags: &'a Vec<String>) -> (v: Vec<&'a str>)
    ensures
        v@.len() == tags@.len(),
        forall|i: int| 0 <= i < v@.len() ==> (#[trigger] v@[i])@ == tags@[i]@,
        tag_chars(v@) == string_chars(tags@),
{
    let mut v: Vec<&str> = Vec::new();
    let mut t: usize = 0;
    while t < tags.len()
        invariant
            t <= tags@.len(),
            v@.len() == t,
            forall|i: int| 0 <= i < t ==> (#[trigger] v@[i])@ == tags@[i]@,
        decreases tags.len() - t,
    {
        v.push(tags[t].as_str());
        t = t + 1;
    }
    assert(tag_chars(v@) =~= string_chars(tags@));
    v
}

/// The metadata a filter is asked about for a record: its id, its
/// `shareable` flag, and its tags (as built by [`tag_strs`]).
pub fn meta_of<'a>(record_id: RecordId, shareable: bool, tags: &'a [&'a str]) -> (m: RecordMeta<'a>)
    ensures
        m.record_id == record_id,
        m.shareable == shareable,
        m.tags@ == tags@,
{
    RecordMeta { record_id, shareable, tags }
}

/// Predicate decided by the caller, evaluated per candidate during a filtered
/// search. Implemented by callers.
///
/// An implementation says, over the metadata's id, `shareable` flag and tag
/// characters, when it may be asked ([`Filter::can_answer`]) and which
/// answers it may give ([`Filter::may_answer`]). By default it may always be
/// asked and may give either answer. A closure may be asked where its own
/// precondition holds, and answers as its own postcondition allows.
pub trait Filter: Send + Sync {
    /// Whether the filter may be asked about a candidate with this id, flag
    /// and tags.
    open spec fn can_answer(&self, record_id: RecordId, shareable: bool, tags: Seq<Seq<char>>) -> bool {
        true
    }

    /// Whether `b` is an answer the filter may give about a candidate with
    /// this id, flag and tags.
    open spec fn may_answer(
        &self,
        record_id: RecordId,
        shareable: bool,
        tags: Seq<Seq<char>>,
        b: bool,
    ) -> bool {
        true
    }

    /// Accept or reject a candidate based on its metadata.
    fn accept(&self, meta: &RecordMeta<'_>) -> (b: bool)
        requires
            self.can_answer(meta.record_id, meta.shareable, tag_chars(meta.tags@)),
        ensures
            self.may_answer(meta.record_id, meta.shareable, tag_chars(meta.tags@), b),
    ;
}

impl<F> Filter for F where F: Fn(&RecordMeta<'_>) -> bool + Send + Sync {
    /// Where the closure's precondition holds for every metadata value with
    /// this id, flag and tags.
    open spec fn can_answer(&self, record_id: RecordId, shareable: bool, tags: Seq<Seq<char>>) -> bool {
        forall|m: RecordMeta|
            m.record_id == record_id && m.shareable == shareable && tag_chars(m.tags@) == tags
                ==> #[trigger] call_requires(*self, (&m,))
    }

    /// What the closure's postcondition allows for some metadata value with
    /// this id, flag and tags.
    open spec fn may_answer(
        &self,
        record_id: RecordId,
        shareable: bool,
        tags: Seq<Seq<char>>,
        b: bool,
    ) -> bool {
        exists|m: RecordMeta|
            m.record_id == record_id && m.shareable == shareable && tag_chars(m.tags@) == tags
                && #[trigger] call_ensures(*self, (&m,), b)
    }

    /// The closure's answer for `meta`.
    fn accept(&self, meta: &RecordMeta<'_>) -> (b: bool) {
        assert(call_requires(*self, (meta,)));
        let b = (self)(meta);
        assert(call_ensures(*self, (meta,), b));
        b
    }
}

} // verus!
