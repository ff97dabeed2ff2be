//! The `IndexMeta` record: the single source of truth for what is
//! currently searchable.

use vstd::prelude::*;

use crate::segment::SegmentId;

verus! {

/// The field schema of the index. It is opaque to the coordinator and is
/// carried verbatim, as the byte blob of its stable textual form.
#[derive(PartialEq, Eq, Debug)]
pub struct Schema {
    bytes: Vec<u8>,
}

impl View for Schema {
    type V = Seq<u8>;

    closed spec fn view(&self) -> Seq<u8> {
        self.bytes@
    }
}

impl Schema {
    /// Wraps the byte blob of a schema.
    pub fn new(bytes: Vec<u8>) -> (r: Schema)
        ensures
            r@ == bytes@,
    {
        Schema { bytes }
    }

    /// The schema's byte blob.
    pub fn as_bytes(&self) -> (r: &Vec<u8>)
        ensures
            r@ == self@,
    {
        &self.bytes
    }
}

impl Clone for Schema {
    fn clone(&self) -> (r: Schema)
        ensures
            r@ == self@,
    {
        Schema { bytes: vstd::slice::slice_to_vec(self.bytes.as_slice()) }
    }
}

/// Mathematical model of an [`IndexMeta`].
pub ghost struct MetaView {
    /// Identifiers of the searchable segments, in search order.
    pub segments: Seq<SegmentId>,
    /// The opaque schema blob.
    pub schema: Seq<u8>,
    /// Cumulative count of documents ever committed.
    pub docstamp: u64,
}

/// Meta-information about the index: the searchable segments in search
/// order, the schema, and the docstamp. This record is what `meta.json`
/// holds on disk.
#[derive(Debug)]
pub struct IndexMeta {
    /// The searchable segments, in search order.
    pub segments: Vec<SegmentId>,
    /// The schema, carried verbatim.
    pub schema: Schema,
    /// Cumulative count of documents ever committed; never decreases
    /// across successful publications.
    pub docstamp: u64,
}

impl View for IndexMeta {
    type V = MetaView;

    open spec fn view(&self) -> MetaView {
        MetaView { segments: self.segments@, schema: self.schema@, docstamp: self.docstamp }
    }
}

impl IndexMeta {
    /// The initial meta for a fresh index: no segments, docstamp zero.
    pub fn with_schema(schema: Schema) -> (r: IndexMeta)
        ensures
            r@.segments == Seq::<SegmentId>::empty(),
            r@.schema == schema@,
            r@.docstamp == 0,
    {
        IndexMeta { segments: Vec::new(), schema, docstamp: 0u64 }
    }
}

impl Clone for IndexMeta {
    fn clone(&self) -> (r: IndexMeta)
        ensures
            r@ == self@,
    {
        let r = IndexMeta {
            segments: vstd::slice::slice_to_vec(self.segments.as_slice()),
            schema: self.schema.clone(),
            docstamp: self.docstamp,
        };
        r
    }
}

/// The segment sequence after merging: every identifier in `merged` is
/// removed, the relative order of the others is kept, and `result_id`
/// stands at the end.
pub open spec fn segments_after_merge(
    segments: Seq<SegmentId>,
    merged: Seq<SegmentId>,
    result_id: SegmentId,
) -> Seq<SegmentId> {
    keep_not_in(segments, merged).push(result_id)
}

/// The subsequence of `s` whose elements do not occur in `m`.
pub open spec fn keep_not_in(s: Seq<SegmentId>, m: Seq<SegmentId>) -> Seq<SegmentId>
    decreases s.len(),
{
    if s.len() == 0 {
        Seq::empty()
    } else if m.contains(s.last()) {
        keep_not_in(s.drop_last(), m)
    } else {
        keep_not_in(s.drop_last(), m).push(s.last())
    }
}

/// Merging with identifiers none of which are present leaves every
/// segment in place and only appends the merged segment: such a merge is
/// a no-op on the unknown identifiers and still produces a valid meta.
pub proof fn lemma_merge_skips_unknown(
    segments: Seq<SegmentId>,
    merged: Seq<SegmentId>,
    result_id: SegmentId,
)
    requires
        forall|k: int| 0 <= k < segments.len() ==> !merged.contains(#[trigger] segments[k]),
    ensures
        segments_after_merge(segments, merged, result_id) == segments.push(result_id),
    decreases segments.len(),
{
    if segments.len() == 0 {
        assert(keep_not_in(segments, merged) =~= segments);
    } else {
        let s0 = segments.drop_last();
        assert(forall|k: int| 0 <= k < s0.len() ==> !merged.contains(#[trigger] s0[k]));
        lemma_merge_skips_unknown(s0, merged, result_id);
        assert(!merged.contains(segments.last()));
        assert(keep_not_in(segments, merged) == keep_not_in(s0, merged).push(segments.last()));
        assert(keep_not_in(s0, merged) == s0.push(result_id).drop_last());
        assert(keep_not_in(s0, merged) =~= s0);
        assert(keep_not_in(segments, merged) =~= segments);
    }
}

/// Whether `id` occurs in `v`.
pub fn contains_id(v: &[SegmentId], id: SegmentId) -> (r: bool)
    ensures
        r == v@.contains(id),
{
    let mut i: usize = 0;
    while i < v.len()
        invariant
            0 <= i <= v@.len(),
            forall|k: int| 0 <= k < i ==> v@[k] != id,
        decreases v@.len() - i,
    {
        if v[i].value == id.value {
            assert(v@[i as int] == id);
            return true;
        }
        i += 1;
    }
    assert(!v@.contains(id));
    false
}

/// Removes from `segments` every identifier in `merged` and appends
/// `result_id`, per [`segments_after_merge`].
pub fn merge_segment_list(
    segments: &[SegmentId],
    merged: &[SegmentId],
    result_id: SegmentId,
) -> (r: Vec<SegmentId>)
    ensures
        r@ == segments_after_merge(segments@, merged@, result_id),
{
    let mut out: Vec<SegmentId> = Vec::new();
    let mut i: usize = 0;
    while i < segments.len()
        invariant
            0 <= i <= segments@.len(),
            out@ == keep_not_in(segments@.take(i as int), merged@),
        decreases segments@.len() - i,
    {
        proof {
            assert(segments@.take(i as int + 1).drop_last() =~= segments@.take(i as int));
            assert(segments@.take(i as int + 1).last() == segments@[i as int]);
        }
        if !contains_id(merged, segments[i]) {
            out.push(segments[i]);
        }
        i += 1;
    }
    proof {
        assert(segments@.take(segments@.len() as int) =~= segments@);
    }
    out.push(result_id);
    out
}

} // verus!
