//! Segment identifiers and segment handles.
//!
//! A segment is an immutable, self-contained shard of the index. The
//! coordinator only deals in segment identity; the per-segment file layout
//! belongs to the external segment encoder.

use vstd::prelude::*;

verus! {

/// An opaque, globally unique segment identifier: a collision-resistant
/// 128-bit random value.
#[derive(Clone, Copy, PartialEq, Eq, Structural, Hash, Debug)]
pub struct SegmentId {
    /// The raw 128-bit identifier.
    pub value: u128,
}

/// Relies on `rand::random`: draws a fresh value from the thread-local
/// random number generator. Nothing is promised of the value drawn.
#[verifier::external_body]
fn random_u128() -> u128 {
    rand::random::<u128>()
}

impl SegmentId {
    /// Generates a fresh random identifier. Two identifiers generated
    /// independently are distinct with overwhelming probability.
    pub fn generate_random() -> SegmentId {
        SegmentId { value: random_u128() }
    }
}

/// A logical handle on one segment of the index.
///
/// A segment may be referenced before its files exist (a freshly allocated
/// identifier handed to a writer) and after it has been removed from the
/// meta record (open readers keep observing it).
#[derive(Clone, Copy, PartialEq, Eq, Structural, Debug)]
pub struct Segment {
    /// The identifier of the segment this handle points at.
    pub id: SegmentId,
}

impl Segment {
    /// Builds the handle for `id`.
    pub fn new(id: SegmentId) -> (r: Segment)
        ensures
            r.id == id,
    {
        Segment { id }
    }

    /// The identifier of the segment this handle points at.
    pub fn id(&self) -> (r: SegmentId)
        ensures
            r == self.id,
    {
        self.id
    }
}

/// An open, read-only view over one segment. Once constructed, its view is
/// frozen: the directory is write-once, so the files it stands on never
/// change.
#[derive(Clone, Copy, PartialEq, Eq, Structural, Debug)]
pub struct SegmentReader {
    /// The segment this reader stands on.
    pub segment: Segment,
}

impl SegmentReader {
    /// Opens a read handle over `segment`.
    pub fn open(segment: Segment) -> (r: SegmentReader)
        ensures
            r.segment == segment,
    {
        SegmentReader { segment }
    }

    /// The segment this reader stands on.
    pub fn segment(&self) -> (r: Segment)
        ensures
            r == self.segment,
    {
        self.segment
    }

    /// The identifier of the segment this reader stands on.
    pub fn segment_id(&self) -> (r: SegmentId)
        ensures
            r == self.segment.id,
    {
        self.segment.id()
    }
}

} // verus!
