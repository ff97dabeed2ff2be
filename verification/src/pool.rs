//! A bounded, generation-based pool of searchers.
//!
//! Each publication of the index replaces the whole pool: the generation
//! counter is incremented, the queue is emptied, and the new items are
//! enqueued tagged with the new generation. An item returned from a lease
//! of an older generation is dropped instead of re-enqueued, so every
//! pooled item always reflects the latest published generation.

use vstd::prelude::*;

use crate::segment::{SegmentId, SegmentReader};

verus! {

/// A snapshot over a fixed, ordered list of segment readers; a query
/// executes atomically against one searcher.
#[derive(Debug)]
pub struct Searcher {
    /// The pool generation this searcher was published under.
    pub generation: u64,
    /// The open readers, in search order.
    pub segment_readers: Vec<SegmentReader>,
}

/// The segment identifiers a searcher stands on, in search order.
pub open spec fn searcher_seg_ids(s: Searcher) -> Seq<SegmentId> {
    s.segment_readers@.map_values(|r: SegmentReader| r.segment.id)
}

impl Searcher {
    /// The open readers, in search order.
    pub fn segment_readers(&self) -> (r: &Vec<SegmentReader>)
        ensures
            r@ == self.segment_readers@,
    {
        &self.segment_readers
    }
}

/// A leased searcher: the holder owns the item for the lease's duration
/// and hands it back through the pool, which re-enqueues it only if its
/// generation is still current.
#[derive(Debug)]
pub struct LeasedItem {
    /// The leased searcher.
    pub searcher: Searcher,
}

impl LeasedItem {
    /// The searcher held by this lease.
    pub fn searcher(&self) -> (r: &Searcher)
        ensures
            r == &self.searcher,
    {
        &self.searcher
    }
}

/// The pool itself: a queue of ready searchers plus the generation
/// counter.
#[derive(Debug)]
pub struct Pool {
    generation: u64,
    items: Vec<Searcher>,
}

impl Pool {
    /// The current generation.
    pub closed spec fn generation(&self) -> u64 {
        self.generation
    }

    /// The queued items.
    pub closed spec fn items(&self) -> Seq<Searcher> {
        self.items@
    }

    /// An empty pool at generation zero.
    pub fn new() -> (r: Pool)
        ensures
            r.generation() == 0,
            r.items() == Seq::<Searcher>::empty(),
    {
        Pool { generation: 0, items: Vec::new() }
    }

    /// Atomically replaces the pool: the generation is incremented, the
    /// queue is emptied, and `items` are enqueued tagged with the new
    /// generation, in order.
    pub fn publish_new_generation(&mut self, items: Vec<Searcher>)
        requires
            old(self).generation() < u64::MAX,
        ensures
            final(self).generation() == old(self).generation() + 1,
            final(self).items().len() == items@.len(),
            forall|k: int|
                0 <= k < items@.len() ==> (final(self).items()[k].generation == final(self).generation() && final(self).items()[k].segment_readers@
                    == items@[k].segment_readers@),
    {
        let g: u64 = self.generation + 1;
        let mut tagged: Vec<Searcher> = Vec::new();
        let mut rest = items;
        let ghost all = rest@;
        while rest.len() > 0
            invariant
                tagged@.len() + rest@.len() == all.len(),
                rest@ == all.skip(tagged@.len() as int),
                forall|k: int|
                    0 <= k < tagged@.len() ==> (tagged@[k].generation == g
                        && tagged@[k].segment_readers@ == all[k].segment_readers@),
            decreases rest@.len(),
        {
            let s = rest.remove(0);
            proof {
                assert(s == all[tagged@.len() as int]);
                assert(rest@ =~= all.skip(tagged@.len() as int + 1));
            }
            tagged.push(Searcher { generation: g, segment_readers: s.segment_readers });
        }
        self.generation = g;
        self.items = tagged;
    }

    /// Takes one searcher out of the pool, if any is ready. The caller
    /// holds it until handing it back through [`Pool::release`].
    pub fn acquire(&mut self) -> (r: Option<LeasedItem>)
        ensures
            final(self).generation() == old(self).generation(),
            (r matches Some(l) ==> old(self).items().len() > 0 && l.searcher == old(self).items().last() && final(self).items() == old(self).items().drop_last()),
            (r is None ==> old(self).items().len() == 0 && final(self).items() == old(self).items()),
    {
        match self.items.pop() {
            Some(s) => Some(LeasedItem { searcher: s }),
            None => None,
        }
    }

    /// Hands a leased item back: it is re-enqueued if its generation is
    /// still the pool's, and dropped otherwise.
    pub fn release(&mut self, item: LeasedItem)
        ensures
            final(self).generation() == old(self).generation(),
            (item.searcher.generation == old(self).generation() ==> final(self).items() == old(self).items().push(item.searcher)),
            (item.searcher.generation != old(self).generation() ==> final(self).items() == old(self).items()),
    {
        if item.searcher.generation == self.generation {
            let LeasedItem { searcher } = item;
            self.items.push(searcher);
        }
    }
}

} // verus!
