//! The index coordinator: owns the directory, the meta record and the
//! searcher pool, and mediates between mutation, durability and query.
//!
//! The segment-publication protocol is: update the in-memory meta, persist
//! it through the directory's atomic write, then replace the searcher pool
//! with a new generation. On a persistence failure the in-memory meta is
//! rolled back, so memory always matches disk after every operation.

use vstd::prelude::*;

use crate::directory::Directory;
use crate::errors::{Error, FileError};
use crate::meta::{IndexMeta, MetaView, Schema};
use crate::meta_json::{encode_meta, parse_meta, spec_encode_meta};
use crate::pool::{searcher_seg_ids, LeasedItem, Pool, Searcher};
use crate::ram_directory::RamDirectory;
use crate::segment::{Segment, SegmentId, SegmentReader};
use crate::NUM_SEARCHERS;

verus! {

/// The bytes of `meta.json`, the fixed path of the meta record.
pub open spec fn meta_path() -> Seq<u8> {
    seq![109u8, 101u8, 116u8, 97u8, 46u8, 106u8, 115u8, 111u8, 110u8]
}

/// The bytes of `writer.lock`, the lockfile guarding writer exclusivity.
pub open spec fn lock_path() -> Seq<u8> {
    seq![119u8, 114u8, 105u8, 116u8, 101u8, 114u8, 46u8, 108u8, 111u8, 99u8, 107u8]
}

/// The path of the meta record as a vector.
pub fn meta_filepath() -> (r: Vec<u8>)
    ensures
        r@ == meta_path(),
{
    let mut v: Vec<u8> = Vec::new();
    v.push(109);
    v.push(101);
    v.push(116);
    v.push(97);
    v.push(46);
    v.push(106);
    v.push(115);
    v.push(111);
    v.push(110);
    proof {
        assert(v@ =~= meta_path());
    }
    v
}

/// The path of the writer lockfile as a vector.
pub fn lock_filepath() -> (r: Vec<u8>)
    ensures
        r@ == lock_path(),
{
    let mut v: Vec<u8> = Vec::new();
    v.push(119);
    v.push(114);
    v.push(105);
    v.push(116);
    v.push(101);
    v.push(114);
    v.push(46);
    v.push(108);
    v.push(111);
    v.push(99);
    v.push(107);
    proof {
        assert(v@ =~= lock_path());
    }
    v
}

/// Relies on `num_cpus::get`: the number of available logical CPUs,
/// which its documentation promises is always at least one.
#[verifier::external_body]
fn available_cpus() -> (r: usize)
    ensures
        1 <= r,
{
    num_cpus::get()
}

/// A handle on writer exclusivity: it exists only while the writer
/// lockfile is held. Ingestion itself is the external writer pipeline's
/// business; the coordinator only guards its mutual exclusion.
#[derive(Debug)]
pub struct IndexWriter {
    /// Number of indexing threads the writer runs.
    pub num_threads: usize,
    /// Heap budget of the writer, in bytes.
    pub heap_size_in_bytes: usize,
}

/// The search index coordinator.
pub struct Index<D: Directory> {
    metas: IndexMeta,
    directory: D,
    schema: Schema,
    searcher_pool: Pool,
}

impl<D: Directory> Index<D> {
    /// The current meta record.
    pub closed spec fn meta(&self) -> MetaView {
        self.metas@
    }

    /// The directory's contents.
    pub closed spec fn dir_files(&self) -> Map<Seq<u8>, Seq<u8>> {
        self.directory.files()
    }

    /// The pool's generation counter.
    pub closed spec fn pool_generation(&self) -> u64 {
        self.searcher_pool.generation()
    }

    /// The pooled searchers.
    pub closed spec fn pool_items(&self) -> Seq<Searcher> {
        self.searcher_pool.items()
    }

    /// The directory's own well-formedness.
    pub closed spec fn dir_inv(&self) -> bool {
        self.directory.inv()
    }

    /// The pool-independent part of well-formedness: the cached schema
    /// matches the meta's and the directory is internally consistent.
    pub closed spec fn base_wf(&self) -> bool {
        self.schema@ == self.metas@.schema && self.directory.inv()
    }

    /// Well-formedness: the cached schema matches the meta's, the
    /// directory is internally consistent, and every pooled searcher is
    /// of the current generation and stands on exactly the meta's
    /// segments, in order.
    pub closed spec fn wf(&self) -> bool {
        &&& self.schema@ == self.metas@.schema
        &&& self.directory.inv()
        &&& forall|k: int|
            0 <= k < self.searcher_pool.items().len() ==> (
            (#[trigger] self.searcher_pool.items()[k]).generation == self.searcher_pool.generation()
                && searcher_seg_ids(self.searcher_pool.items()[k]) == self.metas@.segments)
    }

    /// Builds one fresh searcher per pool slot over the current segments
    /// and publishes them as a new generation.
    fn regenerate_pool(&mut self)
        requires
            old(self).base_wf(),
            old(self).pool_generation() < u64::MAX,
        ensures
            final(self).wf(),
            final(self).meta() == old(self).meta(),
            final(self).dir_files() == old(self).dir_files(),
            final(self).pool_generation() == old(self).pool_generation() + 1,
            final(self).pool_items().len() == NUM_SEARCHERS,
            forall|k: int|
                0 <= k < final(self).pool_items().len() ==> searcher_seg_ids(
                    #[trigger] final(self).pool_items()[k],
                ) == final(self).meta().segments,
    {
        let mut items: Vec<Searcher> = Vec::new();
        let mut n: usize = 0;
        while n < NUM_SEARCHERS
            invariant
                0 <= n <= NUM_SEARCHERS,
                items@.len() == n,
                forall|k: int|
                    0 <= k < n ==> searcher_seg_ids(#[trigger] items@[k]) == self.metas@.segments,
            decreases NUM_SEARCHERS - n,
        {
            let mut readers: Vec<SegmentReader> = Vec::new();
            let mut t: usize = 0;
            while t < self.metas.segments.len()
                invariant
                    0 <= t <= self.metas.segments@.len(),
                    readers@.len() == t,
                    forall|u: int|
                        0 <= u < t ==> (#[trigger] readers@[u]).segment.id
                            == self.metas.segments@[u],
                decreases self.metas.segments@.len() - t,
            {
                readers.push(SegmentReader::open(Segment::new(self.metas.segments[t])));
                t += 1;
            }
            let s = Searcher { generation: 0, segment_readers: readers };
            proof {
                assert(searcher_seg_ids(s) =~= self.metas@.segments);
            }
            items.push(s);
            n += 1;
        }
        let ghost items_v = items@;
        self.searcher_pool.publish_new_generation(items);
        proof {
            assert forall|k: int|
                0 <= k < self.searcher_pool.items().len() implies searcher_seg_ids(
                #[trigger] self.searcher_pool.items()[k]) == self.metas@.segments by {
                assert(searcher_seg_ids(self.searcher_pool.items()[k]) =~= searcher_seg_ids(
                    items_v[k],
                ));
            }
        }
    }

    /// Serializes the current meta and writes it at `meta.json` through
    /// the directory's atomic write: afterwards the directory holds
    /// exactly the encoding of the in-memory meta, or, on failure, what
    /// it held before.
    pub fn save_metas(&mut self) -> (r: Result<(), Error>)
        requires
            old(self).dir_inv(),
        ensures
            final(self).dir_inv(),
            (old(self).wf() ==> final(self).wf()),
            (old(self).base_wf() ==> final(self).base_wf()),
            final(self).meta() == old(self).meta(),
            final(self).pool_generation() == old(self).pool_generation(),
            final(self).pool_items() == old(self).pool_items(),
            (r matches Ok(u) ==> final(self).dir_files() == old(self).dir_files().insert(
                meta_path(),
                spec_encode_meta(final(self).meta()),
            )),
            (r matches Err(e) ==> e == Error::IoError && final(self).dir_files() == old(self).dir_files()),
    {
        let bytes = encode_meta(&self.metas);
        let path = meta_filepath();
        match self.directory.atomic_write(path.as_slice(), bytes.as_slice()) {
            Ok(u) => Ok(u),
            Err(_) => Err(Error::IoError),
        }
    }

    /// Builds exactly `NUM_SEARCHERS` fresh searchers over the current
    /// segment set and publishes them as a new pool generation. Two
    /// successive calls hand out searchers over the same segment set,
    /// since the meta is untouched.
    pub fn load_searchers(&mut self) -> (r: Result<(), Error>)
        requires
            old(self).wf(),
            old(self).pool_generation() < u64::MAX,
        ensures
            r matches Ok(u),
            final(self).wf(),
            final(self).meta() == old(self).meta(),
            final(self).dir_files() == old(self).dir_files(),
            final(self).pool_generation() == old(self).pool_generation() + 1,
            final(self).pool_items().len() == NUM_SEARCHERS,
            forall|k: int|
                0 <= k < final(self).pool_items().len() ==> searcher_seg_ids(
                    #[trigger] final(self).pool_items()[k],
                ) == final(self).meta().segments,
    {
        self.regenerate_pool();
        Ok(())
    }

    /// Appends `segment_ids` to the searchable segments, sets the
    /// docstamp, persists the meta atomically, and regenerates the
    /// searcher pool. On a persistence failure the in-memory meta is
    /// rolled back and nothing is changed.
    pub fn publish_segments(&mut self, segment_ids: &[SegmentId], docstamp: u64) -> (r: Result<
        (),
        Error,
    >)
        requires
            old(self).wf(),
            old(self).pool_generation() < u64::MAX,
            docstamp >= old(self).meta().docstamp,
        ensures
            final(self).wf(),
            (r matches Ok(u) ==> final(self).meta().segments == old(self).meta().segments
                + segment_ids@ && final(self).meta().docstamp == docstamp && final(self).meta().schema == old(self).meta().schema && final(self).dir_files() == old(self).dir_files().insert(meta_path(), spec_encode_meta(final(self).meta())) && final(self).pool_items().len() == NUM_SEARCHERS),
            (r matches Err(e) ==> e == Error::IoError && final(self).meta() == old(self).meta()
                && final(self).dir_files() == old(self).dir_files() && final(self).pool_items()
                == old(self).pool_items()),
    {
        let snapshot = self.metas.clone();
        let ghost segs0 = self.metas@.segments;
        let mut k: usize = 0;
        while k < segment_ids.len()
            invariant
                0 <= k <= segment_ids@.len(),
                self.metas@.segments == segs0 + segment_ids@.take(k as int),
                self.metas@.schema == old(self).meta().schema,
                self.metas@.docstamp == old(self).meta().docstamp,
                self.schema == old(self).schema,
                self.directory == old(self).directory,
                self.searcher_pool == old(self).searcher_pool,
            decreases segment_ids@.len() - k,
        {
            self.metas.segments.push(segment_ids[k]);
            proof {
                assert(segs0 + segment_ids@.take(k as int + 1) =~= (segs0 + segment_ids@.take(
                    k as int,
                )).push(segment_ids@[k as int]));
            }
            k += 1;
        }
        proof {
            assert(segs0 + segment_ids@.take(segment_ids@.len() as int) =~= segs0 + segment_ids@);
        }
        self.metas.docstamp = docstamp;
        proof {
            assert(self.base_wf());
        }
        match self.save_metas() {
            Ok(_) => {
                self.regenerate_pool();
                proof {
                    assert(self.wf());
                }
                Ok(())
            },
            Err(_) => {
                self.metas = snapshot;
                proof {
                    assert forall|k: int|
                        0 <= k < self.searcher_pool.items().len() implies (
                    (#[trigger] self.searcher_pool.items()[k]).generation
                        == self.searcher_pool.generation() && searcher_seg_ids(
                        self.searcher_pool.items()[k],
                    ) == self.metas@.segments) by {
                        assert(self.searcher_pool.items()[k] == old(self).pool_items()[k]);
                        assert(old(self).pool_items()[k].generation == old(
                            self,
                        ).pool_generation());
                        assert(searcher_seg_ids(old(self).pool_items()[k]) == old(
                            self,
                        ).meta().segments);
                    };
                    assert(self.schema@ == self.metas@.schema);
                    assert(self.directory.inv());
                    assert(self.wf());
                }
                Err(Error::IoError)
            },
        }
    }

    /// Exchanges the set `segment_merged_ids` for the single merged
    /// segment `merged_segment_id`: merged identifiers leave the segment
    /// list, the relative order of the others is kept, and the merged
    /// segment stands at the end. An identifier not currently in the
    /// segment list is skipped. The docstamp is unchanged; the meta is
    /// persisted and the pool regenerated as in segment publication.
    pub fn publish_merge_segment(
        &mut self,
        segment_merged_ids: &[SegmentId],
        merged_segment_id: SegmentId,
    ) -> (r: Result<(), Error>)
        requires
            old(self).wf(),
            old(self).pool_generation() < u64::MAX,
        ensures
            final(self).wf(),
            (r matches Ok(u) ==> final(self).meta().segments == crate::meta::segments_after_merge(
                old(self).meta().segments,
                segment_merged_ids@,
                merged_segment_id,
            ) && final(self).meta().docstamp == old(self).meta().docstamp && final(self).meta().schema == old(self).meta().schema && final(self).dir_files() == old(self).dir_files().insert(meta_path(), spec_encode_meta(final(self).meta())) && final(self).pool_items().len() == NUM_SEARCHERS),
            (r matches Err(e) ==> e == Error::IoError && final(self).meta() == old(self).meta()
                && final(self).dir_files() == old(self).dir_files() && final(self).pool_items()
                == old(self).pool_items()),
    {
        let snapshot = self.metas.clone();
        let merged = crate::meta::merge_segment_list(
            self.metas.segments.as_slice(),
            segment_merged_ids,
            merged_segment_id,
        );
        self.metas.segments = merged;
        proof {
            assert(self.directory.inv());
        }
        match self.save_metas() {
            Ok(_) => {
                self.regenerate_pool();
                Ok(())
            },
            Err(_) => {
                self.metas = snapshot;
                proof {
                    assert forall|k: int|
                        0 <= k < self.searcher_pool.items().len() implies (
                    (#[trigger] self.searcher_pool.items()[k]).generation
                        == self.searcher_pool.generation() && searcher_seg_ids(
                        self.searcher_pool.items()[k],
                    ) == self.metas@.segments) by {
                        assert(self.searcher_pool.items()[k] == old(self).pool_items()[k]);
                        assert(old(self).pool_items()[k].generation == old(
                            self,
                        ).pool_generation());
                        assert(searcher_seg_ids(old(self).pool_items()[k]) == old(
                            self,
                        ).meta().segments);
                    };
                }
                Err(Error::IoError)
            },
        }
    }

    /// The current committed docstamp.
    pub fn docstamp(&self) -> (r: Result<u64, Error>)
        ensures
            r matches Ok(d) && d == self.meta().docstamp,
    {
        Ok(self.metas.docstamp)
    }

    /// A copy of the index schema.
    pub fn schema(&self) -> (r: Schema)
        requires
            self.wf(),
        ensures
            r@ == self.meta().schema,
    {
        self.schema.clone()
    }

    /// Handles on the currently searchable segments, in search order.
    pub fn segments(&self) -> (r: Result<Vec<Segment>, Error>)
        ensures
            (r matches Ok(v) && v@.map_values(|s: Segment| s.id) == self.meta().segments),
    {
        let mut out: Vec<Segment> = Vec::new();
        let mut k: usize = 0;
        while k < self.metas.segments.len()
            invariant
                0 <= k <= self.metas.segments@.len(),
                out@.len() == k,
                forall|t: int| 0 <= t < k ==> (#[trigger] out@[t]).id == self.metas.segments@[t],
            decreases self.metas.segments@.len() - k,
        {
            out.push(Segment::new(self.metas.segments[k]));
            k += 1;
        }
        proof {
            assert(out@.map_values(|s: Segment| s.id) =~= self.meta().segments);
        }
        Ok(out)
    }

    /// A handle on a brand-new segment with a freshly generated random
    /// identifier. Nothing is touched on storage.
    pub fn new_segment(&self) -> (r: Segment) {
        Segment::new(SegmentId::generate_random())
    }

    /// A reference to the index directory.
    pub fn directory(&self) -> (r: &D)
        requires
            self.wf(),
        ensures
            r.files() == self.dir_files(),
            r.inv(),
    {
        &self.directory
    }

    /// Opens the writer lockfile and hands out the writer handle; fails
    /// with `FileAlreadyExists` exactly when the lockfile is already
    /// held. The handle records the thread count and heap budget for the
    /// external ingestion pipeline.
    pub fn writer_with_num_threads(&mut self, num_threads: usize, heap_size_in_bytes: usize) -> (r:
        Result<IndexWriter, Error>)
        requires
            old(self).wf(),
        ensures
            final(self).wf(),
            final(self).meta() == old(self).meta(),
            final(self).pool_items() == old(self).pool_items(),
            (r matches Ok(w) ==> !old(self).dir_files().contains_key(lock_path()) && final(self).dir_files() == old(self).dir_files().insert(lock_path(), Seq::<u8>::empty())
                && w.num_threads == num_threads && w.heap_size_in_bytes == heap_size_in_bytes),
            (old(self).dir_files().contains_key(lock_path()) ==> (r matches Err(e) && (
            e matches Error::FileAlreadyExists(p) && p@ == lock_path()) && final(self).dir_files()
                == old(self).dir_files())),
            (r matches Err(e) ==> final(self).dir_files() == old(self).dir_files() && (
            e matches Error::FileAlreadyExists(p) ==> old(self).dir_files().contains_key(
                lock_path(),
            ))),
    {
        let path = lock_filepath();
        match self.directory.open_write(path.as_slice()) {
            Ok(_w) => Ok(IndexWriter { num_threads, heap_size_in_bytes }),
            Err(e) => Err(Error::from_open_write_error(e, path.as_slice())),
        }
    }

    /// As [`Index::writer_with_num_threads`], with one thread per
    /// available CPU.
    pub fn writer(&mut self, heap_size_in_bytes: usize) -> (r: Result<IndexWriter, Error>)
        requires
            old(self).wf(),
        ensures
            final(self).wf(),
            final(self).meta() == old(self).meta(),
            final(self).pool_items() == old(self).pool_items(),
            (r matches Ok(w) ==> !old(self).dir_files().contains_key(lock_path()) && final(self).dir_files() == old(self).dir_files().insert(lock_path(), Seq::<u8>::empty())
                && w.num_threads >= 1 && w.heap_size_in_bytes == heap_size_in_bytes),
            (old(self).dir_files().contains_key(lock_path()) ==> (r matches Err(e) && (
            e matches Error::FileAlreadyExists(p) && p@ == lock_path()) && final(self).dir_files()
                == old(self).dir_files())),
            (r matches Err(e) ==> final(self).dir_files() == old(self).dir_files()),
    {
        let n = available_cpus();
        self.writer_with_num_threads(n, heap_size_in_bytes)
    }

    /// Takes a searcher from the pool, or nothing when every searcher is
    /// leased out. Every searcher handed out stands on exactly the
    /// currently published segment set.
    pub fn searcher(&mut self) -> (r: Option<LeasedItem>)
        requires
            old(self).wf(),
        ensures
            final(self).wf(),
            final(self).meta() == old(self).meta(),
            final(self).dir_files() == old(self).dir_files(),
            final(self).pool_generation() == old(self).pool_generation(),
            (r matches Some(l) ==> searcher_seg_ids(l.searcher) == final(self).meta().segments
                && l.searcher.generation == final(self).pool_generation() && final(self).pool_items() == old(self).pool_items().drop_last()),
            (r is None ==> old(self).pool_items().len() == 0 && final(self).pool_items() == old(self).pool_items()),
    {
        let r = self.searcher_pool.acquire();
        proof {
            let oi = old(self).pool_items();
            if oi.len() > 0 {
                assert(oi.last() == oi[oi.len() - 1]);
                assert(oi[oi.len() - 1].generation == old(self).pool_generation());
                assert(searcher_seg_ids(oi[oi.len() - 1]) == old(self).meta().segments);
                assert forall|k: int|
                    0 <= k < self.searcher_pool.items().len() implies (
                (#[trigger] self.searcher_pool.items()[k]).generation
                    == self.searcher_pool.generation() && searcher_seg_ids(
                    self.searcher_pool.items()[k],
                ) == self.metas@.segments) by {
                    assert(self.searcher_pool.items()[k] == oi[k]);
                    assert(oi[k].generation == old(self).pool_generation());
                    assert(searcher_seg_ids(oi[k]) == old(self).meta().segments);
                };
            }
        }
        r
    }

    /// Hands a leased searcher back to the pool; one from an older
    /// generation is dropped instead of re-enqueued.
    pub fn return_searcher(&mut self, item: LeasedItem)
        requires
            old(self).wf(),
            item.searcher.generation == old(self).pool_generation() ==> searcher_seg_ids(
                item.searcher,
            ) == old(self).meta().segments,
        ensures
            final(self).wf(),
            final(self).meta() == old(self).meta(),
            final(self).dir_files() == old(self).dir_files(),
            final(self).pool_generation() == old(self).pool_generation(),
            (item.searcher.generation == old(self).pool_generation() ==> final(self).pool_items()
                == old(self).pool_items().push(item.searcher)),
            (item.searcher.generation != old(self).pool_generation() ==> final(self).pool_items()
                == old(self).pool_items()),
    {
        self.searcher_pool.release(item);
        proof {
            let oi = old(self).pool_items();
            assert forall|k: int|
                0 <= k < self.searcher_pool.items().len() implies (
            (#[trigger] self.searcher_pool.items()[k]).generation == self.searcher_pool.generation()
                && searcher_seg_ids(self.searcher_pool.items()[k]) == self.metas@.segments) by {
                if item.searcher.generation == old(self).pool_generation() {
                    if k < oi.len() {
                        assert(self.searcher_pool.items()[k] == oi[k]);
                        assert(oi[k].generation == old(self).pool_generation());
                        assert(searcher_seg_ids(oi[k]) == old(self).meta().segments);
                    } else {
                        assert(self.searcher_pool.items()[k] == item.searcher);
                    }
                } else {
                    assert(self.searcher_pool.items()[k] == oi[k]);
                    assert(oi[k].generation == old(self).pool_generation());
                    assert(searcher_seg_ids(oi[k]) == old(self).meta().segments);
                }
            };
        }
    }
}

impl Index<RamDirectory> {
    /// A new index held entirely in memory, for tests: empty segments,
    /// docstamp zero, the initial meta already persisted in the
    /// in-memory directory.
    pub fn create_in_ram(schema: Schema) -> (r: Index<RamDirectory>)
        ensures
            r.wf(),
            r.meta().segments == Seq::<SegmentId>::empty(),
            r.meta().docstamp == 0,
            r.meta().schema == schema@,
            r.dir_files() == Map::<Seq<u8>, Seq<u8>>::empty().insert(
                meta_path(),
                spec_encode_meta(r.meta()),
            ),
            r.pool_items().len() == NUM_SEARCHERS,
    {
        let schema_cache = schema.clone();
        let metas = IndexMeta::with_schema(schema);
        let directory = RamDirectory::create();
        let mut index = Index {
            metas,
            directory,
            schema: schema_cache,
            searcher_pool: Pool::new(),
        };
        let bytes = encode_meta(&index.metas);
        let path = meta_filepath();
        index.directory.ram_atomic_write(path.as_slice(), bytes.as_slice());
        index.regenerate_pool();
        index
    }
}

impl<D: Directory> Index<D> {
    /// A new index over the given directory: writes the initial meta
    /// (empty segments, docstamp zero) and builds the first searcher
    /// generation. Fails only if the directory's atomic write does.
    pub fn from_directory(directory: D, schema: Schema) -> (r: Result<Index<D>, Error>)
        requires
            directory.inv(),
        ensures
            (r matches Ok(ix) ==> ix.wf() && ix.meta().segments == Seq::<SegmentId>::empty()
                && ix.meta().docstamp == 0 && ix.meta().schema == schema@ && ix.dir_files()
                == directory.files().insert(meta_path(), spec_encode_meta(ix.meta()))
                && ix.pool_items().len() == NUM_SEARCHERS),
            (r matches Err(e) ==> e == Error::IoError),
    {
        let schema_cache = schema.clone();
        let metas = IndexMeta::with_schema(schema);
        let mut index = Index {
            metas,
            directory,
            schema: schema_cache,
            searcher_pool: Pool::new(),
        };
        match index.save_metas() {
            Ok(_) => {
                index.regenerate_pool();
                Ok(index)
            },
            Err(_) => Err(Error::IoError),
        }
    }

    /// Opens an index from a directory already holding a meta record at
    /// `meta.json`. A missing record is `DoesNotExist`; one that is not
    /// the canonical encoding of any meta is `CorruptedFile`. When the
    /// directory holds the encoding of some meta, that meta is what the
    /// opened index carries.
    pub fn open_directory(directory: D) -> (r: Result<Index<D>, Error>)
        requires
            directory.inv(),
        ensures
            (r matches Ok(ix) ==> ix.wf() && directory.files().contains_key(meta_path())
                && directory.files()[meta_path()] == spec_encode_meta(ix.meta()) && ix.dir_files()
                == directory.files() && ix.pool_items().len() == NUM_SEARCHERS),
            forall|mv: MetaView|
                (directory.files().contains_key(meta_path()) && directory.files()[meta_path()]
                    == spec_encode_meta(mv)) ==> ((r matches Ok(ix) && ix.meta() == mv) || (
                r matches Err(e) && e == Error::IoError)),
            ((r matches Err(e) && e matches Error::DoesNotExist(p)) ==> !directory.files(
            ).contains_key(meta_path())),
            (!directory.files().contains_key(meta_path()) ==> (r matches Err(e) && (
            e matches Error::DoesNotExist(p) && p@ == meta_path()))),
    {
        let path = meta_filepath();
        let source = match directory.open_read(path.as_slice()) {
            Ok(s) => s,
            Err(e) => {
                proof {
                    if e == FileError::IoError {
                        assert(directory.files().contains_key(meta_path()));
                    }
                }
                return Err(Error::from_file_error(e, path.as_slice()));
            },
        };
        let metas = match parse_meta(source.as_slice()) {
            Some(m) => m,
            None => {
                return Err(Error::CorruptedFile(path));
            },
        };
        let schema_cache = metas.schema.clone();
        let mut index = Index {
            metas,
            directory,
            schema: schema_cache,
            searcher_pool: Pool::new(),
        };
        index.regenerate_pool();
        Ok(index)
    }
}

impl<D: Directory> Index<D> {
    /// A deep, independently owned snapshot of this index: same meta,
    /// same directory contents, and a freshly built searcher pool of its
    /// own.
    pub fn box_clone(&self) -> (r: Index<D>)
        requires
            self.wf(),
        ensures
            r.wf(),
            r.meta() == self.meta(),
            r.dir_files() == self.dir_files(),
            r.pool_items().len() == NUM_SEARCHERS,
    {
        let mut r = Index {
            metas: self.metas.clone(),
            directory: self.directory.box_clone(),
            schema: self.schema.clone(),
            searcher_pool: Pool::new(),
        };
        r.regenerate_pool();
        r
    }
}

} // verus!
