use segindex::directory::Directory;
use segindex::errors::Error;
use segindex::index::Index;
use segindex::meta::Schema;
use segindex::ram_directory::RamDirectory;
use segindex::segment::SegmentId;
use segindex::NUM_SEARCHERS;

fn schema_s() -> Schema {
    Schema::new(vec![10, 20, 30])
}

#[test]
fn create_in_ram_empty_meta() {
    let index = Index::create_in_ram(schema_s());
    assert_eq!(index.docstamp().unwrap(), 0);
    assert!(index.segments().unwrap().is_empty());
    assert_eq!(index.schema().as_bytes().as_slice(), &[10u8, 20u8, 30u8]);
}

#[test]
fn create_then_open_yields_same_index() {
    let mut index = Index::create_in_ram(schema_s());
    let x = SegmentId { value: 71 };
    let y = SegmentId { value: 72 };
    index.publish_segments(&[x, y], 100).unwrap();
    let reopened = Index::open_directory(index.directory().box_clone()).unwrap();
    let ids: Vec<SegmentId> = reopened.segments().unwrap().iter().map(|s| s.id()).collect();
    assert_eq!(ids, vec![x, y]);
    assert_eq!(reopened.docstamp().unwrap(), 100);
    assert_eq!(reopened.schema(), index.schema());
}

#[test]
fn open_without_meta_does_not_exist() {
    let directory = RamDirectory::create();
    assert!(matches!(
        Index::open_directory(directory),
        Err(Error::DoesNotExist(_))
    ));
}

#[test]
fn open_with_torn_meta_is_corrupted() {
    let mut directory = RamDirectory::create();
    directory.atomic_write(b"meta.json", b"{\"segments\":[").unwrap();
    assert!(matches!(
        Index::open_directory(directory),
        Err(Error::CorruptedFile(_))
    ));
}

#[test]
fn publish_then_merge_replaces_segments() {
    let mut index = Index::create_in_ram(schema_s());
    let a = SegmentId { value: 1 };
    let b = SegmentId { value: 2 };
    let c = SegmentId { value: 3 };
    let m = SegmentId { value: 9 };
    index.publish_segments(&[a, b, c], 30).unwrap();
    index.publish_merge_segment(&[a, c], m).unwrap();
    let ids: Vec<SegmentId> = index.segments().unwrap().iter().map(|s| s.id()).collect();
    assert_eq!(ids, vec![b, m]);
    assert_eq!(index.docstamp().unwrap(), 30);
}

#[test]
fn merge_with_unknown_id_skips_it() {
    let mut index = Index::create_in_ram(schema_s());
    let a = SegmentId { value: 1 };
    let b = SegmentId { value: 2 };
    let unknown = SegmentId { value: 77 };
    let m = SegmentId { value: 9 };
    index.publish_segments(&[a, b], 5).unwrap();
    index.publish_merge_segment(&[unknown], m).unwrap();
    let ids: Vec<SegmentId> = index.segments().unwrap().iter().map(|s| s.id()).collect();
    assert_eq!(ids, vec![a, b, m]);
}

#[test]
fn new_segment_ids_differ() {
    let index = Index::create_in_ram(schema_s());
    let s1 = index.new_segment();
    let s2 = index.new_segment();
    assert_ne!(s1.id(), s2.id());
}

#[test]
fn writer_lockfile_is_exclusive() {
    let mut index = Index::create_in_ram(schema_s());
    let w = index.writer(1000).unwrap();
    assert!(w.num_threads >= 1);
    assert_eq!(w.heap_size_in_bytes, 1000);
    assert!(matches!(
        index.writer_with_num_threads(2, 1000),
        Err(Error::FileAlreadyExists(_))
    ));
}

#[test]
fn searcher_pool_exhausts_and_recovers() {
    let mut index = Index::create_in_ram(schema_s());
    let mut leases = Vec::new();
    for _ in 0..NUM_SEARCHERS {
        leases.push(index.searcher().unwrap());
    }
    assert!(index.searcher().is_none());
    let lease = leases.pop().unwrap();
    index.return_searcher(lease);
    assert!(index.searcher().is_some());
}

#[test]
fn searchers_reflect_published_segments() {
    let mut index = Index::create_in_ram(schema_s());
    let a = SegmentId { value: 4 };
    let b = SegmentId { value: 5 };
    index.publish_segments(&[a, b], 2).unwrap();
    let lease = index.searcher().unwrap();
    let ids: Vec<SegmentId> = lease
        .searcher()
        .segment_readers()
        .iter()
        .map(|r| r.segment_id())
        .collect();
    assert_eq!(ids, vec![a, b]);
    index.return_searcher(lease);
}

#[test]
fn stale_lease_is_dropped_on_return() {
    let mut index = Index::create_in_ram(schema_s());
    let lease = index.searcher().unwrap();
    index
        .publish_segments(&[SegmentId { value: 8 }], 1)
        .unwrap();
    index.return_searcher(lease);
    let mut count: usize = 0;
    while index.searcher().is_some() {
        count += 1;
        if count > NUM_SEARCHERS + 1 {
            break;
        }
    }
    assert_eq!(count, NUM_SEARCHERS);
}

#[test]
fn load_searchers_twice_same_segments() {
    let mut index = Index::create_in_ram(schema_s());
    index.publish_segments(&[SegmentId { value: 6 }], 3).unwrap();
    index.load_searchers().unwrap();
    let first = index.searcher().unwrap();
    let ids1: Vec<SegmentId> = first
        .searcher()
        .segment_readers()
        .iter()
        .map(|r| r.segment_id())
        .collect();
    index.return_searcher(first);
    index.load_searchers().unwrap();
    let second = index.searcher().unwrap();
    let ids2: Vec<SegmentId> = second
        .searcher()
        .segment_readers()
        .iter()
        .map(|r| r.segment_id())
        .collect();
    assert_eq!(ids1, ids2);
    index.return_searcher(second);
}

#[test]
fn meta_file_on_disk_matches_memory() {
    let mut index = Index::create_in_ram(schema_s());
    index
        .publish_segments(&[SegmentId { value: 11 }], 7)
        .unwrap();
    let bytes = index.directory().open_read(b"meta.json").unwrap();
    let parsed = segindex::meta_json::parse_meta(bytes.as_slice()).unwrap();
    assert_eq!(parsed.segments, vec![SegmentId { value: 11 }]);
    assert_eq!(parsed.docstamp, 7);
    assert_eq!(parsed.schema, index.schema());
}

#[test]
fn from_directory_writes_initial_meta() {
    let directory = RamDirectory::create();
    let index = Index::from_directory(directory, schema_s()).unwrap();
    assert_eq!(index.docstamp().unwrap(), 0);
    let bytes = index.directory().open_read(b"meta.json").unwrap();
    let parsed = segindex::meta_json::parse_meta(bytes.as_slice()).unwrap();
    assert!(parsed.segments.is_empty());
    assert_eq!(parsed.docstamp, 0);
}
