use segindex::meta::{IndexMeta, Schema};
use segindex::meta_json::{encode_meta, parse_meta};
use segindex::segment::SegmentId;

fn sample_meta() -> IndexMeta {
    IndexMeta {
        segments: vec![SegmentId { value: 1 }, SegmentId { value: 2 }],
        schema: Schema::new(vec![104, 105]),
        docstamp: 42,
    }
}

#[test]
fn encode_meta_exact_bytes() {
    let bytes = encode_meta(&sample_meta());
    assert_eq!(
        bytes.as_slice(),
        b"{\"segments\":[1,2],\"schema\":[104,105],\"docstamp\":42}\n".as_ref()
    );
}

#[test]
fn encode_meta_exact_bytes_empty() {
    let meta = IndexMeta {
        segments: Vec::new(),
        schema: Schema::new(Vec::new()),
        docstamp: 0,
    };
    let bytes = encode_meta(&meta);
    assert_eq!(
        bytes.as_slice(),
        b"{\"segments\":[],\"schema\":[],\"docstamp\":0}\n".as_ref()
    );
}

#[test]
fn meta_round_trips_through_bytes() {
    let meta = sample_meta();
    let bytes = encode_meta(&meta);
    let parsed = parse_meta(bytes.as_slice()).unwrap();
    assert_eq!(parsed.segments, meta.segments);
    assert_eq!(parsed.schema, meta.schema);
    assert_eq!(parsed.docstamp, meta.docstamp);
}

#[test]
fn meta_round_trips_large_values() {
    let meta = IndexMeta {
        segments: vec![SegmentId { value: u128::MAX }, SegmentId { value: 0 }],
        schema: Schema::new(vec![0, 255, 10, 34, 92]),
        docstamp: u64::MAX,
    };
    let bytes = encode_meta(&meta);
    let parsed = parse_meta(bytes.as_slice()).unwrap();
    assert_eq!(parsed.segments, meta.segments);
    assert_eq!(parsed.schema, meta.schema);
    assert_eq!(parsed.docstamp, meta.docstamp);
}

#[test]
fn parse_rejects_garbage() {
    assert!(parse_meta(b"not json at all").is_none());
    assert!(parse_meta(b"").is_none());
    assert!(parse_meta(b"{\"segments\":[01],\"schema\":[],\"docstamp\":0}\n").is_none());
    assert!(parse_meta(b"{\"segments\":[],\"schema\":[],\"docstamp\":0}").is_none());
    assert!(parse_meta(b"{\"segments\":[],\"schema\":[256],\"docstamp\":0}\n").is_none());
    assert!(parse_meta(b"{\"segments\":[],\"schema\":[],\"docstamp\":18446744073709551616}\n")
        .is_none());
}
