use kvs::codec::{decode_record_at, encode_record, KvRecord, TAG_RM, TAG_PUT};
use kvs::KvsError;

fn put(key: &str, value: &str) -> KvRecord {
    KvRecord::Put { key: key.to_string(), value: value.to_string() }
}

fn rm(key: &str) -> KvRecord {
    KvRecord::Rm { key: key.to_string() }
}

#[test]
fn encode_put_exact_bytes() {
    let bytes = encode_record(&put("a", "b"));
    let mut expected = vec![TAG_PUT];
    expected.extend_from_slice(&1u64.to_le_bytes());
    expected.push(b'a');
    expected.extend_from_slice(&1u64.to_le_bytes());
    expected.push(b'b');
    assert_eq!(bytes, expected);
}

#[test]
fn encode_rm_exact_bytes() {
    let bytes = encode_record(&rm("key1"));
    let mut expected = vec![TAG_RM];
    expected.extend_from_slice(&4u64.to_le_bytes());
    expected.extend_from_slice(b"key1");
    assert_eq!(bytes, expected);
}

#[test]
fn decode_returns_what_was_encoded() {
    let rec = put("some key", "some value");
    let bytes = encode_record(&rec);
    let (back, used) = decode_record_at(&bytes, 0).expect("well-formed record");
    assert_eq!(back, rec);
    assert_eq!(used, bytes.len());
}

#[test]
fn decode_round_trips_non_ascii_strings() {
    let rec = put("clé", "värde\u{1F511}");
    let bytes = encode_record(&rec);
    let (back, used) = decode_record_at(&bytes, 0).expect("well-formed record");
    assert_eq!(back, rec);
    assert_eq!(used, bytes.len());
}

#[test]
fn concatenated_records_decode_one_by_one() {
    let recs = vec![put("a", "1"), rm("a"), put("b", "2"), put("a", "3")];
    let mut log: Vec<u8> = Vec::new();
    for r in &recs {
        log.extend_from_slice(&encode_record(r));
    }
    let mut pos = 0usize;
    let mut back = Vec::new();
    while pos < log.len() {
        let (r, n) = decode_record_at(&log, pos).expect("stream of records");
        back.push(r);
        pos += n;
    }
    assert_eq!(pos, log.len());
    assert_eq!(back, recs);
}

#[test]
fn truncated_record_is_an_io_error() {
    let mut bytes = encode_record(&put("key", "value"));
    bytes.pop();
    match decode_record_at(&bytes, 0) {
        Err(KvsError::IOError(_)) => {}
        other => panic!("expected IOError, got {:?}", other),
    }
}

#[test]
fn empty_input_is_an_io_error() {
    let bytes: Vec<u8> = Vec::new();
    match decode_record_at(&bytes, 0) {
        Err(KvsError::IOError(_)) => {}
        other => panic!("expected IOError, got {:?}", other),
    }
}

#[test]
fn unknown_tag_is_a_serialization_error() {
    let bytes = vec![7u8, 0, 0, 0, 0, 0, 0, 0, 0];
    match decode_record_at(&bytes, 0) {
        Err(KvsError::SerializationError(_)) => {}
        other => panic!("expected SerializationError, got {:?}", other),
    }
}

#[test]
fn invalid_utf8_is_a_serialization_error() {
    let mut bytes = vec![TAG_RM];
    bytes.extend_from_slice(&2u64.to_le_bytes());
    bytes.extend_from_slice(&[0xff, 0xfe]);
    match decode_record_at(&bytes, 0) {
        Err(KvsError::SerializationError(_)) => {}
        other => panic!("expected SerializationError, got {:?}", other),
    }
}

#[test]
fn decode_at_offset_ignores_earlier_bytes() {
    let first = encode_record(&put("x", "1"));
    let second = encode_record(&rm("x"));
    let mut log = first.clone();
    log.extend_from_slice(&second);
    let (r, n) = decode_record_at(&log, first.len()).expect("second record");
    assert_eq!(r, rm("x"));
    assert_eq!(n, second.len());
}
