use checkpoint_resume::codec::{decode_record, decode_u64_blob, encode_record, encode_u64_blob};
use checkpoint_resume::progress::{NestedProgress, StepProgress};
use checkpoint_resume::record::Record;
use checkpoint_resume::resource::ResourceMap;
use checkpoint_resume::state::State;
use checkpoint_resume::storage::Storage;
use checkpoint_resume::StoreError;

fn le8(v: u64) -> Vec<u8> {
    v.to_le_bytes().to_vec()
}

#[test]
fn u64_blob_round_trip() {
    let b = encode_u64_blob(6);
    assert_eq!(b, le8(6));
    assert_eq!(decode_u64_blob(&b), Some(6));
    assert_eq!(decode_u64_blob(&vec![1, 2, 3]), None);
}

#[test]
fn record_codec_round_trip() {
    let entries: Vec<(u64, Vec<u8>)> = vec![(1, vec![6, 7]), (2, vec![]), (9, vec![255])];
    let bytes = encode_record(&entries);
    let back = decode_record(&bytes).expect("decodes");
    assert_eq!(back, entries);
}

#[test]
fn record_codec_exact_bytes() {
    let entries: Vec<(u64, Vec<u8>)> = vec![(1, le8(6)), (2, le8(11))];
    let bytes = encode_record(&entries);
    let mut expected = le8(2);
    expected.extend(le8(1));
    expected.extend(le8(8));
    expected.extend(le8(6));
    expected.extend(le8(2));
    expected.extend(le8(8));
    expected.extend(le8(11));
    assert_eq!(bytes, expected);
}

#[test]
fn record_codec_rejects_truncation() {
    let entries: Vec<(u64, Vec<u8>)> = vec![(1, vec![6, 7])];
    let mut bytes = encode_record(&entries);
    bytes.pop();
    assert!(decode_record(&bytes).is_none());
}

#[test]
fn record_codec_rejects_trailing_bytes() {
    let entries: Vec<(u64, Vec<u8>)> = vec![(1, vec![6, 7])];
    let mut bytes = encode_record(&entries);
    bytes.push(0);
    assert!(decode_record(&bytes).is_none());
}

#[test]
fn file_name_is_prefix_and_decimal() {
    let st = State::new(973298479, StepProgress { step: 0, x: 0, y: 0 });
    assert_eq!(st.file_name(), "state-973298479");
    let st0 = State::new(0, StepProgress { step: 0, x: 0, y: 0 });
    assert_eq!(st0.file_name(), "state-0");
}

#[test]
fn storage_write_read_remove() {
    let mut storage = Storage::new();
    assert!(!storage.contains(5));
    storage.write(5, vec![1, 2]);
    assert!(storage.contains(5));
    assert_eq!(storage.read(5), Some(&vec![1, 2]));
    storage.write(5, vec![3]);
    assert_eq!(storage.read(5), Some(&vec![3]));
    storage.remove(5);
    assert!(!storage.contains(5));
    assert_eq!(storage.read(5), None);
}

#[test]
fn persist_then_load_round_trip() {
    let mut storage = Storage::new();
    let st = State::new(42, StepProgress { step: 1, x: 5, y: 10 });
    st.serialize_data(&mut storage);
    assert!(storage.contains(42));

    let mut st2 = State::new(42, StepProgress { step: 0, x: 0, y: 0 });
    assert_eq!(st2.deserialize_data(&mut storage), Ok(()));
    assert_eq!(st2.data, StepProgress { step: 1, x: 5, y: 10 });
    // the record is consumed by the load
    assert!(!storage.contains(42));
}

#[test]
fn completed_store_never_persists() {
    let mut storage = Storage::new();
    let mut st = State::new(42, StepProgress { step: 2, x: 101, y: 202 });
    st.mark_completed();
    st.serialize_data(&mut storage);
    assert!(!storage.contains(42));
}

#[test]
fn load_is_idempotent_when_no_record_exists() {
    let mut storage = Storage::new();
    let mut st = State::new(42, StepProgress { step: 1, x: 7, y: 14 });
    assert_eq!(st.deserialize_data(&mut storage), Ok(()));
    let after_first = st.data;
    assert_eq!(st.deserialize_data(&mut storage), Ok(()));
    assert_eq!(st.data, after_first);
}

#[test]
fn load_twice_after_persist_consumes_once() {
    let mut storage = Storage::new();
    let st = State::new(42, StepProgress { step: 1, x: 3, y: 6 });
    st.serialize_data(&mut storage);

    let mut st2 = State::new(42, StepProgress { step: 0, x: 0, y: 0 });
    assert_eq!(st2.deserialize_data(&mut storage), Ok(()));
    assert_eq!(st2.data, StepProgress { step: 1, x: 3, y: 6 });
    // second load in a row: record is gone, value stays, no error
    assert_eq!(st2.deserialize_data(&mut storage), Ok(()));
    assert_eq!(st2.data, StepProgress { step: 1, x: 3, y: 6 });
}

#[test]
fn corrupt_record_is_fatal_and_left_in_place() {
    let mut storage = Storage::new();
    storage.write(42, vec![1, 2, 3]);
    let mut st = State::new(42, StepProgress { step: 0, x: 0, y: 0 });
    assert_eq!(st.deserialize_data(&mut storage), Err(StoreError::CodecFailure));
    assert_eq!(st.data, StepProgress { step: 0, x: 0, y: 0 });
    assert!(storage.contains(42));
}

#[test]
fn nested_progress_round_trip() {
    let mut storage = Storage::new();
    let st = State::new(7, NestedProgress { step: 0, a: vec![0, 1, 2] });
    st.serialize_data(&mut storage);
    let mut st2 = State::new(7, NestedProgress { step: 0, a: vec![] });
    assert_eq!(st2.deserialize_data(&mut storage), Ok(()));
    assert_eq!(st2.data.step, 0);
    assert_eq!(st2.data.a, vec![0, 1, 2]);
}

#[test]
fn resource_map_take_after_put() {
    let mut m = ResourceMap::new();
    m.put(1, vec![6, 0]);
    assert_eq!(m.take(1), Some(vec![6, 0]));
    assert_eq!(m.take(1), None);
}

#[test]
fn resource_map_put_replaces() {
    let mut m = ResourceMap::new();
    m.put(1, vec![6]);
    m.put(2, vec![7]);
    m.put(1, vec![8]);
    assert_eq!(m.len(), 2);
    assert_eq!(m.take(1), Some(vec![8]));
    assert_eq!(m.take(2), Some(vec![7]));
    assert_eq!(m.len(), 0);
}

#[test]
fn resource_record_round_trip() {
    let mut m = ResourceMap::new();
    m.put(1, le8(6));
    m.put(2, le8(11));
    let bytes = m.encode();
    let mut back = ResourceMap::decode(&bytes).expect("decodes");
    assert_eq!(back.take(1), Some(le8(6)));
    assert_eq!(back.take(2), Some(le8(11)));
    assert_eq!(back.len(), 0);
}

#[test]
fn resource_record_rejects_duplicate_keys() {
    let entries: Vec<(u64, Vec<u8>)> = vec![(1, vec![6]), (1, vec![7])];
    let bytes = encode_record(&entries);
    assert!(ResourceMap::decode(&bytes).is_none());
}

#[test]
fn is_resumable_checks_record_existence() {
    let mut storage = Storage::new();
    let st = State::new(3, ResourceMap::new());
    assert!(!st.is_resumable(&storage));
    storage.write(3, vec![0]);
    assert!(st.is_resumable(&storage));
}
