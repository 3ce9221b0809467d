use checkpoint_resume::progress::StepProgress;
use checkpoint_resume::protocol::run_main;
use checkpoint_resume::protocol::run_nested;
use checkpoint_resume::resource::run_resource;
use checkpoint_resume::state::State;
use checkpoint_resume::storage::Storage;
use checkpoint_resume::RunOutcome;
use checkpoint_resume::StoreError;

const MAIN_ID: usize = 42;
const NESTED_ID: usize = 160182641;

fn le8(v: u64) -> Vec<u8> {
    v.to_le_bytes().to_vec()
}

#[test]
fn main_run_completes_fresh_with_ample_budget() {
    let mut storage = Storage::new();
    // the nested sub-unit passes 101 suspension points, stage 1 another 100
    let mut ticks: u64 = 300;
    let r = run_main(MAIN_ID, NESTED_ID, &mut storage, &mut ticks);
    assert_eq!(r, Ok(RunOutcome::Completed));
    assert_eq!(ticks, 300 - 201);
    assert!(!storage.contains(MAIN_ID));
    assert!(!storage.contains(NESTED_ID));
}

#[test]
fn main_run_interrupted_mid_stage_one_then_resumes() {
    let mut storage = Storage::new();
    // 101 ticks let the nested sub-unit finish; 4 more mean cancellation
    // lands during the 5th stage-1 sleep, after 5 increments
    let mut ticks: u64 = 105;
    let r = run_main(MAIN_ID, NESTED_ID, &mut storage, &mut ticks);
    assert_eq!(r, Ok(RunOutcome::Interrupted));
    assert_eq!(ticks, 0);
    assert!(storage.contains(MAIN_ID));
    assert!(!storage.contains(NESTED_ID));

    // the next run with the same identity loads x=5, y=10 at step 1
    let mut probe = State::new(MAIN_ID, StepProgress { step: 0, x: 0, y: 0 });
    let mut copy = Storage::new();
    copy.write(MAIN_ID, storage.read(MAIN_ID).unwrap().clone());
    assert_eq!(probe.deserialize_data(&mut copy), Ok(()));
    assert_eq!(probe.data, StepProgress { step: 1, x: 5, y: 10 });

    // resumed, it continues to the predicate and completes leaving nothing
    let mut ticks2: u64 = 1000;
    let r2 = run_main(MAIN_ID, NESTED_ID, &mut storage, &mut ticks2);
    assert_eq!(r2, Ok(RunOutcome::Completed));
    assert_eq!(ticks2, 1000 - 95);
    assert!(!storage.contains(MAIN_ID));
    assert!(!storage.contains(NESTED_ID));
}

#[test]
fn main_run_interrupted_inside_nested_sub_unit() {
    let mut storage = Storage::new();
    let mut ticks: u64 = 3;
    let r = run_main(MAIN_ID, NESTED_ID, &mut storage, &mut ticks);
    assert_eq!(r, Ok(RunOutcome::Interrupted));
    // both records stand: the nested one mid-way, the main one at step 0
    assert!(storage.contains(MAIN_ID));
    assert!(storage.contains(NESTED_ID));
    let nested: (u64, Vec<u64>) =
        bincode::deserialize(storage.read(NESTED_ID).unwrap()).expect("decodes");
    assert_eq!(nested, (0, vec![0, 1, 2, 3]));
    let main: (u64, i64, i64) =
        bincode::deserialize(storage.read(MAIN_ID).unwrap()).expect("decodes");
    assert_eq!(main, (0, 0, 0));

    // resuming finishes the nested phase and then the main stage
    let mut ticks2: u64 = 1000;
    let r2 = run_main(MAIN_ID, NESTED_ID, &mut storage, &mut ticks2);
    assert_eq!(r2, Ok(RunOutcome::Completed));
    assert_eq!(ticks2, 1000 - (101 - 4) - 100);
    assert!(!storage.contains(MAIN_ID));
    assert!(!storage.contains(NESTED_ID));
}

#[test]
fn nested_run_interrupted_record_holds_items() {
    let mut storage = Storage::new();
    let mut ticks: u64 = 2;
    let r = run_nested(NESTED_ID, &mut storage, &mut ticks);
    assert_eq!(r, Ok(RunOutcome::Interrupted));
    let rec: (u64, Vec<u64>) =
        bincode::deserialize(storage.read(NESTED_ID).unwrap()).expect("decodes");
    assert_eq!(rec, (0, vec![0, 1, 2]));
}

#[test]
fn main_run_unknown_step_index_is_fatal() {
    let mut storage = Storage::new();
    storage.write(MAIN_ID, bincode::serialize(&(7u64, 0i64, 0i64)).unwrap());
    let mut ticks: u64 = 10;
    let r = run_main(MAIN_ID, NESTED_ID, &mut storage, &mut ticks);
    assert_eq!(r, Err(StoreError::ProtocolViolation));
    assert_eq!(ticks, 10);
    // the fatal exit path still persists the loaded value back
    let rec: (u64, i64, i64) =
        bincode::deserialize(storage.read(MAIN_ID).unwrap()).expect("decodes");
    assert_eq!(rec, (7, 0, 0));
}

#[test]
fn main_run_unreadable_record_is_fatal() {
    let mut storage = Storage::new();
    storage.write(MAIN_ID, vec![9, 9]);
    let mut ticks: u64 = 10;
    let r = run_main(MAIN_ID, NESTED_ID, &mut storage, &mut ticks);
    assert_eq!(r, Err(StoreError::CodecFailure));
    assert_eq!(ticks, 10);
    assert_eq!(storage.read(MAIN_ID), Some(&vec![9, 9]));
}

#[test]
fn resource_run_fresh_interrupted_after_five_ticks() {
    let mut storage = Storage::new();
    // a fresh start yields (1, 1); cancellation lands during the 5th sleep,
    // after 5 increments, so (6, 11) is persisted
    let mut ticks: u64 = 4;
    let r = run_resource(7, &mut storage, &mut ticks);
    assert_eq!(r, Ok(RunOutcome::Interrupted));
    assert_eq!(ticks, 0);
    let bytes = storage.read(7).unwrap();
    let mut expected = le8(2);
    expected.extend(le8(1));
    expected.extend(le8(8));
    expected.extend(le8(6));
    expected.extend(le8(2));
    expected.extend(le8(8));
    expected.extend(le8(11));
    assert_eq!(bytes, &expected);
}

#[test]
fn resource_run_resumes_and_completes() {
    let mut storage = Storage::new();
    let mut ticks: u64 = 4;
    assert_eq!(run_resource(7, &mut storage, &mut ticks), Ok(RunOutcome::Interrupted));
    let mut ticks2: u64 = 1000;
    assert_eq!(run_resource(7, &mut storage, &mut ticks2), Ok(RunOutcome::Completed));
    // from x = 6 another 94 suspension points stand before completion
    assert_eq!(ticks2, 1000 - 94);
    assert!(!storage.contains(7));
}

#[test]
fn resource_run_fresh_completes() {
    let mut storage = Storage::new();
    let mut ticks: u64 = 99;
    assert_eq!(run_resource(7, &mut storage, &mut ticks), Ok(RunOutcome::Completed));
    assert_eq!(ticks, 0);
    assert!(!storage.contains(7));
}

#[test]
fn resource_run_rejects_foreign_record_shape() {
    let mut storage = Storage::new();
    let entries: Vec<(u64, Vec<u8>)> = vec![(1, le8(6)), (2, le8(11)), (3, vec![])];
    storage.write(7, checkpoint_resume::codec::encode_record(&entries));
    let mut ticks: u64 = 10;
    assert_eq!(run_resource(7, &mut storage, &mut ticks), Err(StoreError::ProtocolViolation));
}
