use std::sync::atomic::Ordering;
use std::time::Duration;

use insomnilog::backend_runner::{
    drain_batch, keeps_consumer, record_len, record_to_take, try_read_one, BackendRunner, NextStep, MAX_BATCH_PER_CONSUMER,
};
use insomnilog::decode::DecodedArg;
use insomnilog::encode::Encode;
use insomnilog::queue2::new;
use insomnilog::record::RecordHeader;

fn no_custom(_decoder: u64, _payload: &[u8]) -> Option<String> {
    None
}

fn record_bytes(ts: u64, args: &[u32]) -> Vec<u8> {
    let mut payload = Vec::new();
    for a in args {
        a.encode_to(&mut payload);
    }
    let mut buf = Vec::new();
    RecordHeader::new(ts, 0x40, payload.len() as u32).write_to(&mut buf);
    buf.extend_from_slice(&payload);
    buf
}

#[test]
fn new_write_errors_starts_at_zero() {
    let runner = BackendRunner::new(0, Duration::from_millis(1), false);
    assert_eq!(runner.write_errors.load(Ordering::Relaxed), 0);
}

#[test]
fn new_flush_errors_starts_at_zero() {
    let runner = BackendRunner::new(0, Duration::from_millis(1), false);
    assert_eq!(runner.flush_errors.load(Ordering::Relaxed), 0);
}

#[test]
fn new_panic_count_starts_at_zero() {
    let runner = BackendRunner::new(0, Duration::from_millis(1), false);
    assert_eq!(runner.panic_count.load(Ordering::Relaxed), 0);
}

#[test]
fn new_shutdown_flag_starts_false() {
    let runner = BackendRunner::new(0, Duration::from_millis(1), false);
    assert!(!runner.shutdown_flag.load(Ordering::Relaxed));
}

#[test]
fn new_consumers_starts_empty() {
    let runner = BackendRunner::new(0, Duration::from_millis(1), false);
    assert_eq!(runner.consumers.lock().unwrap().len(), 0);
}

#[test]
fn run_exits_immediately_when_shutdown_flag_preset_no_drain() {
    let runner = BackendRunner::new(0, Duration::from_micros(10), false);
    assert!(runner.exits_before_pass(true));
    assert!(!runner.exits_before_pass(false));
}

#[test]
fn run_exits_immediately_when_shutdown_flag_preset_with_drain_and_empty_queues() {
    let runner = BackendRunner::new(0, Duration::from_micros(10), true);
    assert!(!runner.exits_before_pass(true));
    assert_eq!(runner.after_pass(true, false, false, 0), (NextStep::Exit, 0));
}

#[test]
fn drain_on_shutdown_keeps_polling_while_queues_hold_bytes() {
    let runner = BackendRunner::new(3, Duration::from_micros(10), true);
    assert_eq!(runner.after_pass(true, true, false, 5), (NextStep::Poll, 5));
    assert_eq!(runner.after_pass(true, true, true, 5), (NextStep::Poll, 5));
}

#[test]
fn idle_passes_yield_then_sleep() {
    let runner = BackendRunner::new(2, Duration::from_micros(10), false);
    assert_eq!(runner.after_pass(false, false, false, 0), (NextStep::Yield, 1));
    assert_eq!(runner.after_pass(false, false, false, 1), (NextStep::Yield, 2));
    assert_eq!(runner.after_pass(false, false, false, 2), (NextStep::Sleep, 3));
    assert_eq!(runner.after_pass(false, false, false, u32::MAX), (NextStep::Sleep, u32::MAX));
    assert_eq!(runner.after_pass(false, false, true, 9), (NextStep::Poll, 0));
    assert_eq!(runner.idle_sleep(), Duration::from_micros(10));
}

#[test]
fn record_len_adds_header_size() {
    assert_eq!(record_len(&RecordHeader::new(0, 0, 10)), Some(RecordHeader::SIZE + 10));
}

#[test]
fn single_record_reaches_sink() {
    let (mut prod, mut cons) = new(1024);
    prod.write(&record_bytes(9, &[7, 8])).unwrap();
    let raw = try_read_one(&mut cons, &no_custom).expect("a whole record is queued");
    assert_eq!(raw.timestamp_ns, 9);
    assert_eq!(raw.metadata_ptr, 0x40);
    assert_eq!(raw.args, vec![DecodedArg::U32(7), DecodedArg::U32(8)]);
    assert_eq!(cons.available(), 0);
}

#[test]
fn partial_record_is_left_in_place() {
    let (mut prod, mut cons) = new(1024);
    let bytes = record_bytes(1, &[5]);
    prod.write(&bytes[..10]).unwrap();
    assert!(try_read_one(&mut cons, &no_custom).is_none());
    assert_eq!(cons.available(), 10);
}

#[test]
fn many_records_on_one_consumer_all_drain() {
    let (mut prod, mut cons) = new(64 * 1024);
    for i in 0..40u64 {
        prod.write(&record_bytes(i, &[i as u32])).unwrap();
    }
    let first = drain_batch(&mut cons, &no_custom);
    assert_eq!(first.len(), MAX_BATCH_PER_CONSUMER);
    let second = drain_batch(&mut cons, &no_custom);
    assert_eq!(second.len(), 8);
    let stamps: Vec<u64> = first.iter().chain(second.iter()).map(|r| r.timestamp_ns).collect();
    assert_eq!(stamps, (0..40).collect::<Vec<u64>>());
    assert!(drain_batch(&mut cons, &no_custom).is_empty());
}

#[test]
fn consumer_is_retired_only_when_dead_and_drained() {
    assert!(keeps_consumer(true, 0));
    assert!(keeps_consumer(true, 7));
    assert!(keeps_consumer(false, 1));
    assert!(!keeps_consumer(false, 0));
}

#[test]
fn malformed_record_is_consumed_and_dropped() {
    let (mut prod, mut cons) = new(1024);
    // A header announcing one argument byte whose tag names no type.
    let mut bad = Vec::new();
    RecordHeader::new(3, 0x40, 1).write_to(&mut bad);
    bad.push(200);
    prod.write(&bad).unwrap();
    prod.write(&record_bytes(4, &[1])).unwrap();
    assert!(try_read_one(&mut cons, &no_custom).is_none());
    assert_eq!(cons.available(), record_bytes(4, &[1]).len());
    let batch = drain_batch(&mut cons, &no_custom);
    assert_eq!(batch.len(), 1);
    assert_eq!(batch[0].timestamp_ns, 4);
}

#[test]
fn record_to_take_goes_by_the_header_and_the_ready_count() {
    let bytes = record_bytes(5, &[1, 2]);
    let whole = bytes.len();
    assert_eq!(whole, 24 + 10);
    assert_eq!(record_to_take(&bytes[..24], whole), Some(whole));
    assert_eq!(record_to_take(&bytes[..24], whole + 100), Some(whole));
    assert_eq!(record_to_take(&bytes[..24], whole - 1), None);
    assert_eq!(record_to_take(&bytes[..23], 1000), None);
}
