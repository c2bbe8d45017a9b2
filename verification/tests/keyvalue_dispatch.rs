use caphost::dispatch::{Ctx, Instance, OUTPUT_STREAM_WINDOW};
use caphost::mem::MemKeyValue;
use caphost::table::{Entry, IncomingValue, TableError};

fn fresh_ctx() -> Ctx<MemKeyValue, MemKeyValue> {
    Ctx::new(Some(MemKeyValue::new()), Some(MemKeyValue::new()))
}

#[test]
fn increment_on_absent_counter_starts_from_zero() {
    let mut ctx = fresh_ctx();
    let b = ctx.open_bucket("ns".to_string());
    let first = ctx.increment(b, "counter".to_string(), 42);
    assert_eq!(first, Ok(Ok(42)));
    let second = ctx.increment(b, "counter".to_string(), 0);
    assert_eq!(second, Ok(Ok(42)));
    let third = ctx.increment(b, "counter".to_string(), 8);
    assert_eq!(third, Ok(Ok(50)));
}

#[test]
fn increment_with_invalid_bucket_is_fatal() {
    let mut ctx = fresh_ctx();
    assert_eq!(
        ctx.increment(99, "counter".to_string(), 1),
        Err(TableError::NotFound)
    );
    let ov = ctx.new_outgoing_value();
    assert_eq!(
        ctx.increment(ov, "counter".to_string(), 1),
        Err(TableError::WrongType)
    );
}

#[test]
fn compare_and_swap_succeeds_only_on_exact_match() {
    let mut ctx = fresh_ctx();
    let b = ctx.open_bucket("ns".to_string());
    assert_eq!(ctx.increment(b, "k".to_string(), 42), Ok(Ok(42)));
    // Wrong expectation: no mutation.
    assert_eq!(
        ctx.compare_and_swap(b, "k".to_string(), 41, 99),
        Ok(Ok(false))
    );
    assert_eq!(ctx.increment(b, "k".to_string(), 0), Ok(Ok(42)));
    // Exact match: swapped.
    assert_eq!(
        ctx.compare_and_swap(b, "k".to_string(), 42, 43),
        Ok(Ok(true))
    );
    assert_eq!(ctx.increment(b, "k".to_string(), 0), Ok(Ok(43)));
    // An absent counter never matches.
    assert_eq!(
        ctx.compare_and_swap(b, "absent".to_string(), 0, 7),
        Ok(Ok(false))
    );
}

#[test]
fn set_delivers_exactly_the_written_bytes() {
    let mut ctx = fresh_ctx();
    let b = ctx.open_bucket("ns".to_string());
    let ov = ctx.new_outgoing_value();
    let body = vec![10u8, 20, 30, 40, 50];
    assert_eq!(ctx.outgoing_value_write_body_sync(ov, body.clone()), Ok(()));
    assert_eq!(ctx.set(b, "key".to_string(), ov), Ok(Ok(())));
    // Read the value back: exactly the written bytes.
    let vh = ctx.get(b, "key".to_string()).unwrap().unwrap();
    assert_eq!(ctx.size(vh), Ok(5));
    let got = ctx.incoming_value_consume_sync(vh).unwrap().unwrap();
    assert_eq!(got, body);
}

#[test]
fn both_writers_observe_the_same_buffer() {
    let mut ctx = fresh_ctx();
    let b = ctx.open_bucket("ns".to_string());
    let ov = ctx.new_outgoing_value();
    assert_eq!(
        ctx.outgoing_value_write_body_sync(ov, vec![1, 2, 3]),
        Ok(())
    );
    let stream = ctx.outgoing_value_write_body_async(ov).unwrap();
    assert_eq!(ctx.output_stream_write(stream, &vec![4, 5]), Ok(2));
    assert_eq!(ctx.set(b, "key".to_string(), ov), Ok(Ok(())));
    let vh = ctx.get(b, "key".to_string()).unwrap().unwrap();
    let got = ctx.incoming_value_consume_sync(vh).unwrap().unwrap();
    assert_eq!(got, vec![1, 2, 3, 4, 5]);
}

#[test]
fn output_stream_write_caps_at_the_window() {
    let mut ctx = fresh_ctx();
    let ov = ctx.new_outgoing_value();
    let stream = ctx.outgoing_value_write_body_async(ov).unwrap();
    let big = vec![7u8; (OUTPUT_STREAM_WINDOW as usize) + 10];
    assert_eq!(
        ctx.output_stream_write(stream, &big),
        Ok(OUTPUT_STREAM_WINDOW as usize)
    );
}

#[test]
fn missing_key_yields_capability_error_not_false() {
    let mut ctx = fresh_ctx();
    let b = ctx.open_bucket("ns".to_string());
    let inner = ctx.contains(b, "missing".to_string()).unwrap();
    let handle = match inner {
        Err(h) => h,
        Ok(v) => panic!("expected a capability-error handle, got {:?}", v),
    };
    let trace = ctx.trace(handle).unwrap();
    assert!(!trace.is_empty());
    assert_eq!(trace, "key does not exist");
    // The error stays retrievable until dropped.
    assert!(ctx.trace(handle).is_ok());
    assert_eq!(ctx.drop_error(handle), Ok(()));
    assert_eq!(ctx.trace(handle), Err(TableError::NotFound));
}

#[test]
fn contains_reports_present_keys() {
    let mut ctx = fresh_ctx();
    let b = ctx.open_bucket("ns".to_string());
    let ov = ctx.new_outgoing_value();
    assert_eq!(ctx.outgoing_value_write_body_sync(ov, vec![9]), Ok(()));
    assert_eq!(ctx.set(b, "here".to_string(), ov), Ok(Ok(())));
    assert_eq!(ctx.contains(b, "here".to_string()), Ok(Ok(true)));
}

#[test]
fn get_missing_key_yields_capability_error() {
    let mut ctx = fresh_ctx();
    let b = ctx.open_bucket("ns".to_string());
    let inner = ctx.get(b, "missing".to_string()).unwrap();
    let handle = inner.expect_err("expected a capability-error handle");
    assert!(!ctx.trace(handle).unwrap().is_empty());
}

#[test]
fn delete_removes_a_stored_value() {
    let mut ctx = fresh_ctx();
    let b = ctx.open_bucket("ns".to_string());
    let ov = ctx.new_outgoing_value();
    assert_eq!(ctx.outgoing_value_write_body_sync(ov, vec![1]), Ok(()));
    assert_eq!(ctx.set(b, "k".to_string(), ov), Ok(Ok(())));
    assert_eq!(ctx.delete(b, "k".to_string()), Ok(Ok(())));
    assert!(ctx.contains(b, "k".to_string()).unwrap().is_err());
}

#[test]
fn consume_sync_rejects_short_backing_data() {
    let mut ctx = fresh_ctx();
    // A value that declares five bytes but is backed by three.
    let vh = ctx.table.push(Entry::IncomingValue(IncomingValue {
        data: vec![1, 2, 3],
        declared: 5,
    }));
    let inner = ctx.incoming_value_consume_sync(vh).unwrap();
    let handle = inner.expect_err("short data must not come back as success");
    let trace = ctx.trace(handle).unwrap();
    assert_eq!(trace, "incoming value is shorter than its declared size");
    // The value itself was consumed.
    assert_eq!(ctx.size(vh), Err(TableError::NotFound));
}

#[test]
fn consume_sync_caps_the_read_at_the_declared_size() {
    let mut ctx = fresh_ctx();
    let vh = ctx.table.push(Entry::IncomingValue(IncomingValue {
        data: vec![1, 2, 3, 4, 5],
        declared: 3,
    }));
    let got = ctx.incoming_value_consume_sync(vh).unwrap().unwrap();
    assert_eq!(got, vec![1, 2, 3]);
}

#[test]
fn consume_async_exposes_the_bytes_as_a_stream() {
    let mut ctx = fresh_ctx();
    let vh = ctx.table.push(Entry::IncomingValue(IncomingValue {
        data: vec![1, 2, 3, 4],
        declared: 4,
    }));
    let stream = ctx.incoming_value_consume_async(vh).unwrap();
    assert_eq!(ctx.input_stream_read(stream, 3), Ok(vec![1, 2, 3]));
    assert_eq!(ctx.input_stream_read(stream, 3), Ok(vec![4]));
    assert_eq!(ctx.input_stream_read(stream, 3), Ok(vec![]));
}

#[test]
fn dropping_handles_releases_them() {
    let mut ctx = fresh_ctx();
    let b = ctx.open_bucket("ns".to_string());
    let ov = ctx.new_outgoing_value();
    assert_eq!(ctx.drop_bucket(b), Ok(()));
    assert_eq!(ctx.drop_outgoing_value(ov), Ok(()));
    assert_eq!(ctx.drop_bucket(b), Err(TableError::NotFound));
    assert_eq!(ctx.drop_outgoing_value(ov), Err(TableError::NotFound));
}

#[test]
fn instance_wires_handlers() {
    let mut instance: Instance<MemKeyValue, MemKeyValue> = Instance::new();
    // Without handlers every key-value call reports a capability error.
    let b = instance.ctx.open_bucket("ns".to_string());
    let inner = instance.ctx.increment(b, "c".to_string(), 1).unwrap();
    let handle = inner.expect_err("expected a capability error without a handler");
    assert_eq!(
        instance.ctx.trace(handle).unwrap(),
        "keyvalue-atomic handler is not configured"
    );
    instance
        .keyvalue_atomic(MemKeyValue::new())
        .keyvalue_readwrite(MemKeyValue::new());
    assert_eq!(instance.ctx.increment(b, "c".to_string(), 5), Ok(Ok(5)));
    assert_eq!(
        instance.ctx.contains(b, "x".to_string()).unwrap().is_err(),
        true
    );
}
