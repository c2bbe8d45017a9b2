use caphost::bus::TargetEntity;
use caphost::codec::{decode_document, encode_document, Value};
use caphost::dispatch::Ctx;
use caphost::mem::MemKeyValue;
use caphost::shim::{handle_legacy, ShimError};

fn fresh_ctx() -> Ctx<MemKeyValue, MemKeyValue> {
    Ctx::new(Some(MemKeyValue::new()), Some(MemKeyValue::new()))
}

fn link(name: &str) -> TargetEntity {
    TargetEntity::Link(Some(name.to_string()))
}

fn doc(fields: Vec<(&str, Value)>) -> Vec<u8> {
    let doc: Vec<(String, Value)> = fields
        .into_iter()
        .map(|(n, v)| (n.to_string(), v))
        .collect();
    encode_document(&doc).expect("the test document encodes")
}

fn field(reply: &[u8], name: &str) -> Value {
    let decoded = decode_document(&reply.to_vec()).expect("the reply decodes");
    for (n, v) in decoded {
        if n == name {
            return v;
        }
    }
    panic!("no field {} in the reply", name);
}

#[test]
fn legacy_increment_invokes_native_increment() {
    let mut ctx = fresh_ctx();
    let payload = doc(vec![
        ("key", Value::Text("counter".to_string())),
        ("value", Value::I32(42)),
    ]);
    let reply = handle_legacy(
        &mut ctx,
        &link("kv"),
        &"KeyValue.Increment".to_string(),
        &payload,
    )
    .expect("the legacy increment succeeds");
    // The reply encodes the signed 32-bit result 42.
    match field(&reply, "value") {
        Value::I32(n) => assert_eq!(n, 42),
        other => panic!("expected a signed 32-bit value, got {:?}", kind_of(&other)),
    }
    // The native operation ran against the bucket with the empty name.
    let b = ctx.open_bucket("".to_string());
    assert_eq!(ctx.increment(b, "counter".to_string(), 0), Ok(Ok(42)));
}

#[test]
fn legacy_increment_rejects_negative_and_malformed_payloads() {
    let mut ctx = fresh_ctx();
    let negative = doc(vec![
        ("key", Value::Text("counter".to_string())),
        ("value", Value::I32(-1)),
    ]);
    assert_eq!(
        handle_legacy(
            &mut ctx,
            &link("kv"),
            &"KeyValue.Increment".to_string(),
            &negative,
        ),
        Err(ShimError::BadPayload)
    );
    let missing_field = doc(vec![("key", Value::Text("counter".to_string()))]);
    assert_eq!(
        handle_legacy(
            &mut ctx,
            &link("kv"),
            &"KeyValue.Increment".to_string(),
            &missing_field,
        ),
        Err(ShimError::BadPayload)
    );
    assert_eq!(
        handle_legacy(
            &mut ctx,
            &link("kv"),
            &"KeyValue.Increment".to_string(),
            &vec![1, 2, 3],
        ),
        Err(ShimError::BadPayload)
    );
}

#[test]
fn legacy_increment_rejects_results_outside_the_signed_range() {
    let mut ctx = fresh_ctx();
    let b = ctx.open_bucket("".to_string());
    assert_eq!(
        ctx.increment(b, "big".to_string(), 2_147_483_648),
        Ok(Ok(2_147_483_648))
    );
    let payload = doc(vec![
        ("key", Value::Text("big".to_string())),
        ("value", Value::I32(0)),
    ]);
    assert_eq!(
        handle_legacy(
            &mut ctx,
            &link("kv"),
            &"KeyValue.Increment".to_string(),
            &payload,
        ),
        Err(ShimError::ReplyOutOfRange)
    );
}

#[test]
fn unmapped_combinations_are_fatal() {
    let mut ctx = fresh_ctx();
    let payload = doc(vec![("key", Value::Text("k".to_string()))]);
    assert_eq!(
        handle_legacy(
            &mut ctx,
            &TargetEntity::Peer("some-actor".to_string()),
            &"KeyValue.Get".to_string(),
            &payload,
        ),
        Err(ShimError::UnknownOperation)
    );
    assert_eq!(
        handle_legacy(
            &mut ctx,
            &link("kv"),
            &"KeyValue.Flush".to_string(),
            &payload,
        ),
        Err(ShimError::UnknownOperation)
    );
}

#[test]
fn legacy_set_get_del_round_trip() {
    let mut ctx = fresh_ctx();
    let set_payload = doc(vec![
        ("key", Value::Text("greeting".to_string())),
        ("value", Value::Blob(vec![104, 105])),
        ("expires", Value::U64(0)),
    ]);
    let set_reply = handle_legacy(
        &mut ctx,
        &link("kv"),
        &"KeyValue.Set".to_string(),
        &set_payload,
    )
    .expect("the legacy set succeeds");
    match field(&set_reply, "ok") {
        Value::Flag(ok) => assert!(ok),
        other => panic!("expected a boolean, got {:?}", kind_of(&other)),
    }

    let get_payload = doc(vec![("key", Value::Text("greeting".to_string()))]);
    let get_reply = handle_legacy(
        &mut ctx,
        &link("kv"),
        &"KeyValue.Get".to_string(),
        &get_payload,
    )
    .expect("the legacy get succeeds");
    match field(&get_reply, "exists") {
        Value::Flag(present) => assert!(present),
        other => panic!("expected a boolean, got {:?}", kind_of(&other)),
    }
    match field(&get_reply, "value") {
        Value::Blob(bytes) => assert_eq!(bytes, vec![104, 105]),
        other => panic!("expected bytes, got {:?}", kind_of(&other)),
    }

    let del_reply = handle_legacy(
        &mut ctx,
        &link("kv"),
        &"KeyValue.Del".to_string(),
        &get_payload,
    )
    .expect("the legacy del succeeds");
    match field(&del_reply, "ok") {
        Value::Flag(ok) => assert!(ok),
        other => panic!("expected a boolean, got {:?}", kind_of(&other)),
    }

    // Missing after deletion: exists is false in the legacy schema.
    let gone_reply = handle_legacy(
        &mut ctx,
        &link("kv"),
        &"KeyValue.Get".to_string(),
        &get_payload,
    )
    .expect("the legacy get of a missing key still replies");
    match field(&gone_reply, "exists") {
        Value::Flag(present) => assert!(!present),
        other => panic!("expected a boolean, got {:?}", kind_of(&other)),
    }
}

#[test]
fn legacy_contains_widens_the_missing_key_error() {
    let mut ctx = fresh_ctx();
    let payload = doc(vec![("key", Value::Text("nothing".to_string()))]);
    let reply = handle_legacy(
        &mut ctx,
        &link("kv"),
        &"KeyValue.Contains".to_string(),
        &payload,
    )
    .expect("the legacy contains replies");
    match field(&reply, "value") {
        Value::Flag(present) => assert!(!present),
        other => panic!("expected a boolean, got {:?}", kind_of(&other)),
    }
}

fn kind_of(v: &Value) -> &'static str {
    match v {
        Value::U64(_) => "u64",
        Value::I32(_) => "i32",
        Value::Text(_) => "text",
        Value::Blob(_) => "blob",
        Value::Flag(_) => "flag",
    }
}
