//! Legacy compatibility shim: translate a single-operation, binary-encoded
//! legacy call against a resolved target into native capability calls, and
//! re-encode the native result into the legacy reply envelope.
//!
//! Legacy calls carry no bucket, so every operation runs against the bucket
//! with the empty name.  The legacy counter field is a signed 32-bit
//! integer: a request with a negative delta is rejected, and a native
//! counter result outside the signed 32-bit range is rejected rather than
//! truncated — the narrowing is deliberate backward-compatibility behaviour.
//! The shim releases every handle it creates: the resource table leaves a
//! legacy call exactly as it entered it.

use vstd::prelude::*;

use crate::bus::{TargetEntity, TargetEntityView};
use crate::codec::{
    decode_document, encode_document, find_field, is_ascii_seq, spec_be32, spec_encode_doc,
    spec_encode_field_v, spec_encode_fields, spec_field, Value, ValueView,
};
use crate::dispatch::Ctx;
use crate::handler::{KeyValueAtomic, KeyValueReadWrite};

verus! {

/// Why a legacy call failed fatally.
#[derive(Clone, Copy, PartialEq, Eq, Structural, Debug)]
pub enum ShimError {
    /// The target kind and operation name are not a mapped combination:
    /// a protocol violation.
    UnknownOperation,
    /// The payload does not decode to the operation's request struct, or a
    /// field is outside the legacy domain.
    BadPayload,
    /// The native result does not fit the legacy reply's numeric domain.
    ReplyOutOfRange,
}

/// The legacy reply envelope holding one field.
pub open spec fn spec_reply1(name: Seq<char>, v: ValueView) -> Seq<u8> {
    seq![0x4Du8] + spec_be32(1) + spec_encode_field_v(name, v)
}

/// The legacy reply envelope holding two fields.
pub open spec fn spec_reply2(n1: Seq<char>, v1: ValueView, n2: Seq<char>, v2: ValueView) -> Seq<
    u8,
> {
    seq![0x4Du8] + spec_be32(2) + spec_encode_field_v(n1, v1) + spec_encode_field_v(n2, v2)
}

/// The field names the legacy schemas use are ASCII.
proof fn lemma_schema_names_ascii()
    ensures
        is_ascii_seq("key"@) && "key"@.len() <= 0xFFFF_FFFF,
        is_ascii_seq("value"@) && "value"@.len() <= 0xFFFF_FFFF,
        is_ascii_seq("error"@) && "error"@.len() <= 0xFFFF_FFFF,
        is_ascii_seq("ok"@) && "ok"@.len() <= 0xFFFF_FFFF,
        is_ascii_seq("exists"@) && "exists"@.len() <= 0xFFFF_FFFF,
        is_ascii_seq("expires"@) && "expires"@.len() <= 0xFFFF_FFFF,
{
    reveal_strlit("key");
    reveal_strlit("value");
    reveal_strlit("error");
    reveal_strlit("ok");
    reveal_strlit("exists");
    reveal_strlit("expires");
}

/// Encode the one-field legacy reply envelope.  Fails exactly when the
/// field cannot be encoded.
pub fn encode_reply1(name: &String, value: Value) -> (r: Option<Vec<u8>>)
    ensures
        match r {
            Some(b) => b@ == spec_reply1(name@, value@),
            None => !(is_ascii_seq(name@) && name@.len() <= 0xFFFF_FFFF
                && crate::codec::value_wf(value@)),
        },
{
    let ghost vv = value@;
    let mut doc: Vec<(String, Value)> = Vec::new();
    doc.push((name.clone(), value));
    match encode_document(&doc) {
        Some(b) => {
            proof {
                assert(doc@.len() == 1);
                assert(doc@[0].0@ == name@);
                assert(doc@[0].1@ == vv);
                assert(doc@.skip(1) =~= Seq::<(String, Value)>::empty());
                assert(spec_encode_fields(doc@.skip(1)) =~= Seq::<u8>::empty());
                assert(spec_encode_fields(doc@) =~= spec_encode_field_v(name@, vv));
                assert(b@ =~= spec_reply1(name@, vv));
            }
            Some(b)
        },
        None => None,
    }
}

/// Encode the two-field legacy reply envelope.  Fails exactly when one of
/// the fields cannot be encoded.
pub fn encode_reply2(n1: &String, v1: Value, n2: &String, v2: Value) -> (r: Option<Vec<u8>>)
    ensures
        match r {
            Some(b) => b@ == spec_reply2(n1@, v1@, n2@, v2@),
            None => !(is_ascii_seq(n1@) && n1@.len() <= 0xFFFF_FFFF && crate::codec::value_wf(v1@)
                && is_ascii_seq(n2@) && n2@.len() <= 0xFFFF_FFFF && crate::codec::value_wf(v2@)),
        },
{
    let ghost vv1 = v1@;
    let ghost vv2 = v2@;
    let mut doc: Vec<(String, Value)> = Vec::new();
    doc.push((n1.clone(), v1));
    doc.push((n2.clone(), v2));
    match encode_document(&doc) {
        Some(b) => {
            proof {
                assert(doc@.len() == 2);
                assert(doc@[0].0@ == n1@ && doc@[0].1@ == vv1);
                assert(doc@[1].0@ == n2@ && doc@[1].1@ == vv2);
                assert(doc@.skip(1).skip(1) =~= Seq::<(String, Value)>::empty());
                assert(doc@.skip(1)[0] == doc@[1]);
                assert(spec_encode_fields(doc@.skip(1).skip(1)) =~= Seq::<u8>::empty());
                assert(spec_encode_fields(doc@.skip(1)) =~= spec_encode_field_v(n2@, vv2));
                assert(spec_encode_fields(doc@) =~= spec_encode_field_v(n1@, vv1)
                    + spec_encode_field_v(n2@, vv2));
                assert(b@ =~= spec_reply2(n1@, vv1, n2@, vv2));
            }
            Some(b)
        },
        None => None,
    }
}

/// The reply that reports a capability failure: the trace's UTF-8 bytes
/// under the `error` field.  A trace too long for the length field is cut
/// off at the field's capacity.
pub fn encode_error_reply(trace: &String) -> (r: Vec<u8>)
    ensures
        ({
            let full: Seq<u8> = vstd::utf8::encode_utf8(trace@);
            let cut: Seq<u8> = if full.len() <= 0xFFFF_FFFF {
                full
            } else {
                full.subrange(0, 0xFFFF_FFFF)
            };
            r@ == spec_reply1("error"@, ValueView::Blob(cut))
        }),
{
    let mut data = trace.as_str().as_bytes_vec();
    if data.len() > 0xFFFF_FFFFusize {
        data.truncate(0xFFFF_FFFFusize);
    }
    proof {
        lemma_schema_names_ascii();
    }
    match encode_reply1(&String::from_str("error"), Value::Blob(data)) {
        Some(b) => b,
        None => {
            proof {
                assert(false);
            }
            Vec::new()
        },
    }
}

/// Whether some well-formed document encoding `payload` carries a text
/// `key` and a non-negative signed 32-bit `value`: the increment request
/// schema.  By encoding injectivity, every document encoding `payload`
/// then carries those fields.
pub open spec fn increment_request_ok(payload: Seq<u8>) -> bool {
    exists|d: Seq<(String, Value)>| #![auto]
        crate::codec::doc_wf(d) && spec_encode_doc(d) == payload && (spec_field(d, "key"@)
            matches Some(ValueView::Text(_))) && (spec_field(d, "value"@) matches Some(
            ValueView::I32(x),
        ) && x >= 0)
}

/// Whether some well-formed document encoding `payload` carries a text
/// `key`: the schema of the single-key legacy requests.
pub open spec fn key_request_ok(payload: Seq<u8>) -> bool {
    exists|d: Seq<(String, Value)>| #![auto]
        crate::codec::doc_wf(d) && spec_encode_doc(d) == payload && (spec_field(d, "key"@)
            matches Some(ValueView::Text(_)))
}

/// Whether some well-formed document encoding `payload` carries a text
/// `key`, byte `value` and unsigned `expires`: the store request schema.
pub open spec fn set_request_ok(payload: Seq<u8>) -> bool {
    exists|d: Seq<(String, Value)>| #![auto]
        crate::codec::doc_wf(d) && spec_encode_doc(d) == payload && (spec_field(d, "key"@)
            matches Some(ValueView::Text(_))) && (spec_field(d, "value"@) matches Some(
            ValueView::Blob(_),
        )) && (spec_field(d, "expires"@) matches Some(ValueView::U64(_)))
}

/// Under `increment_request_ok`, every well-formed document encoding the
/// payload carries the schema's fields.
proof fn lemma_increment_fields(payload: Seq<u8>, d2: Seq<(String, Value)>)
    requires
        increment_request_ok(payload),
        crate::codec::doc_wf(d2),
        spec_encode_doc(d2) == payload,
    ensures
        spec_field(d2, "key"@) matches Some(ValueView::Text(_)),
        (spec_field(d2, "value"@) matches Some(ValueView::I32(x)) && x >= 0),
{
    let d = choose|d: Seq<(String, Value)>| #![auto]
        crate::codec::doc_wf(d) && spec_encode_doc(d) == payload && (spec_field(d, "key"@)
            matches Some(ValueView::Text(_))) && (spec_field(d, "value"@) matches Some(
            ValueView::I32(x),
        ) && x >= 0);
    crate::codec::lemma_encoding_determines_fields(d, d2, "key"@);
    crate::codec::lemma_encoding_determines_fields(d, d2, "value"@);
}

/// Under `key_request_ok`, every well-formed document encoding the payload
/// carries a text `key`.
proof fn lemma_key_fields(payload: Seq<u8>, d2: Seq<(String, Value)>)
    requires
        key_request_ok(payload),
        crate::codec::doc_wf(d2),
        spec_encode_doc(d2) == payload,
    ensures
        spec_field(d2, "key"@) matches Some(ValueView::Text(_)),
{
    let d = choose|d: Seq<(String, Value)>| #![auto]
        crate::codec::doc_wf(d) && spec_encode_doc(d) == payload && (spec_field(d, "key"@)
            matches Some(ValueView::Text(_)));
    crate::codec::lemma_encoding_determines_fields(d, d2, "key"@);
}

/// Under `set_request_ok`, every well-formed document encoding the payload
/// carries the schema's fields.
proof fn lemma_set_fields(payload: Seq<u8>, d2: Seq<(String, Value)>)
    requires
        set_request_ok(payload),
        crate::codec::doc_wf(d2),
        spec_encode_doc(d2) == payload,
    ensures
        spec_field(d2, "key"@) matches Some(ValueView::Text(_)),
        spec_field(d2, "value"@) matches Some(ValueView::Blob(_)),
        spec_field(d2, "expires"@) matches Some(ValueView::U64(_)),
{
    let d = choose|d: Seq<(String, Value)>| #![auto]
        crate::codec::doc_wf(d) && spec_encode_doc(d) == payload && (spec_field(d, "key"@)
            matches Some(ValueView::Text(_))) && (spec_field(d, "value"@) matches Some(
            ValueView::Blob(_),
        )) && (spec_field(d, "expires"@) matches Some(ValueView::U64(_)));
    crate::codec::lemma_encoding_determines_fields(d, d2, "key"@);
    crate::codec::lemma_encoding_determines_fields(d, d2, "value"@);
    crate::codec::lemma_encoding_determines_fields(d, d2, "expires"@);
}

/// Decode a legacy request that names a key and a signed counter delta.
/// A parsed pair comes from a well-formed document that encodes to exactly
/// the payload, with `key` its first `key` field and the delta its first
/// `value` field.
pub fn parse_increment_request(payload: &Vec<u8>) -> (r: Option<(String, i32)>)
    ensures
        match r {
            Some(p) => exists|d: Seq<(String, Value)>|
                {
                    &&& crate::codec::doc_wf(d)
                    &&& spec_encode_doc(d) == payload@
                    &&& spec_field(d, "key"@) == Some(ValueView::Text(p.0@))
                    &&& spec_field(d, "value"@) == Some(ValueView::I32(p.1))
                },
            None => !crate::codec::doc_frame(payload@) || exists|d: Seq<(String, Value)>|
                {
                    &&& crate::codec::doc_wf(d)
                    &&& spec_encode_doc(d) == payload@
                    &&& !((spec_field(d, "key"@) matches Some(ValueView::Text(_))) && (
                    spec_field(d, "value"@) matches Some(ValueView::I32(_))))
                },
        },
{
    let doc = match decode_document(payload) {
        Some(d) => d,
        None => {
            return None;
        },
    };
    let key = match find_field(&doc, &String::from_str("key")) {
        Some(Value::Text(s)) => s.clone(),
        _ => {
            proof {
                assert(!(spec_field(doc@, "key"@) matches Some(ValueView::Text(_))));
            }
            return None;
        },
    };
    let value = match find_field(&doc, &String::from_str("value")) {
        Some(Value::I32(n)) => *n,
        _ => {
            proof {
                assert(!(spec_field(doc@, "value"@) matches Some(ValueView::I32(_))));
            }
            return None;
        },
    };
    Some((key, value))
}

/// Decode a legacy request that names only a key.
pub fn parse_key_request(payload: &Vec<u8>) -> (r: Option<String>)
    ensures
        match r {
            Some(key) => exists|d: Seq<(String, Value)>|
                {
                    &&& crate::codec::doc_wf(d)
                    &&& spec_encode_doc(d) == payload@
                    &&& spec_field(d, "key"@) == Some(ValueView::Text(key@))
                },
            None => !crate::codec::doc_frame(payload@) || exists|d: Seq<(String, Value)>|
                {
                    &&& crate::codec::doc_wf(d)
                    &&& spec_encode_doc(d) == payload@
                    &&& !(spec_field(d, "key"@) matches Some(ValueView::Text(_)))
                },
        },
{
    let doc = match decode_document(payload) {
        Some(d) => d,
        None => {
            return None;
        },
    };
    match find_field(&doc, &String::from_str("key")) {
        Some(Value::Text(s)) => Some(s.clone()),
        _ => {
            proof {
                assert(!(spec_field(doc@, "key"@) matches Some(ValueView::Text(_))));
            }
            None
        },
    }
}

/// Decode a legacy store request: a key, the bytes to store, and an expiry
/// in seconds.  The native operation has no expiry; the field is decoded
/// for schema fidelity and ignored.
pub fn parse_set_request(payload: &Vec<u8>) -> (r: Option<(String, Vec<u8>, u64)>)
    ensures
        match r {
            Some(p) => exists|d: Seq<(String, Value)>|
                {
                    &&& crate::codec::doc_wf(d)
                    &&& spec_encode_doc(d) == payload@
                    &&& spec_field(d, "key"@) == Some(ValueView::Text(p.0@))
                    &&& spec_field(d, "value"@) == Some(ValueView::Blob(p.1@))
                    &&& spec_field(d, "expires"@) == Some(ValueView::U64(p.2))
                },
            None => !crate::codec::doc_frame(payload@) || exists|d: Seq<(String, Value)>|
                {
                    &&& crate::codec::doc_wf(d)
                    &&& spec_encode_doc(d) == payload@
                    &&& !((spec_field(d, "key"@) matches Some(ValueView::Text(_))) && (
                    spec_field(d, "value"@) matches Some(ValueView::Blob(_))) && (spec_field(
                        d,
                        "expires"@,
                    ) matches Some(ValueView::U64(_))))
                },
        },
{
    let doc = match decode_document(payload) {
        Some(d) => d,
        None => {
            return None;
        },
    };
    let key = match find_field(&doc, &String::from_str("key")) {
        Some(Value::Text(s)) => s.clone(),
        _ => {
            proof {
                assert(!(spec_field(doc@, "key"@) matches Some(ValueView::Text(_))));
            }
            return None;
        },
    };
    let value = match find_field(&doc, &String::from_str("value")) {
        Some(Value::Blob(b)) => crate::buffer::copy_bytes(b),
        _ => {
            proof {
                assert(!(spec_field(doc@, "value"@) matches Some(ValueView::Blob(_))));
            }
            return None;
        },
    };
    let expires = match find_field(&doc, &String::from_str("expires")) {
        Some(Value::U64(n)) => *n,
        _ => {
            proof {
                assert(!(spec_field(doc@, "expires"@) matches Some(ValueView::U64(_))));
            }
            return None;
        },
    };
    Some((key, value, expires))
}

/// Encode the legacy increment reply: the new counter value, narrowed to
/// the legacy signed 32-bit domain; a wider value is rejected, not
/// truncated.
pub fn encode_increment_reply(n: u64) -> (r: Result<Vec<u8>, ShimError>)
    ensures
        n <= 0x7FFF_FFFF ==> match r {
            Ok(b) => b@ == spec_reply1("value"@, ValueView::I32(n as i32)),
            Err(_) => false,
        },
        n > 0x7FFF_FFFF ==> r == Err::<Vec<u8>, ShimError>(ShimError::ReplyOutOfRange),
{
    if n > 0x7FFF_FFFFu64 {
        return Err(ShimError::ReplyOutOfRange);
    }
    proof {
        lemma_schema_names_ascii();
    }
    match encode_reply1(&String::from_str("value"), Value::I32(n as i32)) {
        Some(b) => Ok(b),
        None => {
            proof {
                assert(false);
            }
            Err(ShimError::ReplyOutOfRange)
        },
    }
}

/// Run the legacy `KeyValue.Increment` operation: decode `{key, value}`,
/// invoke the native increment against the empty-named bucket, and encode
/// the signed 32-bit reply.  The table is left exactly as it was: the
/// bucket handle and any capability-error handle are released.
pub fn legacy_increment<A: KeyValueAtomic, R: KeyValueReadWrite>(
    ctx: &mut Ctx<A, R>,
    payload: &Vec<u8>,
) -> (r: Result<Vec<u8>, ShimError>)
    ensures
        final(ctx).table@ == old(ctx).table@,
        final(ctx).readwrite == old(ctx).readwrite,
        match r {
            Ok(reply) => (exists|x: i32|
                x >= 0 && reply@ == spec_reply1("value"@, ValueView::I32(x))) || (exists|
                b: Seq<u8>,
            |
                b.len() <= 0xFFFF_FFFF && reply@ == spec_reply1("error"@, ValueView::Blob(b))),
            Err(e) => e == ShimError::BadPayload || e == ShimError::ReplyOutOfRange,
        },
        match r {
            Err(e) => e == ShimError::BadPayload <==> !increment_request_ok(payload@),
            Ok(_) => increment_request_ok(payload@),
        },
{
    let (key, delta) = match parse_increment_request(payload) {
        Some(p) => p,
        None => {
            proof {
                if increment_request_ok(payload@) {
                    let d = choose|d: Seq<(String, Value)>| #![auto]
                        crate::codec::doc_wf(d) && spec_encode_doc(d) == payload@ && (spec_field(
                            d,
                            "key"@,
                        ) matches Some(ValueView::Text(_))) && (spec_field(d, "value"@)
                            matches Some(ValueView::I32(x)) && x >= 0);
                    crate::codec::lemma_encode_then_decode(d);
                    let d2 = choose|d2: Seq<(String, Value)>|
                        {
                            &&& crate::codec::doc_wf(d2)
                            &&& spec_encode_doc(d2) == payload@
                            &&& !((spec_field(d2, "key"@) matches Some(ValueView::Text(_))) && (
                            spec_field(d2, "value"@) matches Some(ValueView::I32(_))))
                        };
                    lemma_increment_fields(payload@, d2);
                    assert(false);
                }
            }
            return Err(ShimError::BadPayload);
        },
    };
    if delta < 0 {
        proof {
            if increment_request_ok(payload@) {
                let d0 = choose|d: Seq<(String, Value)>|
                    {
                        &&& crate::codec::doc_wf(d)
                        &&& spec_encode_doc(d) == payload@
                        &&& spec_field(d, "key"@) == Some(ValueView::Text(key@))
                        &&& spec_field(d, "value"@) == Some(ValueView::I32(delta))
                    };
                lemma_increment_fields(payload@, d0);
                assert(false);
            }
        }
        return Err(ShimError::BadPayload);
    }
    proof {
        let d0 = choose|d: Seq<(String, Value)>|
            {
                &&& crate::codec::doc_wf(d)
                &&& spec_encode_doc(d) == payload@
                &&& spec_field(d, "key"@) == Some(ValueView::Text(key@))
                &&& spec_field(d, "value"@) == Some(ValueView::I32(delta))
            };
        assert(spec_field(d0, "key"@) matches Some(ValueView::Text(_)));
        assert((spec_field(d0, "value"@) matches Some(ValueView::I32(x)) && x >= 0));
        assert(increment_request_ok(payload@));
    }
    let bucket = ctx.open_bucket(String::from_str(""));
    let outcome = match ctx.increment(bucket, key, delta as u64) {
        Ok(inner) => inner,
        Err(_) => {
            proof {
                assert(false);
            }
            return Err(ShimError::BadPayload);
        },
    };
    match outcome {
        Ok(n) => {
            let dropped = ctx.drop_bucket(bucket);
            proof {
                assert(dropped is Ok);
                assert(final(ctx).table@ =~= old(ctx).table@);
            }
            encode_increment_reply(n)
        },
        Err(eh) => {
            let trace = match ctx.trace(eh) {
                Ok(t) => t,
                Err(_) => {
                    proof {
                        assert(false);
                    }
                    return Err(ShimError::BadPayload);
                },
            };
            let reply = encode_error_reply(&trace);
            let dropped_err = ctx.drop_error(eh);
            let dropped = ctx.drop_bucket(bucket);
            proof {
                assert(dropped_err is Ok);
                assert(dropped is Ok);
                assert(final(ctx).table@ =~= old(ctx).table@);
            }
            Ok(reply)
        },
    }
}

/// Run the legacy `KeyValue.Set` operation: decode `{key, value, expires}`,
/// deliver the bytes through an outgoing value to the native set, and
/// acknowledge with `{ok: true}` or report the capability failure.
pub fn legacy_set<A: KeyValueAtomic, R: KeyValueReadWrite>(
    ctx: &mut Ctx<A, R>,
    payload: &Vec<u8>,
) -> (r: Result<Vec<u8>, ShimError>)
    ensures
        final(ctx).table@ == old(ctx).table@,
        final(ctx).atomic == old(ctx).atomic,
        match r {
            Ok(reply) => reply@ == spec_reply1("ok"@, ValueView::Flag(true)) || (exists|
                b: Seq<u8>,
            |
                b.len() <= 0xFFFF_FFFF && reply@ == spec_reply1("error"@, ValueView::Blob(b))),
            Err(e) => e == ShimError::BadPayload,
        },
        match r {
            Err(e) => e == ShimError::BadPayload <==> !set_request_ok(payload@),
            Ok(_) => set_request_ok(payload@),
        },
{
    let (key, value, _expires) = match parse_set_request(payload) {
        Some(p) => p,
        None => {
            proof {
                if set_request_ok(payload@) {
                    let d = choose|d: Seq<(String, Value)>| #![auto]
                        crate::codec::doc_wf(d) && spec_encode_doc(d) == payload@ && (spec_field(
                            d,
                            "key"@,
                        ) matches Some(ValueView::Text(_))) && (spec_field(d, "value"@)
                            matches Some(ValueView::Blob(_))) && (spec_field(d, "expires"@)
                            matches Some(ValueView::U64(_)));
                    crate::codec::lemma_encode_then_decode(d);
                    let d2 = choose|d2: Seq<(String, Value)>|
                        {
                            &&& crate::codec::doc_wf(d2)
                            &&& spec_encode_doc(d2) == payload@
                            &&& !((spec_field(d2, "key"@) matches Some(ValueView::Text(_))) && (
                            spec_field(d2, "value"@) matches Some(ValueView::Blob(_))) && (
                            spec_field(d2, "expires"@) matches Some(ValueView::U64(_))))
                        };
                    lemma_set_fields(payload@, d2);
                    assert(false);
                }
            }
            return Err(ShimError::BadPayload);
        },
    };
    proof {
        let d0 = choose|d: Seq<(String, Value)>|
            {
                &&& crate::codec::doc_wf(d)
                &&& spec_encode_doc(d) == payload@
                &&& spec_field(d, "key"@) == Some(ValueView::Text(key@))
                &&& spec_field(d, "value"@) == Some(ValueView::Blob(value@))
                &&& spec_field(d, "expires"@) == Some(ValueView::U64(_expires))
            };
        assert(spec_field(d0, "key"@) matches Some(ValueView::Text(_)));
        assert(spec_field(d0, "value"@) matches Some(ValueView::Blob(_)));
        assert(spec_field(d0, "expires"@) matches Some(ValueView::U64(_)));
        assert(set_request_ok(payload@));
    }
    let bucket = ctx.open_bucket(String::from_str(""));
    let outgoing = ctx.new_outgoing_value();
    let written = ctx.outgoing_value_write_body_sync(outgoing, value);
    proof {
        assert(written is Ok);
    }
    let outcome = match ctx.set(bucket, key, outgoing) {
        Ok(inner) => inner,
        Err(_) => {
            proof {
                assert(false);
            }
            return Err(ShimError::BadPayload);
        },
    };
    let reply = match outcome {
        Ok(_) => {
            proof {
                lemma_schema_names_ascii();
            }
            match encode_reply1(&String::from_str("ok"), Value::Flag(true)) {
                Some(b) => b,
                None => {
                    proof {
                        assert(false);
                    }
                    Vec::new()
                },
            }
        },
        Err(eh) => {
            let trace = match ctx.trace(eh) {
                Ok(t) => t,
                Err(_) => {
                    proof {
                        assert(false);
                    }
                    return Err(ShimError::BadPayload);
                },
            };
            let b = encode_error_reply(&trace);
            let dropped_err = ctx.drop_error(eh);
            proof {
                assert(dropped_err is Ok);
            }
            b
        },
    };
    let dropped_out = ctx.drop_outgoing_value(outgoing);
    let dropped = ctx.drop_bucket(bucket);
    proof {
        assert(dropped_out is Ok);
        assert(dropped is Ok);
        assert(final(ctx).table@ =~= old(ctx).table@);
    }
    Ok(reply)
}

/// Run the legacy `KeyValue.Get` operation: decode `{key}`, read the value
/// through the native get, and reply `{exists, value}` — a missing key is
/// `exists: false`, since the legacy schema has that vocabulary even though
/// the native one does not.
pub fn legacy_get<A: KeyValueAtomic, R: KeyValueReadWrite>(
    ctx: &mut Ctx<A, R>,
    payload: &Vec<u8>,
) -> (r: Result<Vec<u8>, ShimError>)
    ensures
        final(ctx).table@ == old(ctx).table@,
        final(ctx).atomic == old(ctx).atomic,
        match r {
            Ok(reply) => (exists|b: Seq<u8>|
                b.len() <= 0xFFFF_FFFF && reply@ == spec_reply2(
                    "exists"@,
                    ValueView::Flag(true),
                    "value"@,
                    ValueView::Blob(b),
                )) || reply@ == spec_reply1("exists"@, ValueView::Flag(false)),
            Err(e) => e == ShimError::BadPayload || e == ShimError::ReplyOutOfRange,
        },
        match r {
            Err(e) => e == ShimError::BadPayload <==> !key_request_ok(payload@),
            Ok(_) => key_request_ok(payload@),
        },
{
    let key = match parse_key_request(payload) {
        Some(k) => k,
        None => {
            proof {
                if key_request_ok(payload@) {
                    let d = choose|d: Seq<(String, Value)>| #![auto]
                        crate::codec::doc_wf(d) && spec_encode_doc(d) == payload@ && (spec_field(
                            d,
                            "key"@,
                        ) matches Some(ValueView::Text(_)));
                    crate::codec::lemma_encode_then_decode(d);
                    let d2 = choose|d2: Seq<(String, Value)>|
                        {
                            &&& crate::codec::doc_wf(d2)
                            &&& spec_encode_doc(d2) == payload@
                            &&& !(spec_field(d2, "key"@) matches Some(ValueView::Text(_)))
                        };
                    lemma_key_fields(payload@, d2);
                    assert(false);
                }
            }
            return Err(ShimError::BadPayload);
        },
    };
    proof {
        let d0 = choose|d: Seq<(String, Value)>|
            {
                &&& crate::codec::doc_wf(d)
                &&& spec_encode_doc(d) == payload@
                &&& spec_field(d, "key"@) == Some(ValueView::Text(key@))
            };
        assert(spec_field(d0, "key"@) matches Some(ValueView::Text(_)));
        assert(key_request_ok(payload@));
    }
    let bucket = ctx.open_bucket(String::from_str(""));
    let outcome = match ctx.get(bucket, key) {
        Ok(inner) => inner,
        Err(_) => {
            proof {
                assert(false);
            }
            return Err(ShimError::BadPayload);
        },
    };
    match outcome {
        Ok(vh) => {
            let body = match ctx.incoming_value_consume_sync(vh) {
                Ok(Ok(b)) => b,
                Ok(Err(eh)) => {
                    // The backend handed back fewer bytes than it declared:
                    // surfaced to legacy callers as an absent key.
                    let dropped_err = ctx.drop_error(eh);
                    let dropped = ctx.drop_bucket(bucket);
                    proof {
                        lemma_schema_names_ascii();
                        assert(dropped_err is Ok);
                        assert(dropped is Ok);
                        assert(final(ctx).table@ =~= old(ctx).table@);
                    }
                    return match encode_reply1(
                        &String::from_str("exists"),
                        Value::Flag(false),
                    ) {
                        Some(b) => Ok(b),
                        None => {
                            proof {
                                assert(false);
                            }
                            Err(ShimError::BadPayload)
                        },
                    };
                },
                Err(_) => {
                    proof {
                        assert(false);
                    }
                    return Err(ShimError::BadPayload);
                },
            };
            let dropped = ctx.drop_bucket(bucket);
            proof {
                assert(dropped is Ok);
                assert(final(ctx).table@ =~= old(ctx).table@);
            }
            if body.len() > 0xFFFF_FFFFusize {
                return Err(ShimError::ReplyOutOfRange);
            }
            proof {
                lemma_schema_names_ascii();
            }
            match encode_reply2(
                &String::from_str("exists"),
                Value::Flag(true),
                &String::from_str("value"),
                Value::Blob(body),
            ) {
                Some(b) => Ok(b),
                None => {
                    proof {
                        assert(false);
                    }
                    Err(ShimError::BadPayload)
                },
            }
        },
        Err(eh) => {
            let dropped_err = ctx.drop_error(eh);
            let dropped = ctx.drop_bucket(bucket);
            proof {
                lemma_schema_names_ascii();
                assert(dropped_err is Ok);
                assert(dropped is Ok);
                assert(final(ctx).table@ =~= old(ctx).table@);
            }
            match encode_reply1(&String::from_str("exists"), Value::Flag(false)) {
                Some(b) => Ok(b),
                None => {
                    proof {
                        assert(false);
                    }
                    Err(ShimError::BadPayload)
                },
            }
        },
    }
}

/// Run the legacy `KeyValue.Del` operation: decode `{key}`, delete through
/// the native operation, and acknowledge with `{ok: true}` or report the
/// capability failure.
pub fn legacy_del<A: KeyValueAtomic, R: KeyValueReadWrite>(
    ctx: &mut Ctx<A, R>,
    payload: &Vec<u8>,
) -> (r: Result<Vec<u8>, ShimError>)
    ensures
        final(ctx).table@ == old(ctx).table@,
        final(ctx).atomic == old(ctx).atomic,
        match r {
            Ok(reply) => reply@ == spec_reply1("ok"@, ValueView::Flag(true)) || (exists|
                b: Seq<u8>,
            |
                b.len() <= 0xFFFF_FFFF && reply@ == spec_reply1("error"@, ValueView::Blob(b))),
            Err(e) => e == ShimError::BadPayload,
        },
        match r {
            Err(e) => e == ShimError::BadPayload <==> !key_request_ok(payload@),
            Ok(_) => key_request_ok(payload@),
        },
{
    let key = match parse_key_request(payload) {
        Some(k) => k,
        None => {
            proof {
                if key_request_ok(payload@) {
                    let d = choose|d: Seq<(String, Value)>| #![auto]
                        crate::codec::doc_wf(d) && spec_encode_doc(d) == payload@ && (spec_field(
                            d,
                            "key"@,
                        ) matches Some(ValueView::Text(_)));
                    crate::codec::lemma_encode_then_decode(d);
                    let d2 = choose|d2: Seq<(String, Value)>|
                        {
                            &&& crate::codec::doc_wf(d2)
                            &&& spec_encode_doc(d2) == payload@
                            &&& !(spec_field(d2, "key"@) matches Some(ValueView::Text(_)))
                        };
                    lemma_key_fields(payload@, d2);
                    assert(false);
                }
            }
            return Err(ShimError::BadPayload);
        },
    };
    proof {
        let d0 = choose|d: Seq<(String, Value)>|
            {
                &&& crate::codec::doc_wf(d)
                &&& spec_encode_doc(d) == payload@
                &&& spec_field(d, "key"@) == Some(ValueView::Text(key@))
            };
        assert(spec_field(d0, "key"@) matches Some(ValueView::Text(_)));
        assert(key_request_ok(payload@));
    }
    let bucket = ctx.open_bucket(String::from_str(""));
    let outcome = match ctx.delete(bucket, key) {
        Ok(inner) => inner,
        Err(_) => {
            proof {
                assert(false);
            }
            return Err(ShimError::BadPayload);
        },
    };
    let reply = match outcome {
        Ok(_) => {
            proof {
                lemma_schema_names_ascii();
            }
            match encode_reply1(&String::from_str("ok"), Value::Flag(true)) {
                Some(b) => b,
                None => {
                    proof {
                        assert(false);
                    }
                    Vec::new()
                },
            }
        },
        Err(eh) => {
            let trace = match ctx.trace(eh) {
                Ok(t) => t,
                Err(_) => {
                    proof {
                        assert(false);
                    }
                    return Err(ShimError::BadPayload);
                },
            };
            let b = encode_error_reply(&trace);
            let dropped_err = ctx.drop_error(eh);
            proof {
                assert(dropped_err is Ok);
            }
            b
        },
    };
    let dropped = ctx.drop_bucket(bucket);
    proof {
        assert(dropped is Ok);
        assert(final(ctx).table@ =~= old(ctx).table@);
    }
    Ok(reply)
}

/// Run the legacy `KeyValue.Contains` operation: decode `{key}`, ask the
/// native operation, and reply `{value: bool}` — the native missing-key
/// capability error is widened back to the legacy `false`.
pub fn legacy_contains<A: KeyValueAtomic, R: KeyValueReadWrite>(
    ctx: &mut Ctx<A, R>,
    payload: &Vec<u8>,
) -> (r: Result<Vec<u8>, ShimError>)
    ensures
        final(ctx).table@ == old(ctx).table@,
        final(ctx).atomic == old(ctx).atomic,
        match r {
            Ok(reply) => reply@ == spec_reply1("value"@, ValueView::Flag(true)) || reply@
                == spec_reply1("value"@, ValueView::Flag(false)),
            Err(e) => e == ShimError::BadPayload,
        },
        match r {
            Err(e) => e == ShimError::BadPayload <==> !key_request_ok(payload@),
            Ok(_) => key_request_ok(payload@),
        },
{
    let key = match parse_key_request(payload) {
        Some(k) => k,
        None => {
            proof {
                if key_request_ok(payload@) {
                    let d = choose|d: Seq<(String, Value)>| #![auto]
                        crate::codec::doc_wf(d) && spec_encode_doc(d) == payload@ && (spec_field(
                            d,
                            "key"@,
                        ) matches Some(ValueView::Text(_)));
                    crate::codec::lemma_encode_then_decode(d);
                    let d2 = choose|d2: Seq<(String, Value)>|
                        {
                            &&& crate::codec::doc_wf(d2)
                            &&& spec_encode_doc(d2) == payload@
                            &&& !(spec_field(d2, "key"@) matches Some(ValueView::Text(_)))
                        };
                    lemma_key_fields(payload@, d2);
                    assert(false);
                }
            }
            return Err(ShimError::BadPayload);
        },
    };
    proof {
        let d0 = choose|d: Seq<(String, Value)>|
            {
                &&& crate::codec::doc_wf(d)
                &&& spec_encode_doc(d) == payload@
                &&& spec_field(d, "key"@) == Some(ValueView::Text(key@))
            };
        assert(spec_field(d0, "key"@) matches Some(ValueView::Text(_)));
        assert(key_request_ok(payload@));
    }
    let bucket = ctx.open_bucket(String::from_str(""));
    let outcome = match ctx.contains(bucket, key) {
        Ok(inner) => inner,
        Err(_) => {
            proof {
                assert(false);
            }
            return Err(ShimError::BadPayload);
        },
    };
    let present = match outcome {
        Ok(p) => p,
        Err(eh) => {
            let dropped_err = ctx.drop_error(eh);
            proof {
                assert(dropped_err is Ok);
            }
            false
        },
    };
    let dropped = ctx.drop_bucket(bucket);
    proof {
        lemma_schema_names_ascii();
        assert(dropped is Ok);
        assert(final(ctx).table@ =~= old(ctx).table@);
    }
    match encode_reply1(&String::from_str("value"), Value::Flag(present)) {
        Some(b) => Ok(b),
        None => {
            proof {
                assert(false);
            }
            Err(ShimError::BadPayload)
        },
    }
}

/// The five mapped legacy operation names are pairwise distinct.
proof fn lemma_operation_names_distinct()
    ensures
        "KeyValue.Increment"@ != "KeyValue.Set"@,
        "KeyValue.Increment"@ != "KeyValue.Get"@,
        "KeyValue.Increment"@ != "KeyValue.Del"@,
        "KeyValue.Increment"@ != "KeyValue.Contains"@,
        "KeyValue.Set"@ != "KeyValue.Get"@,
        "KeyValue.Set"@ != "KeyValue.Del"@,
        "KeyValue.Set"@ != "KeyValue.Contains"@,
        "KeyValue.Get"@ != "KeyValue.Del"@,
        "KeyValue.Get"@ != "KeyValue.Contains"@,
        "KeyValue.Del"@ != "KeyValue.Contains"@,
{
    reveal_strlit("KeyValue.Increment");
    reveal_strlit("KeyValue.Set");
    reveal_strlit("KeyValue.Get");
    reveal_strlit("KeyValue.Del");
    reveal_strlit("KeyValue.Contains");
    assert("KeyValue.Increment"@.len() == 18);
    assert("KeyValue.Contains"@.len() == 17);
    assert("KeyValue.Set"@.len() == 12);
    assert("KeyValue.Get"@.len() == 12);
    assert("KeyValue.Del"@.len() == 12);
    assert("KeyValue.Set"@[9] == 'S');
    assert("KeyValue.Get"@[9] == 'G');
    assert("KeyValue.Del"@[9] == 'D');
}

/// Dispatch one legacy envelope `(operation, payload)` against a resolved
/// target.  Only a link target serves the legacy key-value operations; any
/// other target-kind/operation combination is a fatal protocol violation.
/// The resource table leaves every legacy call exactly as it entered it.
pub fn handle_legacy<A: KeyValueAtomic, R: KeyValueReadWrite>(
    ctx: &mut Ctx<A, R>,
    target: &TargetEntity,
    operation: &String,
    payload: &Vec<u8>,
) -> (r: Result<Vec<u8>, ShimError>)
    ensures
        final(ctx).table@ == old(ctx).table@,
        target@ matches TargetEntityView::Peer(_) ==> r == Err::<Vec<u8>, ShimError>(
            ShimError::UnknownOperation,
        ),
        (target@ matches TargetEntityView::Link(_) && operation@ != "KeyValue.Increment"@
            && operation@ != "KeyValue.Set"@ && operation@ != "KeyValue.Get"@ && operation@
            != "KeyValue.Del"@ && operation@ != "KeyValue.Contains"@) ==> r == Err::<
            Vec<u8>,
            ShimError,
        >(ShimError::UnknownOperation),
        (target@ matches TargetEntityView::Link(_) && operation@ == "KeyValue.Increment"@)
            ==> match r {
            Ok(reply) => increment_request_ok(payload@) && ((exists|x: i32|
                x >= 0 && reply@ == spec_reply1("value"@, ValueView::I32(x))) || (exists|
                b: Seq<u8>,
            |
                b.len() <= 0xFFFF_FFFF && reply@ == spec_reply1("error"@, ValueView::Blob(b)))),
            Err(e) => (e == ShimError::BadPayload || e == ShimError::ReplyOutOfRange) && (e
                == ShimError::BadPayload <==> !increment_request_ok(payload@)),
        },
        (target@ matches TargetEntityView::Link(_) && operation@ == "KeyValue.Set"@) ==> match r {
            Ok(reply) => set_request_ok(payload@) && (reply@ == spec_reply1(
                "ok"@,
                ValueView::Flag(true),
            ) || (exists|b: Seq<u8>|
                b.len() <= 0xFFFF_FFFF && reply@ == spec_reply1("error"@, ValueView::Blob(b)))),
            Err(e) => e == ShimError::BadPayload && !set_request_ok(payload@),
        },
        (target@ matches TargetEntityView::Link(_) && operation@ == "KeyValue.Get"@) ==> match r {
            Ok(reply) => key_request_ok(payload@) && ((exists|b: Seq<u8>|
                b.len() <= 0xFFFF_FFFF && reply@ == spec_reply2(
                    "exists"@,
                    ValueView::Flag(true),
                    "value"@,
                    ValueView::Blob(b),
                )) || reply@ == spec_reply1("exists"@, ValueView::Flag(false))),
            Err(e) => (e == ShimError::BadPayload || e == ShimError::ReplyOutOfRange) && (e
                == ShimError::BadPayload <==> !key_request_ok(payload@)),
        },
        (target@ matches TargetEntityView::Link(_) && operation@ == "KeyValue.Del"@) ==> match r {
            Ok(reply) => key_request_ok(payload@) && (reply@ == spec_reply1(
                "ok"@,
                ValueView::Flag(true),
            ) || (exists|b: Seq<u8>|
                b.len() <= 0xFFFF_FFFF && reply@ == spec_reply1("error"@, ValueView::Blob(b)))),
            Err(e) => e == ShimError::BadPayload && !key_request_ok(payload@),
        },
        (target@ matches TargetEntityView::Link(_) && operation@ == "KeyValue.Contains"@)
            ==> match r {
            Ok(reply) => key_request_ok(payload@) && (reply@ == spec_reply1(
                "value"@,
                ValueView::Flag(true),
            ) || reply@ == spec_reply1("value"@, ValueView::Flag(false))),
            Err(e) => e == ShimError::BadPayload && !key_request_ok(payload@),
        },
{
    proof {
        lemma_operation_names_distinct();
    }
    match target {
        TargetEntity::Peer(_) => Err(ShimError::UnknownOperation),
        TargetEntity::Link(_) => {
            if *operation == String::from_str("KeyValue.Increment") {
                legacy_increment(ctx, payload)
            } else if *operation == String::from_str("KeyValue.Set") {
                legacy_set(ctx, payload)
            } else if *operation == String::from_str("KeyValue.Get") {
                legacy_get(ctx, payload)
            } else if *operation == String::from_str("KeyValue.Del") {
                legacy_del(ctx, payload)
            } else if *operation == String::from_str("KeyValue.Contains") {
                legacy_contains(ctx, payload)
            } else {
                Err(ShimError::UnknownOperation)
            }
        },
    }
}

} // verus!
