//! The legacy single-envelope wire encoding: a stable, self-describing
//! binary format for the fixed per-operation payload structs.
//!
//! A payload is a *document*: an ordered list of named fields.  Its encoding
//! is one tag byte `0x4D`, a big-endian 32-bit field count, then each field
//! as a big-endian 32-bit name length, the ASCII name bytes, and one encoded
//! value.  A value is a tag byte followed by its payload: `0x55` an
//! unsigned 64-bit integer, `0x49` a signed 32-bit integer (biased by
//! `2^31`), `0x53` an ASCII string, `0x42` raw bytes (both length-prefixed),
//! and `0x62` a boolean.

use vstd::prelude::*;

verus! {

/// Big-endian bytes of a 32-bit integer.
pub open spec fn spec_be32(n: u32) -> Seq<u8> {
    seq![
        (n >> 24) as u8,
        ((n >> 16) & 0xFF) as u8,
        ((n >> 8) & 0xFF) as u8,
        (n & 0xFF) as u8,
    ]
}

/// The 32-bit integer with the given big-endian bytes.
pub open spec fn spec_combine32(b0: u8, b1: u8, b2: u8, b3: u8) -> u32 {
    ((b0 as u32) << 24) | ((b1 as u32) << 16) | ((b2 as u32) << 8) | (b3 as u32)
}

/// Big-endian bytes of a 64-bit integer.
pub open spec fn spec_be64(n: u64) -> Seq<u8> {
    seq![
        (n >> 56) as u8,
        ((n >> 48) & 0xFF) as u8,
        ((n >> 40) & 0xFF) as u8,
        ((n >> 32) & 0xFF) as u8,
        ((n >> 24) & 0xFF) as u8,
        ((n >> 16) & 0xFF) as u8,
        ((n >> 8) & 0xFF) as u8,
        (n & 0xFF) as u8,
    ]
}

/// The 64-bit integer with the given big-endian bytes.
pub open spec fn spec_combine64(
    b0: u8,
    b1: u8,
    b2: u8,
    b3: u8,
    b4: u8,
    b5: u8,
    b6: u8,
    b7: u8,
) -> u64 {
    ((b0 as u64) << 56) | ((b1 as u64) << 48) | ((b2 as u64) << 40) | ((b3 as u64) << 32) | ((
    b4 as u64) << 24) | ((b5 as u64) << 16) | ((b6 as u64) << 8) | (b7 as u64)
}

/// Reading back the big-endian bytes of `n` yields `n`.
pub proof fn lemma_be32_combine(n: u32)
    ensures
        spec_combine32(
            (n >> 24) as u8,
            ((n >> 16) & 0xFF) as u8,
            ((n >> 8) & 0xFF) as u8,
            (n & 0xFF) as u8,
        ) == n,
{
    assert((((n >> 24) as u8 as u32) << 24) | ((((n >> 16) & 0xFF) as u8 as u32) << 16) | ((((n
        >> 8) & 0xFF) as u8 as u32) << 8) | ((n & 0xFF) as u8 as u32) == n) by (bit_vector);
}

/// The big-endian bytes of the integer read from four bytes are those
/// bytes.
pub proof fn lemma_combine32_split(b0: u8, b1: u8, b2: u8, b3: u8)
    ensures
        spec_be32(spec_combine32(b0, b1, b2, b3)) =~= seq![b0, b1, b2, b3],
{
    let n = spec_combine32(b0, b1, b2, b3);
    assert((((b0 as u32) << 24) | ((b1 as u32) << 16) | ((b2 as u32) << 8) | (b3 as u32)) >> 24
        == b0 as u32) by (bit_vector);
    assert(((((b0 as u32) << 24) | ((b1 as u32) << 16) | ((b2 as u32) << 8) | (b3 as u32)) >> 16)
        & 0xFF == b1 as u32) by (bit_vector);
    assert(((((b0 as u32) << 24) | ((b1 as u32) << 16) | ((b2 as u32) << 8) | (b3 as u32)) >> 8)
        & 0xFF == b2 as u32) by (bit_vector);
    assert((((b0 as u32) << 24) | ((b1 as u32) << 16) | ((b2 as u32) << 8) | (b3 as u32)) & 0xFF
        == b3 as u32) by (bit_vector);
}

/// Reading back the big-endian bytes of `n` yields `n`.
pub proof fn lemma_be64_combine(n: u64)
    ensures
        spec_combine64(
            (n >> 56) as u8,
            ((n >> 48) & 0xFF) as u8,
            ((n >> 40) & 0xFF) as u8,
            ((n >> 32) & 0xFF) as u8,
            ((n >> 24) & 0xFF) as u8,
            ((n >> 16) & 0xFF) as u8,
            ((n >> 8) & 0xFF) as u8,
            (n & 0xFF) as u8,
        ) == n,
{
    assert((((n >> 56) as u8 as u64) << 56) | ((((n >> 48) & 0xFF) as u8 as u64) << 48) | ((((n
        >> 40) & 0xFF) as u8 as u64) << 40) | ((((n >> 32) & 0xFF) as u8 as u64) << 32) | ((((n
        >> 24) & 0xFF) as u8 as u64) << 24) | ((((n >> 16) & 0xFF) as u8 as u64) << 16) | ((((n
        >> 8) & 0xFF) as u8 as u64) << 8) | ((n & 0xFF) as u8 as u64) == n) by (bit_vector);
}

/// The big-endian bytes of the integer read from eight bytes are those
/// bytes.
pub proof fn lemma_combine64_split(b0: u8, b1: u8, b2: u8, b3: u8, b4: u8, b5: u8, b6: u8, b7: u8)
    ensures
        spec_be64(spec_combine64(b0, b1, b2, b3, b4, b5, b6, b7)) =~= seq![
            b0,
            b1,
            b2,
            b3,
            b4,
            b5,
            b6,
            b7,
        ],
{
    let n = spec_combine64(b0, b1, b2, b3, b4, b5, b6, b7);
    assert(n >> 56 == b0 as u64 && (n >> 48) & 0xFF == b1 as u64 && (n >> 40) & 0xFF == b2 as u64
        && (n >> 32) & 0xFF == b3 as u64 && (n >> 24) & 0xFF == b4 as u64 && (n >> 16) & 0xFF
        == b5 as u64 && (n >> 8) & 0xFF == b6 as u64 && n & 0xFF == b7 as u64) by (bit_vector)
        requires
            n == ((b0 as u64) << 56) | ((b1 as u64) << 48) | ((b2 as u64) << 40) | ((b3
                as u64) << 32) | ((b4 as u64) << 24) | ((b5 as u64) << 16) | ((b6 as u64) << 8) | (
            b7 as u64),
    ;
}

/// Append the big-endian bytes of `n` to `out`.
pub fn write_be32(out: &mut Vec<u8>, n: u32)
    ensures
        final(out)@ == old(out)@ + spec_be32(n),
{
    out.push((n >> 24) as u8);
    out.push(((n >> 16) & 0xFF) as u8);
    out.push(((n >> 8) & 0xFF) as u8);
    out.push((n & 0xFF) as u8);
    proof {
        assert(out@ =~= old(out)@ + spec_be32(n));
    }
}

/// Append the big-endian bytes of `n` to `out`.
pub fn write_be64(out: &mut Vec<u8>, n: u64)
    ensures
        final(out)@ == old(out)@ + spec_be64(n),
{
    out.push((n >> 56) as u8);
    out.push(((n >> 48) & 0xFF) as u8);
    out.push(((n >> 40) & 0xFF) as u8);
    out.push(((n >> 32) & 0xFF) as u8);
    out.push(((n >> 24) & 0xFF) as u8);
    out.push(((n >> 16) & 0xFF) as u8);
    out.push(((n >> 8) & 0xFF) as u8);
    out.push((n & 0xFF) as u8);
    proof {
        assert(out@ =~= old(out)@ + spec_be64(n));
    }
}

/// Read the big-endian 32-bit integer at `off`.
pub fn read_be32(bytes: &Vec<u8>, off: usize) -> (n: u32)
    requires
        off + 4 <= bytes@.len(),
    ensures
        n == spec_combine32(
            bytes@[off as int],
            bytes@[off as int + 1],
            bytes@[off as int + 2],
            bytes@[off as int + 3],
        ),
        bytes@.subrange(off as int, off as int + 4) =~= spec_be32(n),
{
    let total = bytes.len();
    let b0 = bytes[off];
    let b1 = bytes[off + 1];
    let b2 = bytes[off + 2];
    let b3 = bytes[off + 3];
    let n = ((b0 as u32) << 24) | ((b1 as u32) << 16) | ((b2 as u32) << 8) | (b3 as u32);
    proof {
        lemma_combine32_split(b0, b1, b2, b3);
    }
    n
}

/// Read the big-endian 64-bit integer at `off`.
pub fn read_be64(bytes: &Vec<u8>, off: usize) -> (n: u64)
    requires
        off + 8 <= bytes@.len(),
    ensures
        bytes@.subrange(off as int, off as int + 8) =~= spec_be64(n),
{
    let total = bytes.len();
    let b0 = bytes[off];
    let b1 = bytes[off + 1];
    let b2 = bytes[off + 2];
    let b3 = bytes[off + 3];
    let b4 = bytes[off + 4];
    let b5 = bytes[off + 5];
    let b6 = bytes[off + 6];
    let b7 = bytes[off + 7];
    let n = ((b0 as u64) << 56) | ((b1 as u64) << 48) | ((b2 as u64) << 40) | ((b3 as u64) << 32)
        | ((b4 as u64) << 24) | ((b5 as u64) << 16) | ((b6 as u64) << 8) | (b7 as u64);
    proof {
        lemma_combine64_split(b0, b1, b2, b3, b4, b5, b6, b7);
    }
    n
}

/// Whether every character of `s` is ASCII.
pub open spec fn is_ascii_seq(s: Seq<char>) -> bool {
    forall|i: int| 0 <= i < s.len() ==> (#[trigger] s[i] as u32) < 128
}

/// The ASCII bytes of `s`, one byte per character.
pub open spec fn ascii_bytes(s: Seq<char>) -> Seq<u8> {
    Seq::new(s.len(), |i: int| (s[i] as u32) as u8)
}

/// The ASCII bytes of `s`, or `None` if some character is not ASCII.
pub fn text_to_ascii(s: &String) -> (r: Option<Vec<u8>>)
    ensures
        match r {
            Some(v) => is_ascii_seq(s@) && v@ == ascii_bytes(s@),
            None => !is_ascii_seq(s@),
        },
{
    let n = s.as_str().unicode_len();
    let mut out: Vec<u8> = Vec::new();
    let mut i: usize = 0;
    while i < n
        invariant
            i <= n,
            n == s@.len(),
            out@.len() == i,
            forall|j: int| 0 <= j < i ==> (#[trigger] s@[j] as u32) < 128,
            forall|j: int| 0 <= j < i ==> #[trigger] out@[j] == (s@[j] as u32) as u8,
        decreases n - i,
    {
        let c = s.as_str().get_char(i);
        if !((c as u32) < 128) {
            return None;
        }
        out.push((c as u32) as u8);
        i += 1;
    }
    proof {
        assert(out@ =~= ascii_bytes(s@));
    }
    Some(out)
}

/// Relies on `String::from_utf8` and `str::is_ascii` from std: a byte
/// sequence in which every byte is below `0x80` is valid UTF-8 and decodes
/// to exactly one character per byte, each with that byte's code point.
#[verifier::external_body]
pub fn ascii_to_text(bytes: Vec<u8>) -> (r: Option<String>)
    ensures
        match r {
            Some(s) => s@.len() == bytes@.len() && is_ascii_seq(s@) && ascii_bytes(s@) == bytes@,
            None => !(forall|i: int| 0 <= i < bytes@.len() ==> #[trigger] bytes@[i] < 128),
        },
{
    match String::from_utf8(bytes) {
        Ok(s) => {
            if s.as_str().is_ascii() {
                Some(s)
            } else {
                None
            }
        },
        Err(_) => None,
    }
}

/// One field value of a legacy payload document.
pub enum Value {
    U64(u64),
    I32(i32),
    Text(String),
    Blob(Vec<u8>),
    Flag(bool),
}

/// Mathematical model of a [`Value`].
pub enum ValueView {
    U64(u64),
    I32(i32),
    Text(Seq<char>),
    Blob(Seq<u8>),
    Flag(bool),
}

impl View for Value {
    type V = ValueView;

    open spec fn view(&self) -> ValueView {
        match self {
            Value::U64(n) => ValueView::U64(*n),
            Value::I32(n) => ValueView::I32(*n),
            Value::Text(s) => ValueView::Text(s@),
            Value::Blob(b) => ValueView::Blob(b@),
            Value::Flag(b) => ValueView::Flag(*b),
        }
    }
}

/// Whether a value can be encoded: strings must be ASCII, and
/// length-prefixed payloads must fit their 32-bit length field.
pub open spec fn value_wf(v: ValueView) -> bool {
    match v {
        ValueView::U64(_) => true,
        ValueView::I32(_) => true,
        ValueView::Text(s) => is_ascii_seq(s) && s.len() <= 0xFFFF_FFFF,
        ValueView::Blob(b) => b.len() <= 0xFFFF_FFFF,
        ValueView::Flag(_) => true,
    }
}

/// The biased 32-bit representation of a signed 32-bit integer.
pub open spec fn spec_bias32(n: i32) -> u32 {
    ((n as int) + 0x8000_0000) as u32
}

/// The signed 32-bit integer with the given biased representation.
pub open spec fn spec_unbias32(u: u32) -> i32 {
    ((u as int) - 0x8000_0000) as i32
}

/// The encoding of one value.
pub open spec fn spec_encode_value(v: ValueView) -> Seq<u8> {
    match v {
        ValueView::U64(n) => seq![0x55u8] + spec_be64(n),
        ValueView::I32(n) => seq![0x49u8] + spec_be32(spec_bias32(n)),
        ValueView::Text(s) => seq![0x53u8] + spec_be32(s.len() as u32) + ascii_bytes(s),
        ValueView::Blob(b) => seq![0x42u8] + spec_be32(b.len() as u32) + b,
        ValueView::Flag(b) => seq![0x62u8, if b { 1u8 } else { 0u8 }],
    }
}

/// Append the encoding of `v` to `out`; fails exactly when `v` cannot be
/// encoded, leaving `out` as it was.
pub fn encode_value(out: &mut Vec<u8>, v: &Value) -> (r: Result<(), ()>)
    ensures
        match r {
            Ok(u) => value_wf(v@) && final(out)@ == old(out)@ + spec_encode_value(v@),
            Err(e) => !value_wf(v@) && final(out)@ == old(out)@,
        },
{
    match v {
        Value::U64(n) => {
            out.push(0x55);
            write_be64(out, *n);
            proof {
                assert(out@ =~= old(out)@ + spec_encode_value(v@));
            }
            Ok(())
        },
        Value::I32(n) => {
            let biased: u32 = ((*n as i64) + 0x8000_0000i64) as u32;
            out.push(0x49);
            write_be32(out, biased);
            proof {
                assert(out@ =~= old(out)@ + spec_encode_value(v@));
            }
            Ok(())
        },
        Value::Text(s) => {
            let data = match text_to_ascii(s) {
                Some(d) => d,
                None => {
                    return Err(());
                },
            };
            if data.len() > 0xFFFF_FFFFusize {
                return Err(());
            }
            out.push(0x53);
            write_be32(out, data.len() as u32);
            append_bytes(out, &data);
            proof {
                assert(out@ =~= old(out)@ + spec_encode_value(v@));
            }
            Ok(())
        },
        Value::Blob(b) => {
            if b.len() > 0xFFFF_FFFFusize {
                return Err(());
            }
            out.push(0x42);
            write_be32(out, b.len() as u32);
            append_bytes(out, b);
            proof {
                assert(out@ =~= old(out)@ + spec_encode_value(v@));
            }
            Ok(())
        },
        Value::Flag(b) => {
            out.push(0x62);
            out.push(if *b {
                1
            } else {
                0
            });
            proof {
                assert(out@ =~= old(out)@ + spec_encode_value(v@));
            }
            Ok(())
        },
    }
}

/// Append all of `src` to `dst`.
pub fn append_bytes(dst: &mut Vec<u8>, src: &Vec<u8>)
    ensures
        final(dst)@ == old(dst)@ + src@,
{
    let mut i: usize = 0;
    while i < src.len()
        invariant
            i <= src.len(),
            dst@ == old(dst)@ + src@.subrange(0, i as int),
        decreases src.len() - i,
    {
        dst.push(src[i]);
        proof {
            assert(old(dst)@ + src@.subrange(0, i as int) + seq![src@[i as int]] =~= old(dst)@
                + src@.subrange(0, i as int + 1));
        }
        i += 1;
    }
    proof {
        assert(old(dst)@ + src@.subrange(0, src@.len() as int) =~= old(dst)@ + src@);
    }
}

/// A copy of `v[start .. end]`.
pub fn copy_range(v: &Vec<u8>, start: usize, end: usize) -> (r: Vec<u8>)
    requires
        start <= end <= v@.len(),
    ensures
        r@ == v@.subrange(start as int, end as int),
{
    let mut out: Vec<u8> = Vec::new();
    let mut i: usize = start;
    while i < end
        invariant
            start <= i <= end <= v@.len(),
            out@ == v@.subrange(start as int, i as int),
        decreases end - i,
    {
        out.push(v[i]);
        proof {
            assert(v@.subrange(start as int, i as int) + seq![v@[i as int]] =~= v@.subrange(
                start as int,
                i as int + 1,
            ));
        }
        i += 1;
    }
    out
}

/// Whether the bytes from `off` up to `end` form one encoded value.
pub open spec fn value_frame(b: Seq<u8>, off: int, end: int) -> bool {
    &&& 0 <= off < end <= b.len()
    &&& {
        let tag = b[off];
        ||| (tag == 0x55 && end == off + 9)
        ||| (tag == 0x49 && end == off + 5)
        ||| (tag == 0x53 && off + 5 <= b.len() && end == off + 5 + spec_combine32(
            b[off + 1],
            b[off + 2],
            b[off + 3],
            b[off + 4],
        ) as int && (forall|i: int| off + 5 <= i < end ==> b[i] < 128))
        ||| (tag == 0x42 && off + 5 <= b.len() && end == off + 5 + spec_combine32(
            b[off + 1],
            b[off + 2],
            b[off + 3],
            b[off + 4],
        ) as int)
        ||| (tag == 0x62 && end == off + 2 && (b[off + 1] == 0 || b[off + 1] == 1))
    }
}

/// Parse one value at `off`.  A parsed value re-encodes to exactly the
/// bytes consumed; parsing fails exactly when no well-formed value frame
/// starts at `off`.
pub fn parse_value(bytes: &Vec<u8>, off: usize) -> (r: Option<(Value, usize)>)
    requires
        off <= bytes@.len(),
    ensures
        match r {
            Some(p) => off < p.1 <= bytes@.len() && value_wf(p.0@) && bytes@.subrange(
                off as int,
                p.1 as int,
            ) == spec_encode_value(p.0@) && value_frame(bytes@, off as int, p.1 as int),
            None => forall|end: int| !value_frame(bytes@, off as int, end),
        },
{
    if off >= bytes.len() {
        return None;
    }
    let tag = bytes[off];
    if tag == 0x55 {
        if bytes.len() - off < 9 {
            return None;
        }
        let n = read_be64(bytes, off + 1);
        proof {
            assert(bytes@.subrange(off as int, off as int + 9) =~= seq![0x55u8]
                + bytes@.subrange(off as int + 1, off as int + 9));
        }
        Some((Value::U64(n), off + 9))
    } else if tag == 0x49 {
        if bytes.len() - off < 5 {
            return None;
        }
        let biased = read_be32(bytes, off + 1);
        let n: i32 = ((biased as i64) - 0x8000_0000i64) as i32;
        proof {
            assert(spec_bias32(((biased as int) - 0x8000_0000) as i32) == biased);
            assert(bytes@.subrange(off as int, off as int + 5) =~= seq![0x49u8]
                + bytes@.subrange(off as int + 1, off as int + 5));
        }
        Some((Value::I32(n), off + 5))
    } else if tag == 0x53 {
        if bytes.len() - off < 5 {
            return None;
        }
        let len = read_be32(bytes, off + 1);
        if (len as u64) > (bytes.len() - off - 5) as u64 {
            return None;
        }
        let start = off + 5;
        let end = start + (len as usize);
        let data = copy_range(bytes, start, end);
        let ghost data_view = data@;
        let text = match ascii_to_text(data) {
            Some(t) => t,
            None => {
                proof {
                    assert(exists|i: int| 0 <= i < data_view.len() && data_view[i] >= 128);
                    let i = choose|i: int| 0 <= i < data_view.len() && data_view[i] >= 128;
                    assert(bytes@[start + i] >= 128);
                    assert forall|end2: int| !value_frame(bytes@, off as int, end2) by {
                        if value_frame(bytes@, off as int, end2) {
                            assert(end2 == end);
                            assert(bytes@[start + i] < 128);
                        }
                    };
                }
                return None;
            },
        };
        proof {
            assert(bytes@.subrange(off as int, end as int) =~= seq![0x53u8] + bytes@.subrange(
                off as int + 1,
                off as int + 5,
            ) + bytes@.subrange(start as int, end as int));
            assert forall|i: int| off + 5 <= i < end implies bytes@[i] < 128 by {
                let j = i - (off + 5);
                assert(data_view[j] == bytes@[i]);
                assert(data_view[j] == ascii_bytes(text@)[j]);
                assert((text@[j] as u32) < 128);
            };
        }
        Some((Value::Text(text), end))
    } else if tag == 0x42 {
        if bytes.len() - off < 5 {
            return None;
        }
        let len = read_be32(bytes, off + 1);
        if (len as u64) > (bytes.len() - off - 5) as u64 {
            return None;
        }
        let start = off + 5;
        let end = start + (len as usize);
        let data = copy_range(bytes, start, end);
        proof {
            assert(bytes@.subrange(off as int, end as int) =~= seq![0x42u8] + bytes@.subrange(
                off as int + 1,
                off as int + 5,
            ) + bytes@.subrange(start as int, end as int));
        }
        Some((Value::Blob(data), end))
    } else if tag == 0x62 {
        if bytes.len() - off < 2 {
            return None;
        }
        let flag = bytes[off + 1];
        if flag == 1 {
            proof {
                assert(bytes@.subrange(off as int, off as int + 2) =~= seq![0x62u8, 1u8]);
            }
            Some((Value::Flag(true), off + 2))
        } else if flag == 0 {
            proof {
                assert(bytes@.subrange(off as int, off as int + 2) =~= seq![0x62u8, 0u8]);
            }
            Some((Value::Flag(false), off + 2))
        } else {
            None
        }
    } else {
        None
    }
}

/// Two value frames starting at the same offset end at the same place.
pub proof fn lemma_value_frame_unique(b: Seq<u8>, off: int, e1: int, e2: int)
    requires
        value_frame(b, off, e1),
        value_frame(b, off, e2),
    ensures
        e1 == e2,
{
}

/// One encoded field: a name length, the ASCII name bytes up to `nend`, and
/// one value frame up to `vend`.
pub open spec fn field_frame(b: Seq<u8>, off: int, nend: int, vend: int) -> bool {
    &&& 0 <= off
    &&& off + 4 <= b.len()
    &&& nend == off + 4 + spec_combine32(b[off], b[off + 1], b[off + 2], b[off + 3]) as int
    &&& nend <= b.len()
    &&& (forall|i: int| off + 4 <= i < nend ==> b[i] < 128)
    &&& value_frame(b, nend, vend)
}

/// Two field frames starting at the same offset agree on both ends.
pub proof fn lemma_field_frame_unique(
    b: Seq<u8>,
    off: int,
    n1: int,
    v1: int,
    n2: int,
    v2: int,
)
    requires
        field_frame(b, off, n1, v1),
        field_frame(b, off, n2, v2),
    ensures
        n1 == n2,
        v1 == v2,
{
    lemma_value_frame_unique(b, n1, v1, v2);
}

/// Where a chain of `count` encoded fields starting at `off` ends, if the
/// bytes form one.
pub open spec fn fields_frame_end(b: Seq<u8>, off: int, count: int) -> Option<int>
    decreases count,
{
    if count <= 0 {
        Some(off)
    } else if exists|nend: int, vend: int| field_frame(b, off, nend, vend) {
        let (nend, vend) = choose|nend: int, vend: int| field_frame(b, off, nend, vend);
        fields_frame_end(b, vend, count - 1)
    } else {
        None
    }
}

/// A well-formed field frame is the step the chain takes.
pub proof fn lemma_fields_frame_step(b: Seq<u8>, off: int, count: int, nend: int, vend: int)
    requires
        count > 0,
        field_frame(b, off, nend, vend),
    ensures
        fields_frame_end(b, off, count) == fields_frame_end(b, vend, count - 1),
{
    let (cn, cv) = choose|cn: int, cv: int| field_frame(b, off, cn, cv);
    lemma_field_frame_unique(b, off, cn, cv, nend, vend);
}

/// Whether the whole of `b` is one encoded document.
pub open spec fn doc_frame(b: Seq<u8>) -> bool {
    &&& b.len() >= 5
    &&& b[0] == 0x4D
    &&& fields_frame_end(b, 5, spec_combine32(b[1], b[2], b[3], b[4]) as int) == Some(
        b.len() as int,
    )
}

/// An embedded encoding of a well-formed value is one value frame.
pub proof fn lemma_encoded_value_frame(b: Seq<u8>, off: int, v: ValueView)
    requires
        value_wf(v),
        0 <= off,
        off + spec_encode_value(v).len() <= b.len(),
        b.subrange(off, off + spec_encode_value(v).len()) == spec_encode_value(v),
    ensures
        value_frame(b, off, off + spec_encode_value(v).len()),
{
    let enc = spec_encode_value(v);
    assert(b[off] == enc[0]);
    match v {
        ValueView::U64(n) => {
            assert(enc.len() == 9);
        },
        ValueView::I32(n) => {
            assert(enc.len() == 5);
        },
        ValueView::Text(t) => {
            let n = t.len() as u32;
            assert(enc.len() == 5 + t.len());
            assert(b[off + 1] == enc[1] && b[off + 2] == enc[2] && b[off + 3] == enc[3] && b[off
                + 4] == enc[4]);
            lemma_be32_combine(n);
            assert(spec_combine32(b[off + 1], b[off + 2], b[off + 3], b[off + 4]) == n);
            assert forall|i: int| off + 5 <= i < off + enc.len() implies b[i] < 128 by {
                let j = i - (off + 5);
                assert(b[i] == enc[5 + j]);
                assert(enc[5 + j] == ascii_bytes(t)[j]);
                assert((t[j] as u32) < 128);
            };
        },
        ValueView::Blob(data) => {
            let n = data.len() as u32;
            assert(enc.len() == 5 + data.len());
            assert(b[off + 1] == enc[1] && b[off + 2] == enc[2] && b[off + 3] == enc[3] && b[off
                + 4] == enc[4]);
            lemma_be32_combine(n);
            assert(spec_combine32(b[off + 1], b[off + 2], b[off + 3], b[off + 4]) == n);
        },
        ValueView::Flag(f) => {
            assert(enc.len() == 2);
            assert(b[off + 1] == enc[1]);
        },
    }
}

/// An embedded encoding of a chain of well-formed fields is one chain of
/// field frames, ending where the encoding ends.
pub proof fn lemma_encoded_fields_frame(b: Seq<u8>, off: int, d: Seq<(String, Value)>)
    requires
        0 <= off,
        forall|i: int| 0 <= i < d.len() ==> is_ascii_seq(#[trigger] d[i].0@) && d[i].0@.len()
            <= 0xFFFF_FFFF && value_wf(d[i].1@),
        off + spec_encode_fields(d).len() <= b.len(),
        b.subrange(off, off + spec_encode_fields(d).len()) == spec_encode_fields(d),
    ensures
        fields_frame_end(b, off, d.len() as int) == Some(off + spec_encode_fields(d).len()),
    decreases d.len(),
{
    if d.len() == 0 {
        assert(spec_encode_fields(d).len() == 0);
    } else {
        let f = d[0];
        let name = f.0@;
        let v = f.1@;
        let enc = spec_encode_fields(d);
        let fenc = spec_encode_field(f);
        let rest = spec_encode_fields(d.skip(1));
        assert(enc == fenc + rest);
        let nend = off + 4 + name.len();
        let vend = off + fenc.len();
        assert(fenc == spec_be32(name.len() as u32) + ascii_bytes(name) + spec_encode_value(v));
        assert(b[off] == enc[0] && b[off + 1] == enc[1] && b[off + 2] == enc[2] && b[off + 3]
            == enc[3]);
        lemma_be32_combine(name.len() as u32);
        assert(spec_combine32(b[off], b[off + 1], b[off + 2], b[off + 3]) == name.len() as u32);
        assert forall|i: int| off + 4 <= i < nend implies b[i] < 128 by {
            let j = i - (off + 4);
            assert(b[i] == enc[4 + j]);
            assert(enc[4 + j] == ascii_bytes(name)[j]);
            assert((name[j] as u32) < 128);
        };
        let voff = nend;
        let vlen = spec_encode_value(v).len();
        assert(b.subrange(voff, voff + vlen) =~= spec_encode_value(v)) by {
            assert forall|i: int| 0 <= i < vlen implies b.subrange(voff, voff + vlen)[i]
                == spec_encode_value(v)[i] by {
                assert(b[voff + i] == enc[4 + name.len() + i]);
                assert(enc[4 + name.len() + i] == spec_encode_value(v)[i]);
            };
        };
        lemma_encoded_value_frame(b, voff, v);
        assert(field_frame(b, off, nend, vend));
        lemma_fields_frame_step(b, off, d.len() as int, nend, vend);
        assert(b.subrange(vend, vend + rest.len()) =~= rest) by {
            assert forall|i: int| 0 <= i < rest.len() implies b.subrange(vend, vend
                + rest.len())[i] == rest[i] by {
                assert(b[vend + i] == enc[fenc.len() + i]);
                assert(enc[fenc.len() + i] == rest[i]);
            };
        };
        assert forall|i: int| 0 <= i < d.skip(1).len() implies is_ascii_seq(
            #[trigger] d.skip(1)[i].0@,
        ) && d.skip(1)[i].0@.len() <= 0xFFFF_FFFF && value_wf(d.skip(1)[i].1@) by {
            assert(d.skip(1)[i] == d[i + 1]);
        };
        lemma_encoded_fields_frame(b, vend, d.skip(1));
    }
}

/// Law: the encoding of a well-formed document is one document frame, so
/// decoding what `encode_document` produced always succeeds, and by
/// `decode_document`'s contract what it yields re-encodes to those same
/// bytes.
pub proof fn lemma_encode_then_decode(d: Seq<(String, Value)>)
    requires
        doc_wf(d),
    ensures
        doc_frame(spec_encode_doc(d)),
{
    let b = spec_encode_doc(d);
    let fields = spec_encode_fields(d);
    assert(b.len() == 5 + fields.len());
    assert(b[0] == 0x4D);
    assert(b[1] == spec_be32(d.len() as u32)[0] && b[2] == spec_be32(d.len() as u32)[1] && b[3]
        == spec_be32(d.len() as u32)[2] && b[4] == spec_be32(d.len() as u32)[3]);
    lemma_be32_combine(d.len() as u32);
    assert(spec_combine32(b[1], b[2], b[3], b[4]) == d.len() as u32);
    assert(b.subrange(5, 5 + fields.len() as int) =~= fields) by {
        assert forall|i: int| 0 <= i < fields.len() implies b.subrange(5, 5 + fields.len() as int)[i]
            == fields[i] by {
            assert(b[5 + i] == fields[i]);
        };
    };
    lemma_encoded_fields_frame(b, 5, d);
}

/// Whether a document can be encoded.
pub open spec fn doc_wf(s: Seq<(String, Value)>) -> bool {
    &&& s.len() <= 0xFFFF_FFFF
    &&& forall|i: int| 0 <= i < s.len() ==> is_ascii_seq(#[trigger] s[i].0@) && s[i].0@.len()
        <= 0xFFFF_FFFF && value_wf(s[i].1@)
}

/// The encoding of one field, over its mathematical content: name length,
/// name bytes, value.
pub open spec fn spec_encode_field_v(name: Seq<char>, v: ValueView) -> Seq<u8> {
    spec_be32(name.len() as u32) + ascii_bytes(name) + spec_encode_value(v)
}

/// The encoding of one field.
pub open spec fn spec_encode_field(f: (String, Value)) -> Seq<u8> {
    spec_encode_field_v(f.0@, f.1@)
}

/// The concatenated encodings of a document's fields.
pub open spec fn spec_encode_fields(s: Seq<(String, Value)>) -> Seq<u8>
    decreases s.len(),
{
    if s.len() == 0 {
        Seq::<u8>::empty()
    } else {
        spec_encode_field(s[0]) + spec_encode_fields(s.skip(1))
    }
}

/// Appending one field to a document appends its encoding.
pub proof fn lemma_encode_fields_push(s: Seq<(String, Value)>, f: (String, Value))
    ensures
        spec_encode_fields(s.push(f)) == spec_encode_fields(s) + spec_encode_field(f),
    decreases s.len(),
{
    if s.len() == 0 {
        assert(s =~= Seq::<(String, Value)>::empty());
        assert(s.push(f)[0] == f);
        assert(s.push(f).skip(1) =~= Seq::<(String, Value)>::empty());
        assert(spec_encode_fields(s.push(f)) =~= spec_encode_fields(s) + spec_encode_field(f));
    } else {
        assert(s.push(f).skip(1) =~= s.skip(1).push(f));
        lemma_encode_fields_push(s.skip(1), f);
        assert(s.push(f)[0] == s[0]);
        assert(spec_encode_fields(s.push(f)) == spec_encode_field(s[0]) + spec_encode_fields(
            s.skip(1).push(f),
        ));
        assert(spec_encode_fields(s.push(f)) =~= spec_encode_fields(s) + spec_encode_field(f));
    }
}

/// The encoding of a whole document: tag, field count, fields.
pub open spec fn spec_encode_doc(s: Seq<(String, Value)>) -> Seq<u8> {
    seq![0x4Du8] + spec_be32(s.len() as u32) + spec_encode_fields(s)
}

/// Encode a document; fails exactly when the document is not well-formed.
pub fn encode_document(doc: &Vec<(String, Value)>) -> (r: Option<Vec<u8>>)
    ensures
        match r {
            Some(v) => doc_wf(doc@) && v@ == spec_encode_doc(doc@),
            None => !doc_wf(doc@),
        },
{
    if doc.len() > 0xFFFF_FFFFusize {
        return None;
    }
    let mut out: Vec<u8> = Vec::new();
    out.push(0x4D);
    write_be32(&mut out, doc.len() as u32);
    let mut i: usize = 0;
    while i < doc.len()
        invariant
            i <= doc.len(),
            doc@.len() <= 0xFFFF_FFFF,
            out@ == seq![0x4Du8] + spec_be32(doc@.len() as u32) + spec_encode_fields(
                doc@.subrange(0, i as int),
            ),
            forall|j: int| 0 <= j < i ==> is_ascii_seq(#[trigger] doc@[j].0@) && doc@[j].0@.len()
                <= 0xFFFF_FFFF && value_wf(doc@[j].1@),
        decreases doc.len() - i,
    {
        let name = &doc[i].0;
        let data = match text_to_ascii(name) {
            Some(d) => d,
            None => {
                return None;
            },
        };
        if data.len() > 0xFFFF_FFFFusize {
            return None;
        }
        write_be32(&mut out, data.len() as u32);
        append_bytes(&mut out, &data);
        match encode_value(&mut out, &doc[i].1) {
            Ok(_) => {},
            Err(_) => {
                return None;
            },
        }
        proof {
            lemma_encode_fields_push(doc@.subrange(0, i as int), doc@[i as int]);
            assert(doc@.subrange(0, i as int).push(doc@[i as int]) =~= doc@.subrange(
                0,
                i as int + 1,
            ));
            assert(out@ =~= seq![0x4Du8] + spec_be32(doc@.len() as u32) + spec_encode_fields(
                doc@.subrange(0, i as int + 1),
            ));
        }
        i += 1;
    }
    proof {
        assert(doc@.subrange(0, doc@.len() as int) =~= doc@);
    }
    Some(out)
}

/// Parse a whole document.  A parsed document is well-formed and re-encodes
/// to exactly the input bytes; parsing fails exactly when the bytes are not
/// one document frame.
pub fn decode_document(bytes: &Vec<u8>) -> (r: Option<Vec<(String, Value)>>)
    ensures
        match r {
            Some(doc) => doc_wf(doc@) && spec_encode_doc(doc@) == bytes@ && doc_frame(bytes@),
            None => !doc_frame(bytes@),
        },
{
    if bytes.len() < 5 {
        return None;
    }
    if bytes[0] != 0x4D {
        return None;
    }
    let count = read_be32(bytes, 1);
    let mut doc: Vec<(String, Value)> = Vec::new();
    let mut off: usize = 5;
    let mut k: u32 = 0;
    proof {
        assert(bytes@.subrange(5, 5) =~= Seq::<u8>::empty());
    }
    while k < count
        invariant
            k <= count,
            5 <= off <= bytes@.len(),
            count == spec_combine32(bytes@[1], bytes@[2], bytes@[3], bytes@[4]),
            doc@.len() == k,
            forall|j: int| 0 <= j < doc@.len() ==> is_ascii_seq(#[trigger] doc@[j].0@)
                && doc@[j].0@.len() <= 0xFFFF_FFFF && value_wf(doc@[j].1@),
            bytes@.subrange(5, off as int) == spec_encode_fields(doc@),
            fields_frame_end(bytes@, 5, count as int) == fields_frame_end(
                bytes@,
                off as int,
                count - k,
            ),
        decreases count - k,
    {
        if bytes.len() - off < 4 {
            proof {
                assert(forall|nend: int, vend: int|
                    !field_frame(bytes@, off as int, nend, vend));
            }
            return None;
        }
        let name_len = read_be32(bytes, off);
        if (name_len as u64) > (bytes.len() - off - 4) as u64 {
            proof {
                assert(forall|nend: int, vend: int|
                    !field_frame(bytes@, off as int, nend, vend));
            }
            return None;
        }
        let name_start = off + 4;
        let name_end = name_start + (name_len as usize);
        let name_data = copy_range(bytes, name_start, name_end);
        let ghost name_view = name_data@;
        let name = match ascii_to_text(name_data) {
            Some(t) => t,
            None => {
                proof {
                    assert(exists|i: int| 0 <= i < name_view.len() && name_view[i] >= 128);
                    let i = choose|i: int| 0 <= i < name_view.len() && name_view[i] >= 128;
                    assert(bytes@[name_start + i] >= 128);
                    assert forall|nend: int, vend: int|
                        !field_frame(bytes@, off as int, nend, vend) by {
                        if field_frame(bytes@, off as int, nend, vend) {
                            assert(nend == name_end);
                            assert(bytes@[name_start + i] < 128);
                        }
                    };
                }
                return None;
            },
        };
        let (value, value_end) = match parse_value(bytes, name_end) {
            Some(p) => p,
            None => {
                proof {
                    assert forall|nend: int, vend: int|
                        !field_frame(bytes@, off as int, nend, vend) by {
                        if field_frame(bytes@, off as int, nend, vend) {
                            assert(nend == name_end);
                            assert(value_frame(bytes@, name_end as int, vend));
                        }
                    };
                }
                return None;
            },
        };
        proof {
            assert forall|i: int| name_start <= i < name_end implies bytes@[i] < 128 by {
                let j = i - name_start;
                assert(name_view[j] == bytes@[i]);
                assert(name_view[j] == ascii_bytes(name@)[j]);
                assert((name@[j] as u32) < 128);
            };
            assert(field_frame(bytes@, off as int, name_end as int, value_end as int));
            lemma_fields_frame_step(
                bytes@,
                off as int,
                count - k,
                name_end as int,
                value_end as int,
            );
            assert(bytes@.subrange(off as int, value_end as int) =~= bytes@.subrange(
                off as int,
                off as int + 4,
            ) + bytes@.subrange(name_start as int, name_end as int) + bytes@.subrange(
                name_end as int,
                value_end as int,
            ));
            lemma_encode_fields_push(doc@, (name, value));
            assert(bytes@.subrange(5, value_end as int) =~= bytes@.subrange(5, off as int)
                + bytes@.subrange(off as int, value_end as int));
        }
        doc.push((name, value));
        off = value_end;
        k += 1;
    }
    if off != bytes.len() {
        return None;
    }
    proof {
        assert(bytes@.subrange(5, bytes@.len() as int) == spec_encode_fields(doc@));
        assert(bytes@ =~= seq![0x4Du8] + bytes@.subrange(1, 5) + bytes@.subrange(
            5,
            bytes@.len() as int,
        ));
        assert(spec_encode_doc(doc@) =~= bytes@);
    }
    Some(doc)
}

/// Below 0x80 the byte of a code point determines the code point.
proof fn lemma_ascii_byte_injective(x: u32, y: u32)
    requires
        x < 128,
        y < 128,
        x as u8 == y as u8,
    ensures
        x == y,
{
    assert(x < 128 && y < 128 && x as u8 == y as u8 ==> x == y) by (bit_vector);
}

/// Two characters with the same code point are the same character.
proof fn lemma_char_code_injective(c1: char, c2: char)
    requires
        c1 as u32 == c2 as u32,
    ensures
        c1 == c2,
{
}

/// Equal ASCII byte renderings of equally long ASCII texts mean equal
/// texts.
proof fn lemma_ascii_bytes_injective(s1: Seq<char>, s2: Seq<char>)
    requires
        is_ascii_seq(s1),
        is_ascii_seq(s2),
        s1.len() == s2.len(),
        ascii_bytes(s1) == ascii_bytes(s2),
    ensures
        s1 == s2,
{
    assert forall|i: int| 0 <= i < s1.len() implies s1[i] == s2[i] by {
        assert(ascii_bytes(s1)[i] == (s1[i] as u32) as u8);
        assert(ascii_bytes(s2)[i] == (s2[i] as u32) as u8);
        lemma_ascii_byte_injective(s1[i] as u32, s2[i] as u32);
        lemma_char_code_injective(s1[i], s2[i]);
    };
    assert(s1 =~= s2);
}

/// Two well-formed values with the same encoding have the same model.
pub proof fn lemma_encode_value_injective(v1: ValueView, v2: ValueView)
    requires
        value_wf(v1),
        value_wf(v2),
        spec_encode_value(v1) == spec_encode_value(v2),
    ensures
        v1 == v2,
{
    let e1 = spec_encode_value(v1);
    let e2 = spec_encode_value(v2);
    assert(e1[0] == e2[0]);
    match v1 {
        ValueView::U64(n1) => match v2 {
            ValueView::U64(n2) => {
                assert forall|i: int| 0 <= i < 8 implies spec_be64(n1)[i] == spec_be64(n2)[i] by {
                    assert(e1[1 + i] == e2[1 + i]);
                };
                lemma_be64_combine(n1);
                lemma_be64_combine(n2);
                assert(n1 == n2);
            },
            _ => {
                assert(false);
            },
        },
        ValueView::I32(n1) => match v2 {
            ValueView::I32(n2) => {
                assert forall|i: int| 0 <= i < 4 implies spec_be32(spec_bias32(n1))[i]
                    == spec_be32(spec_bias32(n2))[i] by {
                    assert(e1[1 + i] == e2[1 + i]);
                };
                lemma_be32_combine(spec_bias32(n1));
                lemma_be32_combine(spec_bias32(n2));
                assert(spec_bias32(n1) == spec_bias32(n2));
                assert(n1 == n2);
            },
            _ => {
                assert(false);
            },
        },
        ValueView::Text(s1) => match v2 {
            ValueView::Text(s2) => {
                assert(e1[1] == e2[1] && e1[2] == e2[2] && e1[3] == e2[3] && e1[4] == e2[4]);
                assert(spec_be32(s1.len() as u32)[0] == spec_be32(s2.len() as u32)[0]
                    && spec_be32(s1.len() as u32)[1] == spec_be32(s2.len() as u32)[1]
                    && spec_be32(s1.len() as u32)[2] == spec_be32(s2.len() as u32)[2]
                    && spec_be32(s1.len() as u32)[3] == spec_be32(s2.len() as u32)[3]);
                lemma_be32_combine(s1.len() as u32);
                lemma_be32_combine(s2.len() as u32);
                assert(s1.len() == s2.len());
                assert(ascii_bytes(s1) =~= ascii_bytes(s2)) by {
                    assert forall|i: int| 0 <= i < s1.len() implies ascii_bytes(s1)[i]
                        == ascii_bytes(s2)[i] by {
                        assert(e1[5 + i] == e2[5 + i]);
                        assert(e1[5 + i] == ascii_bytes(s1)[i]);
                        assert(e2[5 + i] == ascii_bytes(s2)[i]);
                    };
                };
                lemma_ascii_bytes_injective(s1, s2);
            },
            _ => {
                assert(false);
            },
        },
        ValueView::Blob(b1) => match v2 {
            ValueView::Blob(b2) => {
                assert(e1[1] == e2[1] && e1[2] == e2[2] && e1[3] == e2[3] && e1[4] == e2[4]);
                assert(spec_be32(b1.len() as u32)[0] == spec_be32(b2.len() as u32)[0]
                    && spec_be32(b1.len() as u32)[1] == spec_be32(b2.len() as u32)[1]
                    && spec_be32(b1.len() as u32)[2] == spec_be32(b2.len() as u32)[2]
                    && spec_be32(b1.len() as u32)[3] == spec_be32(b2.len() as u32)[3]);
                lemma_be32_combine(b1.len() as u32);
                lemma_be32_combine(b2.len() as u32);
                assert(b1.len() == b2.len());
                assert forall|i: int| 0 <= i < b1.len() implies b1[i] == b2[i] by {
                    assert(e1[5 + i] == e2[5 + i]);
                };
                assert(b1 =~= b2);
            },
            _ => {
                assert(false);
            },
        },
        ValueView::Flag(f1) => match v2 {
            ValueView::Flag(f2) => {
                assert(e1[1] == e2[1]);
            },
            _ => {
                assert(false);
            },
        },
    }
}

/// Two equally long chains of well-formed fields with the same encoding
/// have pairwise the same names and value models.
pub proof fn lemma_encode_fields_injective(d1: Seq<(String, Value)>, d2: Seq<(String, Value)>)
    requires
        d1.len() == d2.len(),
        forall|i: int| 0 <= i < d1.len() ==> is_ascii_seq(#[trigger] d1[i].0@) && d1[i].0@.len()
            <= 0xFFFF_FFFF && value_wf(d1[i].1@),
        forall|i: int| 0 <= i < d2.len() ==> is_ascii_seq(#[trigger] d2[i].0@) && d2[i].0@.len()
            <= 0xFFFF_FFFF && value_wf(d2[i].1@),
        spec_encode_fields(d1) == spec_encode_fields(d2),
    ensures
        forall|i: int| 0 <= i < d1.len() ==> #[trigger] d1[i].0@ == d2[i].0@ && d1[i].1@
            == d2[i].1@,
    decreases d1.len(),
{
    if d1.len() == 0 {
    } else {
        let e = spec_encode_fields(d1);
        let n1 = d1[0].0@;
        let n2 = d2[0].0@;
        let v1 = d1[0].1@;
        let v2 = d2[0].1@;
        let f1 = spec_encode_field(d1[0]);
        let f2 = spec_encode_field(d2[0]);
        let rest1 = spec_encode_fields(d1.skip(1));
        let rest2 = spec_encode_fields(d2.skip(1));
        assert(e == f1 + rest1);
        assert(e == f2 + rest2);
        assert(e[0] == f1[0] && e[1] == f1[1] && e[2] == f1[2] && e[3] == f1[3]);
        assert(e[0] == f2[0] && e[1] == f2[1] && e[2] == f2[2] && e[3] == f2[3]);
        assert(spec_be32(n1.len() as u32)[0] == spec_be32(n2.len() as u32)[0]
            && spec_be32(n1.len() as u32)[1] == spec_be32(n2.len() as u32)[1]
            && spec_be32(n1.len() as u32)[2] == spec_be32(n2.len() as u32)[2]
            && spec_be32(n1.len() as u32)[3] == spec_be32(n2.len() as u32)[3]);
        lemma_be32_combine(n1.len() as u32);
        lemma_be32_combine(n2.len() as u32);
        assert(n1.len() == n2.len());
        let nl = n1.len() as int;
        assert(ascii_bytes(n1) =~= ascii_bytes(n2)) by {
            assert forall|i: int| 0 <= i < nl implies ascii_bytes(n1)[i] == ascii_bytes(n2)[i] by {
                assert(e[4 + i] == f1[4 + i] && e[4 + i] == f2[4 + i]);
                assert(f1[4 + i] == ascii_bytes(n1)[i]);
                assert(f2[4 + i] == ascii_bytes(n2)[i]);
            };
        };
        lemma_ascii_bytes_injective(n1, n2);
        let voff = 4 + nl;
        let vl1 = spec_encode_value(v1).len() as int;
        let vl2 = spec_encode_value(v2).len() as int;
        assert(f1.len() == voff + vl1);
        assert(f2.len() == voff + vl2);
        assert(e.subrange(voff, voff + vl1) =~= spec_encode_value(v1)) by {
            assert forall|i: int| 0 <= i < vl1 implies e.subrange(voff, voff + vl1)[i]
                == spec_encode_value(v1)[i] by {
                assert(e[voff + i] == f1[voff + i]);
            };
        };
        assert(e.subrange(voff, voff + vl2) =~= spec_encode_value(v2)) by {
            assert forall|i: int| 0 <= i < vl2 implies e.subrange(voff, voff + vl2)[i]
                == spec_encode_value(v2)[i] by {
                assert(e[voff + i] == f2[voff + i]);
            };
        };
        lemma_encoded_value_frame(e, voff, v1);
        lemma_encoded_value_frame(e, voff, v2);
        lemma_value_frame_unique(e, voff, voff + vl1, voff + vl2);
        assert(spec_encode_value(v1) == spec_encode_value(v2));
        lemma_encode_value_injective(v1, v2);
        assert(rest1 =~= rest2) by {
            assert(rest1.len() == rest2.len());
            assert forall|i: int| 0 <= i < rest1.len() implies rest1[i] == rest2[i] by {
                assert(rest1[i] == e[f1.len() + i]);
                assert(rest2[i] == e[f2.len() + i]);
            };
        };
        assert forall|i: int| 0 <= i < d1.skip(1).len() implies is_ascii_seq(
            #[trigger] d1.skip(1)[i].0@,
        ) && d1.skip(1)[i].0@.len() <= 0xFFFF_FFFF && value_wf(d1.skip(1)[i].1@) by {
            assert(d1.skip(1)[i] == d1[i + 1]);
        };
        assert forall|i: int| 0 <= i < d2.skip(1).len() implies is_ascii_seq(
            #[trigger] d2.skip(1)[i].0@,
        ) && d2.skip(1)[i].0@.len() <= 0xFFFF_FFFF && value_wf(d2.skip(1)[i].1@) by {
            assert(d2.skip(1)[i] == d2[i + 1]);
        };
        lemma_encode_fields_injective(d1.skip(1), d2.skip(1));
        assert forall|i: int| 0 <= i < d1.len() implies #[trigger] d1[i].0@ == d2[i].0@
            && d1[i].1@ == d2[i].1@ by {
            if i > 0 {
                assert(d1.skip(1)[i - 1] == d1[i]);
                assert(d2.skip(1)[i - 1] == d2[i]);
            }
        };
    }
}

/// Two well-formed documents with the same encoding have the same length
/// and pairwise the same field names and value models.
pub proof fn lemma_encode_doc_injective(d1: Seq<(String, Value)>, d2: Seq<(String, Value)>)
    requires
        doc_wf(d1),
        doc_wf(d2),
        spec_encode_doc(d1) == spec_encode_doc(d2),
    ensures
        d1.len() == d2.len(),
        forall|i: int| 0 <= i < d1.len() ==> #[trigger] d1[i].0@ == d2[i].0@ && d1[i].1@
            == d2[i].1@,
{
    let b = spec_encode_doc(d1);
    assert(b[1] == spec_encode_doc(d2)[1] && b[2] == spec_encode_doc(d2)[2] && b[3]
        == spec_encode_doc(d2)[3] && b[4] == spec_encode_doc(d2)[4]);
    assert(spec_be32(d1.len() as u32)[0] == spec_be32(d2.len() as u32)[0] && spec_be32(
        d1.len() as u32,
    )[1] == spec_be32(d2.len() as u32)[1] && spec_be32(d1.len() as u32)[2] == spec_be32(
        d2.len() as u32,
    )[2] && spec_be32(d1.len() as u32)[3] == spec_be32(d2.len() as u32)[3]);
    lemma_be32_combine(d1.len() as u32);
    lemma_be32_combine(d2.len() as u32);
    assert(d1.len() == d2.len());
    assert(spec_encode_fields(d1) =~= spec_encode_fields(d2)) by {
        assert(b.len() == 5 + spec_encode_fields(d1).len());
        assert(spec_encode_doc(d2).len() == 5 + spec_encode_fields(d2).len());
        assert(spec_encode_fields(d1).len() == spec_encode_fields(d2).len());
        assert forall|i: int| 0 <= i < spec_encode_fields(d1).len() implies spec_encode_fields(
            d1,
        )[i] == spec_encode_fields(d2)[i] by {
            assert(spec_encode_fields(d1)[i] == b[5 + i]);
            assert(spec_encode_fields(d2)[i] == spec_encode_doc(d2)[5 + i]);
        };
    };
    lemma_encode_fields_injective(d1, d2);
}

/// Documents with pairwise the same field names and value models agree on
/// every field lookup.
pub proof fn lemma_same_fields_same_lookup(
    d1: Seq<(String, Value)>,
    d2: Seq<(String, Value)>,
    name: Seq<char>,
)
    requires
        d1.len() == d2.len(),
        forall|i: int| 0 <= i < d1.len() ==> #[trigger] d1[i].0@ == d2[i].0@ && d1[i].1@
            == d2[i].1@,
    ensures
        spec_field(d1, name) == spec_field(d2, name),
    decreases d1.len(),
{
    if d1.len() == 0 {
    } else {
        assert forall|i: int| 0 <= i < d1.skip(1).len() implies #[trigger] d1.skip(1)[i].0@
            == d2.skip(1)[i].0@ && d1.skip(1)[i].1@ == d2.skip(1)[i].1@ by {
            assert(d1.skip(1)[i] == d1[i + 1]);
            assert(d2.skip(1)[i] == d2[i + 1]);
        };
        lemma_same_fields_same_lookup(d1.skip(1), d2.skip(1), name);
    }
}

/// Law: the encoding pins the fields down.  Any two well-formed documents
/// that encode to the same bytes agree on every field lookup.
pub proof fn lemma_encoding_determines_fields(
    d1: Seq<(String, Value)>,
    d2: Seq<(String, Value)>,
    name: Seq<char>,
)
    requires
        doc_wf(d1),
        doc_wf(d2),
        spec_encode_doc(d1) == spec_encode_doc(d2),
    ensures
        spec_field(d1, name) == spec_field(d2, name),
{
    lemma_encode_doc_injective(d1, d2);
    lemma_same_fields_same_lookup(d1, d2, name);
}

/// First value under `name` in the document, if any.
pub open spec fn spec_field(s: Seq<(String, Value)>, name: Seq<char>) -> Option<ValueView>
    decreases s.len(),
{
    if s.len() == 0 {
        None
    } else if s[0].0@ == name {
        Some(s[0].1@)
    } else {
        spec_field(s.skip(1), name)
    }
}

/// Executable twin of [`spec_field`]: the first value under `name`.
pub fn find_field<'a>(doc: &'a Vec<(String, Value)>, name: &String) -> (r: Option<&'a Value>)
    ensures
        match r {
            Some(v) => spec_field(doc@, name@) == Some(v@),
            None => spec_field(doc@, name@) is None,
        },
{
    let mut i: usize = 0;
    proof {
        assert(doc@.skip(0) =~= doc@);
    }
    while i < doc.len()
        invariant
            i <= doc.len(),
            spec_field(doc@, name@) == spec_field(doc@.skip(i as int), name@),
        decreases doc.len() - i,
    {
        let e = &doc[i];
        if e.0 == *name {
            return Some(&e.1);
        }
        proof {
            assert(doc@.skip(i as int).skip(1) =~= doc@.skip(i as int + 1));
        }
        i += 1;
    }
    None
}

} // verus!
