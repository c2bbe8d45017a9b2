use caphost::buffer::ByteBuffer;
use caphost::codec::{
    decode_document, encode_document, read_be32, read_be64, write_be32, write_be64, Value,
};

#[test]
fn byte_buffer_appends_and_reads_after_rewind() {
    let mut b = ByteBuffer::new();
    b.write(&vec![1, 2, 3]);
    b.write(&vec![4]);
    assert_eq!(b.snapshot(), vec![1, 2, 3, 4]);
    // The whole contents again after an explicit rewind.
    let first = b.read_to_end();
    assert_eq!(first, vec![1, 2, 3, 4]);
    assert_eq!(b.read_to_end(), vec![]);
    b.rewind();
    assert_eq!(b.read_up_to(2), vec![1, 2]);
    assert_eq!(b.read_up_to(99), vec![3, 4]);
}

#[test]
fn big_endian_integers_round_trip() {
    let mut out: Vec<u8> = Vec::new();
    write_be32(&mut out, 0x0102_0304);
    assert_eq!(out, vec![1, 2, 3, 4]);
    assert_eq!(read_be32(&out, 0), 0x0102_0304);

    let mut wide: Vec<u8> = Vec::new();
    write_be64(&mut wide, 0x0102_0304_0506_0708);
    assert_eq!(wide, vec![1, 2, 3, 4, 5, 6, 7, 8]);
    assert_eq!(read_be64(&wide, 0), 0x0102_0304_0506_0708);
}

#[test]
fn documents_round_trip_through_the_wire_format() {
    let doc: Vec<(String, Value)> = vec![
        ("key".to_string(), Value::Text("counter".to_string())),
        ("value".to_string(), Value::I32(-42)),
        ("size".to_string(), Value::U64(18_446_744_073_709_551_615)),
        ("body".to_string(), Value::Blob(vec![0, 255, 77])),
        ("sticky".to_string(), Value::Flag(true)),
    ];
    let bytes = encode_document(&doc).expect("the document encodes");
    let back = decode_document(&bytes).expect("the bytes decode");
    assert_eq!(back.len(), 5);
    assert_eq!(back[0].0, "key");
    match &back[0].1 {
        Value::Text(s) => assert_eq!(s, "counter"),
        _ => panic!("field 0 changed type"),
    }
    match &back[1].1 {
        Value::I32(n) => assert_eq!(*n, -42),
        _ => panic!("field 1 changed type"),
    }
    match &back[2].1 {
        Value::U64(n) => assert_eq!(*n, 18_446_744_073_709_551_615),
        _ => panic!("field 2 changed type"),
    }
    match &back[3].1 {
        Value::Blob(b) => assert_eq!(*b, vec![0, 255, 77]),
        _ => panic!("field 3 changed type"),
    }
    match &back[4].1 {
        Value::Flag(f) => assert!(*f),
        _ => panic!("field 4 changed type"),
    }
}

#[test]
fn non_ascii_strings_are_not_encodable() {
    let doc: Vec<(String, Value)> = vec![(
        "key".to_string(),
        Value::Text("caf\u{e9}".to_string()),
    )];
    assert!(encode_document(&doc).is_none());
}

#[test]
fn truncated_and_mangled_bytes_are_rejected() {
    let doc: Vec<(String, Value)> = vec![("key".to_string(), Value::Text("v".to_string()))];
    let bytes = encode_document(&doc).expect("the document encodes");
    assert!(decode_document(&bytes[..bytes.len() - 1].to_vec()).is_none());
    let mut wrong_tag = bytes.clone();
    wrong_tag[0] = 0x4E;
    assert!(decode_document(&wrong_tag).is_none());
    let mut trailing = bytes;
    trailing.push(0);
    assert!(decode_document(&trailing).is_none());
    assert!(decode_document(&vec![]).is_none());
}
