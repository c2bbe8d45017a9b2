use caphost::buffer::ByteBuffer;
use caphost::table::{Entry, IncomingValue, Kind, ResourceTable, TableError};

#[test]
fn push_then_borrow_returns_original_value() {
    let mut t = ResourceTable::new();
    let h = t.push(Entry::Bucket("orders".to_string()));
    match t.get_borrow(h, Kind::Bucket) {
        Ok(Entry::Bucket(name)) => assert_eq!(name, "orders"),
        other => panic!("expected the bucket entry, got {:?}", other.map(|_| ())),
    }
    // The entry survives a borrow.
    assert!(t.get_borrow(h, Kind::Bucket).is_ok());
}

#[test]
fn handles_are_not_reused_while_live() {
    let mut t = ResourceTable::new();
    let h1 = t.push(Entry::Bucket("a".to_string()));
    let h2 = t.push(Entry::Bucket("b".to_string()));
    let h3 = t.push(Entry::CapabilityError("boom".to_string()));
    assert_ne!(h1, h2);
    assert_ne!(h2, h3);
    assert_ne!(h1, h3);
    // A fresh handle differs from every live one, even after deletions.
    assert!(t.delete(h2, Kind::Bucket).is_ok());
    let h4 = t.push(Entry::Bucket("c".to_string()));
    assert_ne!(h4, h1);
    assert_ne!(h4, h3);
}

#[test]
fn deleted_handle_fails_not_found() {
    let mut t = ResourceTable::new();
    let h = t.push(Entry::Bucket("orders".to_string()));
    assert!(t.delete(h, Kind::Bucket).is_ok());
    assert_eq!(t.get_borrow(h, Kind::Bucket).err(), Some(TableError::NotFound));
    assert_eq!(t.get_own(h, Kind::Bucket).err(), Some(TableError::NotFound));
    assert_eq!(t.delete(h, Kind::Bucket), Err(TableError::NotFound));
}

#[test]
fn own_mode_retrieval_consumes_the_entry() {
    let mut t = ResourceTable::new();
    let h = t.push(Entry::CapabilityError("gone".to_string()));
    match t.get_own(h, Kind::CapabilityError) {
        Ok(Entry::CapabilityError(trace)) => assert_eq!(trace, "gone"),
        other => panic!("expected the error entry, got {:?}", other.map(|_| ())),
    }
    assert_eq!(
        t.get_borrow(h, Kind::CapabilityError).err(),
        Some(TableError::NotFound)
    );
}

#[test]
fn wrong_kind_fails_and_leaves_table_unchanged() {
    let mut t = ResourceTable::new();
    let h = t.push(Entry::Bucket("orders".to_string()));
    assert_eq!(
        t.get_borrow(h, Kind::OutgoingValue).err(),
        Some(TableError::WrongType)
    );
    // A failed own-mode retrieval removes nothing.
    assert_eq!(
        t.get_own(h, Kind::IncomingValue).err(),
        Some(TableError::WrongType)
    );
    match t.get_borrow(h, Kind::Bucket) {
        Ok(Entry::Bucket(name)) => assert_eq!(name, "orders"),
        other => panic!("expected the bucket entry, got {:?}", other.map(|_| ())),
    }
}

#[test]
fn typed_helpers_resolve_their_kinds() {
    let mut t = ResourceTable::new();
    let b = t.push(Entry::Bucket("inv".to_string()));
    let v = t.push(Entry::IncomingValue(IncomingValue {
        data: vec![1, 2, 3],
        declared: 3,
    }));
    let o = t.push(Entry::OutgoingValue(ByteBuffer::new()));
    assert_eq!(t.get_bucket(b).ok(), Some("inv".to_string()));
    assert_eq!(t.get_bucket(v).err(), Some(TableError::WrongType));
    assert!(t.get_outgoing_value(o).is_ok());
    let taken = t.delete_incoming_value(v).unwrap();
    assert_eq!(taken.data, vec![1, 2, 3]);
    assert_eq!(taken.declared, 3);
    assert_eq!(t.delete_incoming_value(v).err(), Some(TableError::NotFound));
    let e = t.push_error("trouble".to_string());
    match t.get_borrow(e, Kind::CapabilityError) {
        Ok(Entry::CapabilityError(trace)) => assert_eq!(trace, "trouble"),
        other => panic!("expected the error entry, got {:?}", other.map(|_| ())),
    }
}
