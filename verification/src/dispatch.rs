//! Capability dispatch: guest operations against the resource table and the
//! wired capability handlers.
//!
//! Key-value handler failures are folded into guest-visible capability
//! errors stored in the table; only protocol violations (an unknown handle,
//! a wrong entry kind) fail fatally, as a [`TableError`].

use vstd::prelude::*;

use crate::buffer::{BufferView, ByteBuffer};
use crate::handler::{KeyValueAtomic, KeyValueReadWrite, OutboundHttp, OutgoingHttpRequest};
use crate::table::{
    access, Entry, EntryView, IncomingValue, Kind, OutputStream, ResourceTable, TableError,
};

verus! {

/// Window, in bytes, that the bounded writable-stream adapter accepts per
/// write.
pub const OUTPUT_STREAM_WINDOW: u64 = 65536;

/// What a key-value handler outcome means for the guest: a success value
/// passes through untouched; a failure becomes a fresh capability-error
/// handle carrying the handler's message.
pub fn capability_result_u64(table: &mut ResourceTable, res: Result<u64, String>) -> (r: Result<
    u64,
    usize,
>)
    ensures
        res matches Ok(n) ==> r == Ok::<u64, usize>(n) && final(table)@ == old(table)@,
        res matches Err(m) ==> match r {
            Err(h) => !old(table)@.dom().contains(h) && final(table)@ == old(table)@.insert(
                h,
                EntryView::CapabilityError(m@),
            ),
            Ok(_) => false,
        },
{
    match res {
        Ok(n) => Ok(n),
        Err(m) => Err(table.push_error(m)),
    }
}

/// As [`capability_result_u64`], for boolean outcomes.
pub fn capability_result_bool(table: &mut ResourceTable, res: Result<bool, String>) -> (r: Result<
    bool,
    usize,
>)
    ensures
        res matches Ok(b) ==> r == Ok::<bool, usize>(b) && final(table)@ == old(table)@,
        res matches Err(m) ==> match r {
            Err(h) => !old(table)@.dom().contains(h) && final(table)@ == old(table)@.insert(
                h,
                EntryView::CapabilityError(m@),
            ),
            Ok(_) => false,
        },
{
    match res {
        Ok(b) => Ok(b),
        Err(m) => Err(table.push_error(m)),
    }
}

/// As [`capability_result_u64`], for outcomes that carry no value.
pub fn capability_result_unit(table: &mut ResourceTable, res: Result<(), String>) -> (r: Result<
    (),
    usize,
>)
    ensures
        res matches Ok(u) ==> r == Ok::<(), usize>(()) && final(table)@ == old(table)@,
        res matches Err(m) ==> match r {
            Err(h) => !old(table)@.dom().contains(h) && final(table)@ == old(table)@.insert(
                h,
                EntryView::CapabilityError(m@),
            ),
            Ok(_) => false,
        },
{
    match res {
        Ok(_) => Ok(()),
        Err(m) => Err(table.push_error(m)),
    }
}

/// What a key-value read outcome means for the guest: the returned byte
/// stream and its declared size become one fresh incoming-value entry; a
/// failure becomes a fresh capability-error handle.
pub fn capability_result_value(table: &mut ResourceTable, res: Result<
    (Vec<u8>, u64),
    String,
>) -> (r: Result<usize, usize>)
    ensures
        res matches Ok(p) ==> match r {
            Ok(h) => !old(table)@.dom().contains(h) && final(table)@ == old(table)@.insert(
                h,
                EntryView::IncomingValue { bytes: p.0@, declared: p.1 },
            ),
            Err(_) => false,
        },
        res matches Err(m) ==> match r {
            Err(h) => !old(table)@.dom().contains(h) && final(table)@ == old(table)@.insert(
                h,
                EntryView::CapabilityError(m@),
            ),
            Ok(_) => false,
        },
{
    match res {
        Ok(p) => {
            let (data, declared) = p;
            Ok(table.push(Entry::IncomingValue(IncomingValue { data, declared })))
        },
        Err(m) => Err(table.push_error(m)),
    }
}

/// What a key-value existence outcome is shown to the guest as: a missing
/// key is deliberately reported as a capability error, not as a bare
/// `false`, because the guest-facing contract at this revision has no
/// vocabulary for "absent"; only a present key yields `Ok(true)`.
pub fn contains_result(table: &mut ResourceTable, res: Result<bool, String>) -> (r: Result<
    bool,
    usize,
>)
    ensures
        res matches Ok(present) ==> (present ==> r == Ok::<bool, usize>(true) && final(table)@
            == old(table)@) && (!present ==> match r {
            Err(h) => !old(table)@.dom().contains(h) && final(table)@ == old(table)@.insert(
                h,
                EntryView::CapabilityError("key does not exist"@),
            ),
            Ok(_) => false,
        }),
        res matches Err(m) ==> match r {
            Err(h) => !old(table)@.dom().contains(h) && final(table)@ == old(table)@.insert(
                h,
                EntryView::CapabilityError(m@),
            ),
            Ok(_) => false,
        },
{
    match res {
        Ok(true) => Ok(true),
        Ok(false) => Err(table.push_error(String::from_str("key does not exist"))),
        Err(m) => Err(table.push_error(m)),
    }
}

/// Take the payload of an outgoing value for delivery to a handler: the
/// stored buffer is rewound to its start and a copy of its whole contents
/// is returned.
pub fn outgoing_value_payload(table: &mut ResourceTable, h: usize) -> (r: Result<
    Vec<u8>,
    TableError,
>)
    ensures
        match r {
            Ok(bytes) => access(old(table)@, h, Kind::OutgoingValue) is Ok && (old(table)@[h]
                matches EntryView::OutgoingValue(bv) && bytes@ == bv.bytes && final(table)@ == old(table)@.insert(h, EntryView::OutgoingValue(BufferView { bytes: bv.bytes, cursor: 0 }))),
            Err(te) => access(old(table)@, h, Kind::OutgoingValue) == Err::<
                EntryView,
                TableError,
            >(te) && final(table)@ == old(table)@,
        },
        final(table).allocated() == old(table).allocated(),
{
    match table.get_own(h, Kind::OutgoingValue) {
        Ok(Entry::OutgoingValue(b)) => {
            let mut b = b;
            b.rewind();
            let bytes = b.snapshot();
            table.put_back(h, Entry::OutgoingValue(b));
            proof {
                assert(final(table)@ =~= old(table)@.insert(
                    h,
                    EntryView::OutgoingValue(BufferView { bytes: bytes@, cursor: 0 }),
                ));
            }
            Ok(bytes)
        },
        Ok(_) => Err(TableError::WrongType),
        Err(te) => Err(te),
    }
}

/// A session's dispatch context: its resource table and the key-value
/// handlers wired in at construction.  An operation whose handler is absent
/// reports a capability error, as a handler that refuses every call would.
pub struct Ctx<A, R> {
    pub table: ResourceTable,
    pub atomic: Option<A>,
    pub readwrite: Option<R>,
}

impl<A: KeyValueAtomic, R: KeyValueReadWrite> Ctx<A, R> {
    /// A fresh session context.
    pub fn new(atomic: Option<A>, readwrite: Option<R>) -> (r: Self)
        ensures
            r.table@ == Map::<usize, EntryView>::empty(),
            r.atomic == atomic,
            r.readwrite == readwrite,
    {
        Ctx { table: ResourceTable::new(), atomic, readwrite }
    }

    /// Add `delta` to the counter at `key` in the resolved bucket; the new
    /// counter value, or a capability-error handle, is returned.
    pub fn increment(&mut self, bucket: usize, key: String, delta: u64) -> (r: Result<
        Result<u64, usize>,
        TableError,
    >)
        ensures
            match r {
                Err(te) => access(old(self).table@, bucket, Kind::Bucket) == Err::<
                    EntryView,
                    TableError,
                >(te) && *final(self) == *old(self),
                Ok(inner) => access(old(self).table@, bucket, Kind::Bucket) is Ok && final(self).readwrite == old(self).readwrite && match inner {
                    Ok(_) => final(self).table@ == old(self).table@,
                    Err(eh) => !old(self).table@.dom().contains(eh) && exists|t: Seq<char>|
                        final(self).table@ == old(self).table@.insert(
                            eh,
                            EntryView::CapabilityError(t),
                        ),
                },
            },
            old(self).atomic is None ==> match r {
                Ok(inner) => match inner {
                    Err(eh) => final(self).table@ == old(self).table@.insert(
                        eh,
                        EntryView::CapabilityError(
                            "keyvalue-atomic handler is not configured"@,
                        ),
                    ),
                    Ok(_) => false,
                },
                Err(_) => true,
            },
    {
        let name = match self.table.get_bucket(bucket) {
            Ok(n) => n,
            Err(te) => {
                return Err(te);
            },
        };
        let res: Result<u64, String> = match &mut self.atomic {
            Some(a) => a.increment(&name, key, delta),
            None => Err(String::from_str("keyvalue-atomic handler is not configured")),
        };
        Ok(capability_result_u64(&mut self.table, res))
    }

    /// Replace the counter at `key` with `new_value` only if it currently
    /// equals `old_value`; whether the swap happened, or a capability-error
    /// handle, is returned.
    pub fn compare_and_swap(
        &mut self,
        bucket: usize,
        key: String,
        old_value: u64,
        new_value: u64,
    ) -> (r: Result<Result<bool, usize>, TableError>)
        ensures
            match r {
                Err(te) => access(old(self).table@, bucket, Kind::Bucket) == Err::<
                    EntryView,
                    TableError,
                >(te) && *final(self) == *old(self),
                Ok(inner) => access(old(self).table@, bucket, Kind::Bucket) is Ok && final(self).readwrite == old(self).readwrite && match inner {
                    Ok(_) => final(self).table@ == old(self).table@,
                    Err(eh) => !old(self).table@.dom().contains(eh) && exists|t: Seq<char>|
                        final(self).table@ == old(self).table@.insert(
                            eh,
                            EntryView::CapabilityError(t),
                        ),
                },
            },
            old(self).atomic is None ==> match r {
                Ok(inner) => match inner {
                    Err(eh) => final(self).table@ == old(self).table@.insert(
                        eh,
                        EntryView::CapabilityError(
                            "keyvalue-atomic handler is not configured"@,
                        ),
                    ),
                    Ok(_) => false,
                },
                Err(_) => true,
            },
    {
        let name = match self.table.get_bucket(bucket) {
            Ok(n) => n,
            Err(te) => {
                return Err(te);
            },
        };
        let res: Result<bool, String> = match &mut self.atomic {
            Some(a) => a.compare_and_swap(&name, key, old_value, new_value),
            None => Err(String::from_str("keyvalue-atomic handler is not configured")),
        };
        Ok(capability_result_bool(&mut self.table, res))
    }

    /// Read the value at `key` in the resolved bucket; the handler's byte
    /// stream and declared size become a fresh incoming-value handle.
    pub fn get(&mut self, bucket: usize, key: String) -> (r: Result<
        Result<usize, usize>,
        TableError,
    >)
        ensures
            match r {
                Err(te) => access(old(self).table@, bucket, Kind::Bucket) == Err::<
                    EntryView,
                    TableError,
                >(te) && *final(self) == *old(self),
                Ok(inner) => access(old(self).table@, bucket, Kind::Bucket) is Ok && final(self).atomic == old(self).atomic && match inner {
                    Ok(vh) => !old(self).table@.dom().contains(vh) && exists|
                        bs: Seq<u8>,
                        declared: u64,
                    |
                        final(self).table@ == old(self).table@.insert(
                            vh,
                            EntryView::IncomingValue { bytes: bs, declared },
                        ),
                    Err(eh) => !old(self).table@.dom().contains(eh) && exists|t: Seq<char>|
                        final(self).table@ == old(self).table@.insert(
                            eh,
                            EntryView::CapabilityError(t),
                        ),
                },
            },
            old(self).readwrite is None ==> match r {
                Ok(inner) => match inner {
                    Err(eh) => final(self).table@ == old(self).table@.insert(
                        eh,
                        EntryView::CapabilityError(
                            "keyvalue-readwrite handler is not configured"@,
                        ),
                    ),
                    Ok(_) => false,
                },
                Err(_) => true,
            },
    {
        let name = match self.table.get_bucket(bucket) {
            Ok(n) => n,
            Err(te) => {
                return Err(te);
            },
        };
        let res: Result<(Vec<u8>, u64), String> = match &mut self.readwrite {
            Some(rw) => rw.get(&name, key),
            None => Err(String::from_str("keyvalue-readwrite handler is not configured")),
        };
        Ok(capability_result_value(&mut self.table, res))
    }

    /// Deliver the whole contents of an outgoing value to the handler's
    /// `set` for `key` in the resolved bucket.  The stored buffer is first
    /// rewound to its start; the handler receives an independent copy of
    /// exactly the bytes written to it.
    pub fn set(&mut self, bucket: usize, key: String, outgoing_value: usize) -> (r: Result<
        Result<(), usize>,
        TableError,
    >)
        ensures
            match r {
                Err(te) => final(self).atomic == old(self).atomic && final(self).readwrite == old(self).readwrite && ((access(old(self).table@, outgoing_value, Kind::OutgoingValue)
                    == Err::<EntryView, TableError>(te) && final(self).table@ == old(self).table@)
                    || (access(old(self).table@, outgoing_value, Kind::OutgoingValue) is Ok
                    && access(old(self).table@, bucket, Kind::Bucket) == Err::<
                    EntryView,
                    TableError,
                >(te) && (old(self).table@[outgoing_value] matches EntryView::OutgoingValue(bv)
                    && final(self).table@ == old(self).table@.insert(
                    outgoing_value,
                    EntryView::OutgoingValue(BufferView { bytes: bv.bytes, cursor: 0 }),
                )))),
                Ok(inner) => access(old(self).table@, outgoing_value, Kind::OutgoingValue) is Ok
                    && access(old(self).table@, bucket, Kind::Bucket) is Ok && final(self).atomic
                    == old(self).atomic && (old(self).table@[outgoing_value]
                    matches EntryView::OutgoingValue(bv) && {
                    let mid = old(self).table@.insert(
                        outgoing_value,
                        EntryView::OutgoingValue(BufferView { bytes: bv.bytes, cursor: 0 }),
                    );
                    match inner {
                        Ok(_) => final(self).table@ == mid,
                        Err(eh) => !mid.dom().contains(eh) && exists|t: Seq<char>|
                            final(self).table@ == mid.insert(eh, EntryView::CapabilityError(t)),
                    }
                }),
            },
            old(self).readwrite is None ==> match r {
                Ok(inner) => match inner {
                    Err(eh) => (old(self).table@[outgoing_value]
                        matches EntryView::OutgoingValue(bv) && final(self).table@ == old(
                        self,
                    ).table@.insert(
                        outgoing_value,
                        EntryView::OutgoingValue(BufferView { bytes: bv.bytes, cursor: 0 }),
                    ).insert(
                        eh,
                        EntryView::CapabilityError(
                            "keyvalue-readwrite handler is not configured"@,
                        ),
                    )),
                    Ok(_) => false,
                },
                Err(_) => true,
            },
    {
        let payload = match outgoing_value_payload(&mut self.table, outgoing_value) {
            Ok(p) => p,
            Err(te) => {
                return Err(te);
            },
        };
        let name = match self.table.get_bucket(bucket) {
            Ok(n) => n,
            Err(te) => {
                return Err(te);
            },
        };
        let res: Result<(), String> = match &mut self.readwrite {
            Some(rw) => rw.set(&name, key, payload),
            None => Err(String::from_str("keyvalue-readwrite handler is not configured")),
        };
        Ok(capability_result_unit(&mut self.table, res))
    }

    /// Remove the value at `key` in the resolved bucket.
    pub fn delete(&mut self, bucket: usize, key: String) -> (r: Result<
        Result<(), usize>,
        TableError,
    >)
        ensures
            match r {
                Err(te) => access(old(self).table@, bucket, Kind::Bucket) == Err::<
                    EntryView,
                    TableError,
                >(te) && *final(self) == *old(self),
                Ok(inner) => access(old(self).table@, bucket, Kind::Bucket) is Ok && final(self).atomic == old(self).atomic && match inner {
                    Ok(_) => final(self).table@ == old(self).table@,
                    Err(eh) => !old(self).table@.dom().contains(eh) && exists|t: Seq<char>|
                        final(self).table@ == old(self).table@.insert(
                            eh,
                            EntryView::CapabilityError(t),
                        ),
                },
            },
            old(self).readwrite is None ==> match r {
                Ok(inner) => match inner {
                    Err(eh) => final(self).table@ == old(self).table@.insert(
                        eh,
                        EntryView::CapabilityError(
                            "keyvalue-readwrite handler is not configured"@,
                        ),
                    ),
                    Ok(_) => false,
                },
                Err(_) => true,
            },
    {
        let name = match self.table.get_bucket(bucket) {
            Ok(n) => n,
            Err(te) => {
                return Err(te);
            },
        };
        let res: Result<(), String> = match &mut self.readwrite {
            Some(rw) => rw.delete(&name, key),
            None => Err(String::from_str("keyvalue-readwrite handler is not configured")),
        };
        Ok(capability_result_unit(&mut self.table, res))
    }

    /// Ask whether `key` is present in the resolved bucket.  A missing key
    /// is reported as a capability error whose trace says the key does not
    /// exist, never as a bare `false` (see [`contains_result`]).
    pub fn contains(&mut self, bucket: usize, key: String) -> (r: Result<
        Result<bool, usize>,
        TableError,
    >)
        ensures
            match r {
                Err(te) => access(old(self).table@, bucket, Kind::Bucket) == Err::<
                    EntryView,
                    TableError,
                >(te) && *final(self) == *old(self),
                Ok(inner) => access(old(self).table@, bucket, Kind::Bucket) is Ok && final(self).atomic == old(self).atomic && match inner {
                    Ok(present) => present && final(self).table@ == old(self).table@,
                    Err(eh) => !old(self).table@.dom().contains(eh) && exists|t: Seq<char>|
                        final(self).table@ == old(self).table@.insert(
                            eh,
                            EntryView::CapabilityError(t),
                        ),
                },
            },
            old(self).readwrite is None ==> match r {
                Ok(inner) => match inner {
                    Err(eh) => final(self).table@ == old(self).table@.insert(
                        eh,
                        EntryView::CapabilityError(
                            "keyvalue-readwrite handler is not configured"@,
                        ),
                    ),
                    Ok(_) => false,
                },
                Err(_) => true,
            },
    {
        let name = match self.table.get_bucket(bucket) {
            Ok(n) => n,
            Err(te) => {
                return Err(te);
            },
        };
        let res: Result<bool, String> = match &mut self.readwrite {
            Some(rw) => rw.contains(&name, key),
            None => Err(String::from_str("keyvalue-readwrite handler is not configured")),
        };
        Ok(contains_result(&mut self.table, res))
    }

    /// Register a handle to the named bucket; the name is not validated at
    /// this layer.
    pub fn open_bucket(&mut self, name: String) -> (h: usize)
        ensures
            !old(self).table@.dom().contains(h),
            final(self).table@ == old(self).table@.insert(h, EntryView::Bucket(name@)),
            final(self).atomic == old(self).atomic,
            final(self).readwrite == old(self).readwrite,
    {
        self.table.push(Entry::Bucket(name))
    }

    /// Release a bucket handle.
    pub fn drop_bucket(&mut self, bucket: usize) -> (r: Result<(), TableError>)
        ensures
            match r {
                Ok(u) => access(old(self).table@, bucket, Kind::Bucket) is Ok && final(self).table@ == old(self).table@.remove(bucket),
                Err(te) => access(old(self).table@, bucket, Kind::Bucket) == Err::<
                    EntryView,
                    TableError,
                >(te) && final(self).table@ == old(self).table@,
            },
            final(self).atomic == old(self).atomic,
            final(self).readwrite == old(self).readwrite,
    {
        self.table.delete(bucket, Kind::Bucket)
    }

    /// Create an empty outgoing value.
    pub fn new_outgoing_value(&mut self) -> (h: usize)
        ensures
            !old(self).table@.dom().contains(h),
            final(self).table@ == old(self).table@.insert(
                h,
                EntryView::OutgoingValue(BufferView { bytes: Seq::<u8>::empty(), cursor: 0 }),
            ),
            final(self).atomic == old(self).atomic,
            final(self).readwrite == old(self).readwrite,
    {
        self.table.push(Entry::OutgoingValue(ByteBuffer::new()))
    }

    /// Release an outgoing-value handle.
    pub fn drop_outgoing_value(&mut self, outgoing_value: usize) -> (r: Result<(), TableError>)
        ensures
            match r {
                Ok(u) => access(old(self).table@, outgoing_value, Kind::OutgoingValue) is Ok
                    && final(self).table@ == old(self).table@.remove(outgoing_value),
                Err(te) => access(old(self).table@, outgoing_value, Kind::OutgoingValue) == Err::<
                    EntryView,
                    TableError,
                >(te) && final(self).table@ == old(self).table@,
            },
            final(self).atomic == old(self).atomic,
            final(self).readwrite == old(self).readwrite,
    {
        self.table.delete(outgoing_value, Kind::OutgoingValue)
    }

    /// Append `body` to an outgoing value in one synchronous call; the read
    /// cursor does not move.
    pub fn outgoing_value_write_body_sync(&mut self, outgoing_value: usize, body: Vec<u8>) -> (r:
        Result<(), TableError>)
        ensures
            match r {
                Ok(u) => access(old(self).table@, outgoing_value, Kind::OutgoingValue) is Ok && (
                old(self).table@[outgoing_value] matches EntryView::OutgoingValue(bv) && final(self).table@ == old(self).table@.insert(
                    outgoing_value,
                    EntryView::OutgoingValue(
                        BufferView { bytes: bv.bytes + body@, cursor: bv.cursor },
                    ),
                )),
                Err(te) => access(old(self).table@, outgoing_value, Kind::OutgoingValue) == Err::<
                    EntryView,
                    TableError,
                >(te) && final(self).table@ == old(self).table@,
            },
            final(self).atomic == old(self).atomic,
            final(self).readwrite == old(self).readwrite,
    {
        match self.table.get_own(outgoing_value, Kind::OutgoingValue) {
            Ok(Entry::OutgoingValue(b)) => {
                let mut b = b;
                b.write(&body);
                self.table.put_back(outgoing_value, Entry::OutgoingValue(b));
                proof {
                    assert(final(self).table@ =~= old(self).table@.insert(
                        outgoing_value,
                        self.table@[outgoing_value],
                    ));
                }
                Ok(())
            },
            Ok(_) => Err(TableError::WrongType),
            Err(te) => Err(te),
        }
    }

    /// Expose an outgoing value through a bounded writable-stream adapter;
    /// both the adapter and synchronous writes observe the same underlying
    /// buffer, which stays where it is.
    pub fn outgoing_value_write_body_async(&mut self, outgoing_value: usize) -> (r: Result<
        usize,
        TableError,
    >)
        ensures
            match r {
                Ok(sh) => access(old(self).table@, outgoing_value, Kind::OutgoingValue) is Ok
                    && !old(self).table@.dom().contains(sh) && final(self).table@ == old(self).table@.insert(
                    sh,
                    EntryView::OutputStream {
                        target: outgoing_value,
                        window: OUTPUT_STREAM_WINDOW,
                    },
                ),
                Err(te) => access(old(self).table@, outgoing_value, Kind::OutgoingValue) == Err::<
                    EntryView,
                    TableError,
                >(te) && final(self).table@ == old(self).table@,
            },
            final(self).atomic == old(self).atomic,
            final(self).readwrite == old(self).readwrite,
    {
        match self.table.get_borrow(outgoing_value, Kind::OutgoingValue) {
            Ok(_) => {
                let h = self.table.push(
                    Entry::OutputStream(
                        OutputStream { target: outgoing_value, window: OUTPUT_STREAM_WINDOW },
                    ),
                );
                Ok(h)
            },
            Err(te) => Err(te),
        }
    }

    /// Write through a writable-stream adapter into its target outgoing
    /// value: at most the adapter's window is accepted per call, and the
    /// number of bytes taken is returned.
    pub fn output_stream_write(&mut self, stream: usize, bytes: &Vec<u8>) -> (r: Result<
        usize,
        TableError,
    >)
        ensures
            match r {
                Ok(n) => access(old(self).table@, stream, Kind::OutputStream) is Ok && (old(self).table@[stream] matches EntryView::OutputStream { target, window } && access(
                    old(self).table@,
                    target,
                    Kind::OutgoingValue,
                ) is Ok && (old(self).table@[target] matches EntryView::OutgoingValue(bv) && n == (
                if bytes@.len() <= window { bytes@.len() as usize } else { window as usize })
                    && final(self).table@ == old(self).table@.insert(
                    target,
                    EntryView::OutgoingValue(
                        BufferView {
                            bytes: bv.bytes + bytes@.subrange(0, n as int),
                            cursor: bv.cursor,
                        },
                    ),
                ))),
                Err(te) => final(self).table@ == old(self).table@ && (access(
                    old(self).table@,
                    stream,
                    Kind::OutputStream,
                ) == Err::<EntryView, TableError>(te) || (access(
                    old(self).table@,
                    stream,
                    Kind::OutputStream,
                ) is Ok && (old(self).table@[stream] matches EntryView::OutputStream {
                    target,
                    window,
                } && access(old(self).table@, target, Kind::OutgoingValue) == Err::<
                    EntryView,
                    TableError,
                >(te)))),
            },
            final(self).atomic == old(self).atomic,
            final(self).readwrite == old(self).readwrite,
    {
        let (target, window) = match self.table.get_borrow(stream, Kind::OutputStream) {
            Ok(Entry::OutputStream(s)) => (s.target, s.window),
            Ok(_) => {
                return Err(TableError::WrongType);
            },
            Err(te) => {
                return Err(te);
            },
        };
        match self.table.get_own(target, Kind::OutgoingValue) {
            Ok(Entry::OutgoingValue(b)) => {
                let mut b = b;
                let cap: usize = if (bytes.len() as u64) <= window {
                    bytes.len()
                } else {
                    window as usize
                };
                let mut prefix: Vec<u8> = Vec::new();
                let mut i: usize = 0;
                while i < cap
                    invariant
                        i <= cap,
                        cap <= bytes.len(),
                        prefix@ == bytes@.subrange(0, i as int),
                    decreases cap - i,
                {
                    prefix.push(bytes[i]);
                    i += 1;
                }
                b.write(&prefix);
                self.table.put_back(target, Entry::OutgoingValue(b));
                proof {
                    assert(final(self).table@ =~= old(self).table@.insert(
                        target,
                        self.table@[target],
                    ));
                }
                Ok(cap)
            },
            Ok(_) => Err(TableError::WrongType),
            Err(te) => Err(te),
        }
    }

    /// Release an incoming-value handle without reading it.
    pub fn drop_incoming_value(&mut self, incoming_value: usize) -> (r: Result<(), TableError>)
        ensures
            match r {
                Ok(u) => access(old(self).table@, incoming_value, Kind::IncomingValue) is Ok
                    && final(self).table@ == old(self).table@.remove(incoming_value),
                Err(te) => access(old(self).table@, incoming_value, Kind::IncomingValue) == Err::<
                    EntryView,
                    TableError,
                >(te) && final(self).table@ == old(self).table@,
            },
            final(self).atomic == old(self).atomic,
            final(self).readwrite == old(self).readwrite,
    {
        self.table.delete(incoming_value, Kind::IncomingValue)
    }

    /// Consume an incoming value in one synchronous read of exactly its
    /// declared size.  If fewer bytes are available than declared, no
    /// partial data is returned: the guest gets a capability-error handle.
    pub fn incoming_value_consume_sync(&mut self, incoming_value: usize) -> (r: Result<
        Result<Vec<u8>, usize>,
        TableError,
    >)
        ensures
            match r {
                Err(te) => access(old(self).table@, incoming_value, Kind::IncomingValue) == Err::<
                    EntryView,
                    TableError,
                >(te) && final(self).table@ == old(self).table@,
                Ok(inner) => access(old(self).table@, incoming_value, Kind::IncomingValue) is Ok
                    && (old(self).table@[incoming_value] matches EntryView::IncomingValue {
                    bytes,
                    declared,
                } && match inner {
                    Ok(body) => declared <= bytes.len() && body@ == bytes.subrange(
                        0,
                        declared as int,
                    ) && final(self).table@ == old(self).table@.remove(incoming_value),
                    Err(eh) => declared > bytes.len() && !old(self).table@.remove(
                        incoming_value,
                    ).dom().contains(eh) && final(self).table@ == old(self).table@.remove(
                        incoming_value,
                    ).insert(
                        eh,
                        EntryView::CapabilityError(
                            "incoming value is shorter than its declared size"@,
                        ),
                    ),
                }),
            },
            final(self).atomic == old(self).atomic,
            final(self).readwrite == old(self).readwrite,
    {
        let v = match self.table.delete_incoming_value(incoming_value) {
            Ok(v) => v,
            Err(te) => {
                return Err(te);
            },
        };
        if (v.data.len() as u64) < v.declared {
            let h = self.table.push_error(
                String::from_str("incoming value is shorter than its declared size"),
            );
            Ok(Err(h))
        } else {
            let n = v.declared as usize;
            let mut data = v.data;
            data.truncate(n);
            Ok(Ok(data))
        }
    }

    /// Consume an incoming value into a readable-stream adapter over its
    /// bytes, without the declared-size cap.
    pub fn incoming_value_consume_async(&mut self, incoming_value: usize) -> (r: Result<
        usize,
        TableError,
    >)
        ensures
            match r {
                Ok(sh) => access(old(self).table@, incoming_value, Kind::IncomingValue) is Ok && (
                old(self).table@[incoming_value] matches EntryView::IncomingValue {
                    bytes,
                    declared,
                } && !old(self).table@.remove(incoming_value).dom().contains(sh) && final(self).table@ == old(self).table@.remove(incoming_value).insert(
                    sh,
                    EntryView::InputStream(BufferView { bytes, cursor: 0 }),
                )),
                Err(te) => access(old(self).table@, incoming_value, Kind::IncomingValue) == Err::<
                    EntryView,
                    TableError,
                >(te) && final(self).table@ == old(self).table@,
            },
            final(self).atomic == old(self).atomic,
            final(self).readwrite == old(self).readwrite,
    {
        let v = match self.table.delete_incoming_value(incoming_value) {
            Ok(v) => v,
            Err(te) => {
                return Err(te);
            },
        };
        let h = self.table.push(Entry::InputStream(ByteBuffer::from_vec(v.data)));
        Ok(h)
    }

    /// Read up to `n` bytes from a readable-stream adapter, advancing its
    /// cursor past what was read.
    pub fn input_stream_read(&mut self, stream: usize, n: usize) -> (r: Result<
        Vec<u8>,
        TableError,
    >)
        ensures
            match r {
                Ok(out) => access(old(self).table@, stream, Kind::InputStream) is Ok && (old(self).table@[stream] matches EntryView::InputStream(bv) && {
                    let start: nat = bv.cursor;
                    let avail: nat = (bv.bytes.len() - start) as nat;
                    let k: nat = if n as nat <= avail {
                        n as nat
                    } else {
                        avail
                    };
                    &&& out@ == bv.bytes.subrange(start as int, (start + k) as int)
                    &&& final(self).table@ == old(self).table@.insert(
                        stream,
                        EntryView::InputStream(BufferView { bytes: bv.bytes, cursor: start + k }),
                    )
                }),
                Err(te) => access(old(self).table@, stream, Kind::InputStream) == Err::<
                    EntryView,
                    TableError,
                >(te) && final(self).table@ == old(self).table@,
            },
            final(self).atomic == old(self).atomic,
            final(self).readwrite == old(self).readwrite,
    {
        match self.table.get_own(stream, Kind::InputStream) {
            Ok(Entry::InputStream(b)) => {
                let mut b = b;
                let out = b.read_up_to(n);
                self.table.put_back(stream, Entry::InputStream(b));
                proof {
                    assert(final(self).table@ =~= old(self).table@.insert(
                        stream,
                        self.table@[stream],
                    ));
                }
                Ok(out)
            },
            Ok(_) => Err(TableError::WrongType),
            Err(te) => Err(te),
        }
    }

    /// The declared size of an incoming value, without consuming it.
    pub fn size(&self, incoming_value: usize) -> (r: Result<u64, TableError>)
        ensures
            match r {
                Ok(sz) => access(self.table@, incoming_value, Kind::IncomingValue) is Ok && (
                self.table@[incoming_value] matches EntryView::IncomingValue { bytes, declared }
                    && declared == sz),
                Err(te) => access(self.table@, incoming_value, Kind::IncomingValue) == Err::<
                    EntryView,
                    TableError,
                >(te),
            },
    {
        match self.table.get_borrow(incoming_value, Kind::IncomingValue) {
            Ok(Entry::IncomingValue(v)) => Ok(v.declared),
            Ok(_) => Err(TableError::WrongType),
            Err(te) => Err(te),
        }
    }

    /// Store an opaque capability error and return its fresh handle.
    pub fn push_error(&mut self, trace: String) -> (h: usize)
        ensures
            !old(self).table@.dom().contains(h),
            final(self).table@ == old(self).table@.insert(
                h,
                EntryView::CapabilityError(trace@),
            ),
            final(self).atomic == old(self).atomic,
            final(self).readwrite == old(self).readwrite,
    {
        self.table.push_error(trace)
    }

    /// Release a capability-error handle.
    pub fn drop_error(&mut self, error: usize) -> (r: Result<(), TableError>)
        ensures
            match r {
                Ok(u) => access(old(self).table@, error, Kind::CapabilityError) is Ok && final(self).table@ == old(self).table@.remove(error),
                Err(te) => access(old(self).table@, error, Kind::CapabilityError) == Err::<
                    EntryView,
                    TableError,
                >(te) && final(self).table@ == old(self).table@,
            },
            final(self).atomic == old(self).atomic,
            final(self).readwrite == old(self).readwrite,
    {
        self.table.delete(error, Kind::CapabilityError)
    }

    /// Render the causal trace of a stored capability error; the entry
    /// survives the call.
    pub fn trace(&self, error: usize) -> (r: Result<String, TableError>)
        ensures
            match r {
                Ok(t) => access(self.table@, error, Kind::CapabilityError) == Ok::<
                    EntryView,
                    TableError,
                >(EntryView::CapabilityError(t@)),
                Err(te) => access(self.table@, error, Kind::CapabilityError) == Err::<
                    EntryView,
                    TableError,
                >(te),
            },
    {
        match self.table.get_borrow(error, Kind::CapabilityError) {
            Ok(Entry::CapabilityError(t)) => Ok(t.clone()),
            Ok(_) => Err(TableError::WrongType),
            Err(te) => Err(te),
        }
    }
}

/// Hand an outbound HTTP request to the wired handler and wrap the response
/// body as a fresh incoming-value entry whose declared size is exactly the
/// body's length; the status and headers are returned as plain values.
/// Handler failures here are host-fatal, not capability errors.
pub fn outbound_http_request<H: OutboundHttp>(
    table: &mut ResourceTable,
    handler: &mut H,
    request: OutgoingHttpRequest,
) -> (r: Result<(u16, Vec<(String, Vec<u8>)>, usize), String>)
    ensures
        match r {
            Ok(t) => !old(table)@.dom().contains(t.2) && exists|bs: Seq<u8>|
                final(table)@ == old(table)@.insert(
                    t.2,
                    EntryView::IncomingValue { bytes: bs, declared: bs.len() as u64 },
                ),
            Err(_) => final(table)@ == old(table)@,
        },
{
    match handler.handle(request) {
        Ok(resp) => {
            let declared = resp.body.len() as u64;
            let h = table.push(
                Entry::IncomingValue(IncomingValue { data: resp.body, declared }),
            );
            Ok((resp.status, resp.headers, h))
        },
        Err(m) => Err(m),
    }
}

/// A guest instance under construction: the session context plus the
/// handlers wired so far.
pub struct Instance<A, R> {
    pub ctx: Ctx<A, R>,
}

impl<A: KeyValueAtomic, R: KeyValueReadWrite> Instance<A, R> {
    /// An instance with an empty table and no handlers wired.
    pub fn new() -> (r: Self)
        ensures
            r.ctx.table@ == Map::<usize, EntryView>::empty(),
            r.ctx.atomic is None,
            r.ctx.readwrite is None,
    {
        Instance { ctx: Ctx::new(None, None) }
    }

    /// Set the key-value atomic handler for this instance.
    pub fn keyvalue_atomic(&mut self, keyvalue_atomic: A) -> (r: &mut Self)
        ensures
            (*r).ctx.atomic == Some(keyvalue_atomic),
            (*r).ctx.readwrite == old(self).ctx.readwrite,
            (*r).ctx.table@ == old(self).ctx.table@,
            *final(self) == *final(r),
    {
        self.ctx.atomic = Some(keyvalue_atomic);
        self
    }

    /// Set the key-value read/write handler for this instance.
    pub fn keyvalue_readwrite(&mut self, keyvalue_readwrite: R) -> (r: &mut Self)
        ensures
            (*r).ctx.readwrite == Some(keyvalue_readwrite),
            (*r).ctx.atomic == old(self).ctx.atomic,
            (*r).ctx.table@ == old(self).ctx.table@,
            *final(self) == *final(r),
    {
        self.ctx.readwrite = Some(keyvalue_readwrite);
        self
    }
}

} // verus!
