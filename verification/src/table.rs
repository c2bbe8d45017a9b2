//! Session-scoped resource table: opaque integer handles to host-owned values.

use vstd::prelude::*;

use crate::buffer::{BufferView, ByteBuffer};

verus! {

/// The kind of value a table entry holds.
#[derive(Clone, Copy, PartialEq, Eq, Structural, Debug)]
pub enum Kind {
    Bucket,
    OutgoingValue,
    IncomingValue,
    CapabilityError,
    OutputStream,
    InputStream,
}

/// Why a table access failed.  These are fatal, host-side protocol errors,
/// never guest-visible capability errors.
#[derive(Clone, Copy, PartialEq, Eq, Structural, Debug)]
pub enum TableError {
    /// The handle does not name a live entry.
    NotFound,
    /// The live entry's kind is not the one the caller asked for.
    WrongType,
}

/// A readable byte payload together with the size its producer declared for
/// it.  The declared size is deliberately not validated against the bytes
/// actually available; consumers check it.
pub struct IncomingValue {
    pub data: Vec<u8>,
    pub declared: u64,
}

/// Bounded writable-stream adapter over an outgoing value living in the same
/// table; `target` is the handle of that outgoing value.
pub struct OutputStream {
    pub target: usize,
    pub window: u64,
}

/// A host-owned value stored in the resource table.
pub enum Entry {
    /// The name of an opened key-value namespace.
    Bucket(String),
    /// A byte buffer being filled by the guest.
    OutgoingValue(ByteBuffer),
    /// A byte payload handed to the guest, with its declared size.
    IncomingValue(IncomingValue),
    /// An opaque capability error with a human-readable trace.
    CapabilityError(String),
    /// A bounded writable-stream adapter over an outgoing value.
    OutputStream(OutputStream),
    /// A readable-stream adapter over an already-consumed incoming value.
    InputStream(ByteBuffer),
}

/// Mathematical model of an [`Entry`].
pub enum EntryView {
    Bucket(Seq<char>),
    OutgoingValue(BufferView),
    IncomingValue { bytes: Seq<u8>, declared: u64 },
    CapabilityError(Seq<char>),
    OutputStream { target: usize, window: u64 },
    InputStream(BufferView),
}

impl View for Entry {
    type V = EntryView;

    open spec fn view(&self) -> EntryView {
        match self {
            Entry::Bucket(name) => EntryView::Bucket(name@),
            Entry::OutgoingValue(b) => EntryView::OutgoingValue(b@),
            Entry::IncomingValue(v) => EntryView::IncomingValue {
                bytes: v.data@,
                declared: v.declared,
            },
            Entry::CapabilityError(trace) => EntryView::CapabilityError(trace@),
            Entry::OutputStream(s) => EntryView::OutputStream {
                target: s.target,
                window: s.window,
            },
            Entry::InputStream(b) => EntryView::InputStream(b@),
        }
    }
}

impl EntryView {
    pub open spec fn kind(self) -> Kind {
        match self {
            EntryView::Bucket(_) => Kind::Bucket,
            EntryView::OutgoingValue(_) => Kind::OutgoingValue,
            EntryView::IncomingValue { .. } => Kind::IncomingValue,
            EntryView::CapabilityError(_) => Kind::CapabilityError,
            EntryView::OutputStream { .. } => Kind::OutputStream,
            EntryView::InputStream(_) => Kind::InputStream,
        }
    }
}

impl Entry {
    /// Executable twin of [`EntryView::kind`].
    pub fn kind_of(&self) -> (k: Kind)
        ensures
            k == self@.kind(),
    {
        match self {
            Entry::Bucket(_) => Kind::Bucket,
            Entry::OutgoingValue(_) => Kind::OutgoingValue,
            Entry::IncomingValue(_) => Kind::IncomingValue,
            Entry::CapabilityError(_) => Kind::CapabilityError,
            Entry::OutputStream(_) => Kind::OutputStream,
            Entry::InputStream(_) => Kind::InputStream,
        }
    }
}

/// What retrieving handle `h` with expected kind `kind` from a table in
/// state `m` yields: the entry, or the exact error.
pub open spec fn access(m: Map<usize, EntryView>, h: usize, kind: Kind) -> Result<
    EntryView,
    TableError,
> {
    if !m.dom().contains(h) {
        Err(TableError::NotFound)
    } else if m[h].kind() != kind {
        Err(TableError::WrongType)
    } else {
        Ok(m[h])
    }
}

/// A single per-session arena mapping opaque integer handles to
/// heterogeneous host-owned values.
///
/// A live handle is never reused: handles are indices into a slab that only
/// grows, and a removed entry leaves a permanent tombstone behind.
pub struct ResourceTable {
    slots: Vec<Option<Entry>>,
}

impl View for ResourceTable {
    type V = Map<usize, EntryView>;

    closed spec fn view(&self) -> Map<usize, EntryView> {
        Map::new(
            |h: usize| h < self.slots.len() && self.slots[h as int] is Some,
            |h: usize| self.slots[h as int].unwrap()@,
        )
    }
}

impl ResourceTable {
    /// How many handles have ever been allocated; every handle in the
    /// table's domain lies below this bound.
    pub closed spec fn allocated(&self) -> nat {
        self.slots.len() as nat
    }

    /// Every live handle lies below [`ResourceTable::allocated`].
    pub proof fn lemma_dom_bound(&self)
        ensures
            forall|h: usize| self@.dom().contains(h) ==> h < self.allocated(),
    {
    }

    /// An empty table.
    pub fn new() -> (r: Self)
        ensures
            r@ == Map::<usize, EntryView>::empty(),
            r.allocated() == 0,
    {
        let r = ResourceTable { slots: Vec::new() };
        proof {
            assert(r@ =~= Map::<usize, EntryView>::empty());
        }
        r
    }

    /// Insert a new entry and return a fresh handle: one that no live entry
    /// uses, nor ever used while any past entry was live.
    pub fn push(&mut self, entry: Entry) -> (h: usize)
        ensures
            !old(self)@.dom().contains(h),
            final(self)@ == old(self)@.insert(h, entry@),
            final(self).allocated() == old(self).allocated() + 1,
            h < final(self).allocated(),
    {
        let h = self.slots.len();
        let ghost prev = *self;
        self.slots.push(Some(entry));
        proof {
            assert(final(self)@ =~= prev@.insert(h, entry@)) by {
                assert(forall|k: usize|
                    k < prev.slots.len() ==> self.slots[k as int] == prev.slots[k as int]);
            }
        }
        h
    }

    /// Borrow the entry behind `h`, which must hold the expected kind; the
    /// entry survives the call.
    pub fn get_borrow(&self, h: usize, kind: Kind) -> (r: Result<&Entry, TableError>)
        ensures
            match r {
                Ok(e) => access(self@, h, kind) == Ok::<EntryView, TableError>(e@),
                Err(te) => access(self@, h, kind) == Err::<EntryView, TableError>(te),
            },
    {
        if h >= self.slots.len() {
            return Err(TableError::NotFound);
        }
        match &self.slots[h] {
            Some(e) => {
                if e.kind_of() == kind {
                    Ok(e)
                } else {
                    Err(TableError::WrongType)
                }
            },
            None => Err(TableError::NotFound),
        }
    }

    /// Remove and return the entry behind `h`, which must hold the expected
    /// kind; after success the handle is dead.  A failed retrieval removes
    /// nothing.
    pub fn get_own(&mut self, h: usize, kind: Kind) -> (r: Result<Entry, TableError>)
        ensures
            match r {
                Ok(e) => access(old(self)@, h, kind) == Ok::<EntryView, TableError>(e@)
                    && final(self)@ == old(self)@.remove(h),
                Err(te) => access(old(self)@, h, kind) == Err::<EntryView, TableError>(te)
                    && final(self)@ == old(self)@,
            },
            final(self).allocated() == old(self).allocated(),
            h < old(self).allocated() || r is Err,
    {
        if h >= self.slots.len() {
            return Err(TableError::NotFound);
        }
        let ghost prev = *self;
        let mut taken: Option<Entry> = None;
        self.slots.set_and_swap(h, &mut taken);
        match taken {
            Some(e) => {
                if e.kind_of() == kind {
                    proof {
                        assert(final(self)@ =~= prev@.remove(h));
                    }
                    Ok(e)
                } else {
                    self.slots.set(h, Some(e));
                    proof {
                        assert(self.slots@ =~= prev.slots@);
                    }
                    Err(TableError::WrongType)
                }
            },
            None => {
                proof {
                    assert(self.slots@ =~= prev.slots@);
                }
                Err(TableError::NotFound)
            },
        }
    }

    /// Remove and discard the entry behind `h`, which must hold the expected
    /// kind; used when only the release matters, not the value.
    pub fn delete(&mut self, h: usize, kind: Kind) -> (r: Result<(), TableError>)
        ensures
            match r {
                Ok(()) => access(old(self)@, h, kind) is Ok
                    && final(self)@ == old(self)@.remove(h),
                Err(te) => access(old(self)@, h, kind) == Err::<EntryView, TableError>(te)
                    && final(self)@ == old(self)@,
            },
            final(self).allocated() == old(self).allocated(),
    {
        match self.get_own(h, kind) {
            Ok(_) => Ok(()),
            Err(te) => Err(te),
        }
    }

    /// Re-occupy a handle freed a moment ago by [`ResourceTable::get_own`],
    /// as the last step of an operation that took an entry out only to
    /// update it in place.
    pub(crate) fn put_back(&mut self, h: usize, entry: Entry)
        requires
            h < old(self).allocated(),
            !old(self)@.dom().contains(h),
        ensures
            final(self)@ == old(self)@.insert(h, entry@),
            final(self).allocated() == old(self).allocated(),
    {
        let ghost prev = *self;
        self.slots.set(h, Some(entry));
        proof {
            assert(final(self)@ =~= prev@.insert(h, entry@));
        }
    }

    /// The name behind a bucket handle.
    pub fn get_bucket(&self, h: usize) -> (r: Result<String, TableError>)
        ensures
            match r {
                Ok(name) => access(self@, h, Kind::Bucket) == Ok::<EntryView, TableError>(
                    EntryView::Bucket(name@),
                ),
                Err(te) => access(self@, h, Kind::Bucket) == Err::<EntryView, TableError>(te),
            },
    {
        match self.get_borrow(h, Kind::Bucket) {
            Ok(Entry::Bucket(name)) => Ok(name.clone()),
            Ok(_) => Err(TableError::WrongType),
            Err(te) => Err(te),
        }
    }

    /// Borrow the byte buffer behind an outgoing-value handle.
    pub fn get_outgoing_value(&self, h: usize) -> (r: Result<&ByteBuffer, TableError>)
        ensures
            match r {
                Ok(b) => access(self@, h, Kind::OutgoingValue) == Ok::<EntryView, TableError>(
                    EntryView::OutgoingValue(b@),
                ),
                Err(te) => access(self@, h, Kind::OutgoingValue) == Err::<EntryView, TableError>(
                    te,
                ),
            },
    {
        match self.get_borrow(h, Kind::OutgoingValue) {
            Ok(Entry::OutgoingValue(b)) => Ok(b),
            Ok(_) => Err(TableError::WrongType),
            Err(te) => Err(te),
        }
    }

    /// Remove and return the payload behind an incoming-value handle.
    pub fn delete_incoming_value(&mut self, h: usize) -> (r: Result<IncomingValue, TableError>)
        ensures
            match r {
                Ok(v) => access(old(self)@, h, Kind::IncomingValue) == Ok::<
                    EntryView,
                    TableError,
                >(EntryView::IncomingValue { bytes: v.data@, declared: v.declared })
                    && final(self)@ == old(self)@.remove(h),
                Err(te) => access(old(self)@, h, Kind::IncomingValue) == Err::<
                    EntryView,
                    TableError,
                >(te) && final(self)@ == old(self)@,
            },
            final(self).allocated() == old(self).allocated(),
    {
        match self.get_own(h, Kind::IncomingValue) {
            Ok(Entry::IncomingValue(v)) => Ok(v),
            Ok(_) => Err(TableError::WrongType),
            Err(te) => Err(te),
        }
    }

    /// Store an opaque capability error and return its fresh handle.  Every
    /// stored error stays retrievable until explicitly dropped.
    pub fn push_error(&mut self, trace: String) -> (h: usize)
        ensures
            !old(self)@.dom().contains(h),
            final(self)@ == old(self)@.insert(h, EntryView::CapabilityError(trace@)),
            final(self).allocated() == old(self).allocated() + 1,
            h < final(self).allocated(),
    {
        self.push(Entry::CapabilityError(trace))
    }
}

} // verus!
