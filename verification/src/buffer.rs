//! Growable in-memory byte buffer with an explicit read cursor.

use vstd::prelude::*;

verus! {

/// An owned copy of a byte vector.
pub fn copy_bytes(v: &Vec<u8>) -> (r: Vec<u8>)
    ensures
        r@ == v@,
{
    let mut out: Vec<u8> = Vec::new();
    let mut i: usize = 0;
    while i < v.len()
        invariant
            i <= v.len(),
            out@ == v@.subrange(0, i as int),
        decreases v.len() - i,
    {
        out.push(v[i]);
        i += 1;
    }
    proof {
        assert(out@ == v@);
    }
    out
}

/// Mathematical model of a [`ByteBuffer`]: the bytes written so far and the
/// position of the read cursor within them.
pub struct BufferView {
    pub bytes: Seq<u8>,
    pub cursor: nat,
}

/// An in-memory, growable byte sink/source.
///
/// Writers append at the end; a reader consumes bytes from the cursor after
/// an explicit [`ByteBuffer::rewind`].  One buffer is the unit of data
/// exchanged for an outgoing value, and also backs readable stream entries.
pub struct ByteBuffer {
    data: Vec<u8>,
    pos: usize,
}

impl View for ByteBuffer {
    type V = BufferView;

    closed spec fn view(&self) -> BufferView {
        BufferView { bytes: self.data@, cursor: self.pos as nat }
    }
}

impl ByteBuffer {
    #[verifier::type_invariant]
    spec fn inv(self) -> bool {
        self.pos <= self.data.len()
    }

    /// An empty buffer with the cursor at the start.
    pub fn new() -> (r: Self)
        ensures
            r@ == (BufferView { bytes: Seq::<u8>::empty(), cursor: 0 }),
    {
        ByteBuffer { data: Vec::new(), pos: 0 }
    }

    /// Wrap an owned byte vector as a readable buffer, cursor at the start.
    pub fn from_vec(data: Vec<u8>) -> (r: Self)
        ensures
            r@ == (BufferView { bytes: data@, cursor: 0 }),
    {
        ByteBuffer { data, pos: 0 }
    }

    /// Append `bytes` at the end; the read cursor does not move.
    pub fn write(&mut self, bytes: &Vec<u8>)
        ensures
            final(self)@ == (BufferView {
                bytes: old(self)@.bytes + bytes@,
                cursor: old(self)@.cursor,
            }),
    {
        proof {
            use_type_invariant(&*self);
        }
        let mut appended: Vec<u8> = Vec::new();
        let mut i: usize = 0;
        while i < self.data.len()
            invariant
                i <= self.data.len(),
                appended@ == self.data@.subrange(0, i as int),
            decreases self.data.len() - i,
        {
            appended.push(self.data[i]);
            i += 1;
        }
        let mut j: usize = 0;
        while j < bytes.len()
            invariant
                j <= bytes.len(),
                appended@ == self.data@ + bytes@.subrange(0, j as int),
            decreases bytes.len() - j,
        {
            appended.push(bytes[j]);
            j += 1;
        }
        proof {
            assert(appended@ == self.data@ + bytes@);
        }
        self.data = appended;
    }

    /// Move the read cursor back to the start of the contents.
    pub fn rewind(&mut self)
        ensures
            final(self)@ == (BufferView { bytes: old(self)@.bytes, cursor: 0 }),
    {
        proof {
            use_type_invariant(&*self);
        }
        self.pos = 0;
    }

    /// A copy of the whole contents, from the start, regardless of the
    /// cursor; neither the contents nor the cursor change.
    pub fn snapshot(&self) -> (r: Vec<u8>)
        ensures
            r@ == self@.bytes,
    {
        let mut out: Vec<u8> = Vec::new();
        let mut i: usize = 0;
        while i < self.data.len()
            invariant
                i <= self.data.len(),
                out@ == self.data@.subrange(0, i as int),
            decreases self.data.len() - i,
        {
            out.push(self.data[i]);
            i += 1;
        }
        proof {
            assert(out@ == self.data@);
        }
        out
    }

    /// Read up to `n` bytes from the cursor, advancing it past what was read.
    pub fn read_up_to(&mut self, n: usize) -> (r: Vec<u8>)
        ensures
            ({
                let start: nat = old(self)@.cursor;
                let avail: nat = (old(self)@.bytes.len() - start) as nat;
                let k: nat = if n as nat <= avail {
                    n as nat
                } else {
                    avail
                };
                &&& r@ == old(self)@.bytes.subrange(start as int, (start + k) as int)
                &&& final(self)@ == (BufferView {
                    bytes: old(self)@.bytes,
                    cursor: start + k,
                })
            }),
    {
        proof {
            use_type_invariant(&*self);
        }
        let avail = self.data.len() - self.pos;
        let k = if n <= avail {
            n
        } else {
            avail
        };
        let mut out: Vec<u8> = Vec::new();
        let mut i: usize = 0;
        while i < k
            invariant
                i <= k,
                self.pos + k <= self.data.len(),
                out@ == self.data@.subrange(self.pos as int, self.pos + i),
            decreases k - i,
        {
            out.push(self.data[self.pos + i]);
            i += 1;
        }
        self.pos = self.pos + k;
        out
    }

    /// Read everything from the cursor to the end, leaving the cursor at the
    /// end of the contents.
    pub fn read_to_end(&mut self) -> (r: Vec<u8>)
        ensures
            r@ == old(self)@.bytes.skip(old(self)@.cursor as int),
            final(self)@ == (BufferView {
                bytes: old(self)@.bytes,
                cursor: old(self)@.bytes.len(),
            }),
    {
        proof {
            use_type_invariant(&*self);
        }
        let r = self.read_up_to(self.data.len());
        proof {
            assert(r@ == self@.bytes.skip(old(self)@.cursor as int));
        }
        r
    }
}

} // verus!
