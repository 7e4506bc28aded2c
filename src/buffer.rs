use std::sync::Arc;

use vstd::prelude::*;

use crate::buffer_ref::BufferRef;
use crate::cold_load::{cold_copy, copied, copy_portable};
use crate::ALIGNMENT;

verus! {

/// Size of the allocation that holds `len` bytes: `len` rounded up to the next
/// multiple of `ALIGNMENT` (no allocation at all for zero bytes).
pub open spec fn padded_size(len: nat) -> nat {
    ((len + ALIGNMENT - 1) / (ALIGNMENT as int) * (ALIGNMENT as int)) as nat
}

/// A mutable byte container whose storage is padded to a multiple of
/// `ALIGNMENT` bytes, so that fixed-width chunked operations can run over the
/// whole of it without checking for a short tail.
pub struct Buffer {
    data: Vec<u8>,
    len: usize,
}

impl Buffer {
    /// The allocation is exactly the length padded to `ALIGNMENT`.
    pub closed spec fn wf(&self) -> bool {
        &&& self.data@.len() == padded_size(self.len as nat)
        &&& self.len <= self.data@.len()
    }

    /// The bytes the buffer holds; the padding is not part of them.
    pub closed spec fn view(&self) -> Seq<u8> {
        self.data@.subrange(0, self.len as int)
    }

    /// Number of bytes allocated for the buffer, padding included.
    pub closed spec fn allocated(&self) -> nat {
        self.data@.len()
    }

    /// A well-formed buffer's bytes are its first `len` allocated bytes, and
    /// its allocation is exactly `len` padded to `ALIGNMENT`.
    pub proof fn lemma_layout(&self)
        requires
            self.wf(),
        ensures
            self.allocated() == padded_size(self@.len()),
            self@.len() <= self.allocated(),
            self@.len() <= usize::MAX,
    {
    }

    /// Creates a buffer of `len` zero bytes, allocating `len` rounded up to a
    /// multiple of `ALIGNMENT`; nothing is allocated when `len` is zero.
    pub fn new(len: usize) -> (r: Self)
        requires
            padded_size(len as nat) <= isize::MAX,
        ensures
            r@ == Seq::new(len as nat, |i: int| 0u8),
            r.allocated() == padded_size(len as nat),
            len == 0 ==> r.allocated() == 0,
            r.wf(),
    {
        if len == 0 {
            let r = Buffer { data: Vec::new(), len };
            assert(r@ =~= Seq::new(len as nat, |i: int| 0u8));
            return r;
        }
        let padded: usize = (len + (ALIGNMENT - 1)) / ALIGNMENT * ALIGNMENT;
        assert(padded >= len) by (nonlinear_arith)
            requires
                padded == (len + 63) / 64 * 64,
        ;
        let data = vec![0u8; padded];
        let r = Buffer { data, len };
        assert(r@ =~= Seq::new(len as nat, |i: int| 0u8));
        r
    }

    /// The buffer's bytes, without the padding.
    pub fn as_slice(&self) -> (r: &[u8])
        requires
            self.wf(),
        ensures
            r@ == self@,
    {
        let (head, _) = self.data.as_slice().split_at(self.len);
        head
    }

    /// Sets the byte at `index` to `value`.
    pub fn set(&mut self, index: usize, value: u8)
        requires
            old(self).wf(),
            index < old(self)@.len(),
        ensures
            final(self).wf(),
            final(self)@ == old(self)@.update(index as int, value),
            final(self).allocated() == old(self).allocated(),
    {
        self.data.set(index, value);
        assert(self.data@.subrange(0, self.len as int) =~= old(self)@.update(index as int, value));
    }

    /// Number of bytes in the buffer; the allocation behind it may be larger.
    pub fn len(&self) -> (r: usize)
        requires
            self.wf(),
        ensures
            r == self@.len(),
    {
        self.len
    }

    /// Whether the buffer holds no bytes.
    pub fn is_empty(&self) -> (r: bool)
        requires
            self.wf(),
        ensures
            r == (self@.len() == 0),
    {
        self.len() == 0
    }

    /// Overwrites the first `src.len()` bytes with `src`, streaming the writes
    /// (see `cold_copy`); the bytes after them are left as they were.
    pub fn cold_load(&mut self, src: &[u8])
        requires
            old(self).wf(),
            src@.len() <= old(self)@.len(),
        ensures
            final(self).wf(),
            final(self)@ == copied(old(self)@, 0, src@, src@.len() as int),
            final(self).allocated() == old(self).allocated(),
    {
        let ghost before = self.data@;
        cold_copy(src, &mut self.data, 0, src.len());
        assert(self.data@.subrange(0, self.len as int) =~= copied(
            before.subrange(0, self.len as int),
            0,
            src@,
            src@.len() as int,
        ));
    }

    /// A new buffer holding a copy of `src`, written with plain stores.
    pub fn from_slice(src: &[u8]) -> (r: Self)
        requires
            padded_size(src@.len()) <= isize::MAX,
        ensures
            r.wf(),
            r@ == src@,
            r.allocated() == padded_size(src@.len()),
    {
        let mut buf = Self::new(src.len());
        assert(buf@.len() == src@.len());
        copy_portable(src, &mut buf.data, 0, src.len());
        assert(buf.data@.subrange(0, buf.len as int) =~= src@);
        buf
    }

    /// A new buffer holding a copy of `src`, written with streamed stores
    /// (see `cold_load`).
    pub fn from_slice_cold(src: &[u8]) -> (r: Self)
        requires
            padded_size(src@.len()) <= isize::MAX,
        ensures
            r.wf(),
            r@ == src@,
            r.allocated() == padded_size(src@.len()),
    {
        let mut buf = Self::new(src.len());
        buf.cold_load(src);
        assert(buf@ =~= src@);
        buf
    }

    /// Turns the buffer into a shared reference over all of its bytes.
    pub fn into_ref(self) -> (r: BufferRef)
        requires
            self.wf(),
        ensures
            r@ == self@,
            r.backing() == self@,
            r.offset() == 0,
    {
        let len = self.len;
        BufferRef::new(Arc::new(self), 0, len)
    }
}

impl Clone for Buffer {
    /// A buffer with the same bytes in an allocation of its own.
    fn clone(&self) -> (r: Self)
        ensures
            r@ == self@,
            r.allocated() == self.allocated(),
            r.wf() == self.wf(),
    {
        let data = self.data.clone();
        assert(data@ =~= self.data@);
        Buffer { data, len: self.len }
    }
}

} // verus!
