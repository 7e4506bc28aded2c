use std::sync::Arc;

use vstd::prelude::*;

use crate::buffer::Buffer;

verus! {

/// An immutable, shared view of a window of a `Buffer`. Clones and slices of a
/// reference share the buffer; none of them copies its bytes.
pub struct BufferRef {
    inner: Arc<Buffer>,
    start: usize,
    len: usize,
}

impl BufferRef {
    #[verifier::type_invariant]
    spec fn window_in_bounds(&self) -> bool {
        &&& self.inner.wf()
        &&& self.start + self.len <= self.inner@.len()
    }

    /// All bytes of the buffer behind the reference.
    pub closed spec fn backing(&self) -> Seq<u8> {
        self.inner@
    }

    /// Position of the window's first byte in the buffer behind it.
    pub closed spec fn offset(&self) -> nat {
        self.start as nat
    }

    /// The bytes inside the window.
    pub closed spec fn view(&self) -> Seq<u8> {
        self.inner@.subrange(self.start as int, self.start + self.len)
    }

    /// A shared reference to the `len` bytes of `inner` from `start` on.
    pub fn new(inner: Arc<Buffer>, start: usize, len: usize) -> (r: Self)
        requires
            inner.wf(),
            start + len <= inner@.len(),
        ensures
            r.backing() == inner@,
            r.offset() == start,
            r@ == inner@.subrange(start as int, start + len),
            r@ == r.backing().subrange(r.offset() as int, (r.offset() + len) as int),
    {
        BufferRef { inner, start, len }
    }

    /// A reference to the `len` bytes of this window from its position `start`
    /// on, sharing the same buffer.
    pub fn slice(&self, start: usize, len: usize) -> (r: Self)
        requires
            start + len <= self@.len(),
        ensures
            r.backing() == self.backing(),
            r.offset() == self.offset() + start,
            r@ == self@.subrange(start as int, start + len),
            r@ == r.backing().subrange(r.offset() as int, (r.offset() + len) as int),
    {
        proof {
            use_type_invariant(self);
            self.inner.lemma_layout();
        }
        let r = BufferRef { inner: self.inner.clone(), start: self.start + start, len };
        assert(r@ =~= self@.subrange(start as int, start + len));
        assert(r@ =~= r.backing().subrange(r.offset() as int, (r.offset() + len) as int));
        r
    }

    /// Number of bytes in the window.
    pub fn len(&self) -> (r: usize)
        ensures
            r == self@.len(),
    {
        proof {
            use_type_invariant(self);
        }
        self.len
    }

    /// Whether the window holds no bytes.
    pub fn is_empty(&self) -> (r: bool)
        ensures
            r == (self@.len() == 0),
    {
        self.len() == 0
    }

    /// Number of bytes in the whole buffer behind the reference.
    pub fn inner_len(&self) -> (r: usize)
        ensures
            r == self.backing().len(),
    {
        proof {
            use_type_invariant(self);
        }
        self.inner.len()
    }

    /// Position of the window's first byte in the buffer behind it.
    pub fn start(&self) -> (r: usize)
        ensures
            r == self.offset(),
    {
        self.start
    }

    /// The bytes inside the window.
    pub fn as_slice(&self) -> (r: &[u8])
        ensures
            r@ == self@,
    {
        proof {
            use_type_invariant(self);
        }
        let all = self.inner.as_slice();
        let (_, from_start) = all.split_at(self.start);
        let (window, _) = from_start.split_at(self.len);
        assert(window@ =~= self@);
        window
    }
}

/// Slicing twice is slicing once at the sum of the offsets: a slice at `a`
/// of length `la`, sliced again at `b` with length `lb`, starts `a + b` bytes
/// after the first reference in the same buffer, and its byte `i` is byte
/// `a + b + i` of the first reference.
pub proof fn lemma_slice_compose(
    r: BufferRef,
    a: nat,
    la: nat,
    s1: BufferRef,
    b: nat,
    lb: nat,
    s2: BufferRef,
)
    requires
        a + la <= r@.len(),
        s1.backing() == r.backing(),
        s1.offset() == r.offset() + a,
        s1@ == r@.subrange(a as int, (a + la) as int),
        b + lb <= s1@.len(),
        s2.backing() == s1.backing(),
        s2.offset() == s1.offset() + b,
        s2@ == s1@.subrange(b as int, (b + lb) as int),
    ensures
        s2.backing() == r.backing(),
        s2.offset() == r.offset() + a + b,
        s2@ == r@.subrange((a + b) as int, (a + b + lb) as int),
        forall|i: int| 0 <= i < lb ==> s2@[i] == r@[a + b + i],
{
    assert(s2@ =~= r@.subrange((a + b) as int, (a + b + lb) as int));
}

impl Clone for BufferRef {
    /// Another reference to the same window of the same buffer.
    fn clone(&self) -> (r: Self)
        ensures
            r.backing() == self.backing(),
            r.offset() == self.offset(),
            r@ == self@,
    {
        proof {
            use_type_invariant(self);
        }
        BufferRef { inner: self.inner.clone(), start: self.start, len: self.len }
    }
}

} // verus!
