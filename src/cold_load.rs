use vstd::prelude::*;

use crate::ALIGNMENT;

verus! {

/// Width of one streamed chunk.
pub const STEP: usize = 32;

/// `dst` with the `len` bytes starting at `at` replaced by the first `len` bytes of `src`.
pub open spec fn copied(dst: Seq<u8>, at: int, src: Seq<u8>, len: int) -> Seq<u8> {
    Seq::new(dst.len(), |i: int| if at <= i < at + len { src[i - at] } else { dst[i] })
}

/// Number of bytes from position `at` up to the next multiple of `ALIGNMENT`.
pub open spec fn align_gap(at: int) -> int {
    (ALIGNMENT - at % (ALIGNMENT as int)) % (ALIGNMENT as int)
}

/// The streaming strategy's plan: a byte-wise prologue up to the alignment
/// boundary, as many whole chunks of `STEP` bytes as fit, then a tail of the
/// fewer than `STEP` bytes left over; each phase copies the part of `src` that
/// follows the previous one.
pub open spec fn streamed(dst: Seq<u8>, at: int, src: Seq<u8>, len: int) -> Seq<u8> {
    let head = if align_gap(at) < len { align_gap(at) } else { len };
    let chunks = (len - head) / (STEP as int) * (STEP as int);
    let tail = (len - head) % (STEP as int);
    let d1 = copied(dst, at, src, head);
    let d2 = copied(d1, at + head, src.skip(head), chunks);
    copied(d2, at + head + chunks, src.skip(head + chunks), tail)
}

/// Copying `a` bytes and then the next `b` bytes is copying `a + b` bytes.
pub proof fn lemma_copied_concat(dst: Seq<u8>, at: int, src: Seq<u8>, a: int, b: int)
    requires
        0 <= a,
        0 <= b,
        0 <= at,
        a + b <= src.len(),
    ensures
        copied(copied(dst, at, src, a), at + a, src.skip(a), b) == copied(dst, at, src, a + b),
{
    assert(copied(copied(dst, at, src, a), at + a, src.skip(a), b) =~= copied(dst, at, src, a + b));
}

/// The streaming plan writes exactly what a plain copy writes, for every length:
/// both strategies give the same bytes.
pub proof fn lemma_strategies_agree(dst: Seq<u8>, at: int, src: Seq<u8>, len: int)
    requires
        0 <= at,
        0 <= len <= src.len(),
    ensures
        streamed(dst, at, src, len) == copied(dst, at, src, len),
{
    let head = if align_gap(at) < len { align_gap(at) } else { len };
    let chunks = (len - head) / (STEP as int) * (STEP as int);
    let tail = (len - head) % (STEP as int);
    assert(chunks + tail == len - head) by (nonlinear_arith)
        requires
            chunks == (len - head) / 32 * 32,
            tail == (len - head) % 32,
    ;
    assert(0 <= chunks) by (nonlinear_arith)
        requires
            chunks == (len - head) / 32 * 32,
            len - head >= 0,
    ;
    assert(0 <= head) by {
        assert(0 <= align_gap(at));
    }
    lemma_copied_concat(dst, at, src, head, chunks);
    assert(src.skip(head).skip(chunks) =~= src.skip(head + chunks));
    lemma_copied_concat(dst, at, src, head + chunks, tail);
}

/// Copies `src[done]` to `dst[at + done]`, extending a copy of `done` bytes by one.
fn copy_byte(src: &[u8], dst: &mut Vec<u8>, at: usize, done: usize, Ghost(orig): Ghost<Seq<u8>>)
    requires
        done < src@.len(),
        at + done < old(dst)@.len(),
        old(dst)@ == copied(orig, at as int, src@, done as int),
    ensures
        final(dst)@ == copied(orig, at as int, src@, done + 1),
{
    let dst_len: usize = dst.len();
    assert(at + done < dst_len);
    dst.set(at + done, src[done]);
    assert(dst@ =~= copied(orig, at as int, src@, done + 1));
}

/// Copies the `STEP` bytes of `src` from `done` on to `dst[at + done..]`.
fn store_chunk(src: &[u8], dst: &mut Vec<u8>, at: usize, done: usize, Ghost(orig): Ghost<Seq<u8>>)
    requires
        done + STEP <= src@.len(),
        at + done + STEP <= old(dst)@.len(),
        old(dst)@ == copied(orig, at as int, src@, done as int),
    ensures
        final(dst)@ == copied(orig, at as int, src@, done + STEP),
{
    let src_len: usize = src.len();
    assert(done + STEP <= src_len);
    let mut k: usize = 0;
    while k < STEP
        invariant
            k <= STEP,
            done + STEP <= src@.len() <= usize::MAX,
            at + done + STEP <= dst@.len(),
            dst@ == copied(orig, at as int, src@, done + k),
        decreases STEP - k,
    {
        copy_byte(src, dst, at, done + k, Ghost(orig));
        k = k + 1;
    }
}

/// Copies the first `len` bytes of `src` into `dst` from position `at` on, leaving
/// every other byte of `dst` as it was. `dst` is taken to start on an
/// `ALIGNMENT` boundary, as the storage of a `Buffer` does.
///
/// Bytes are written in three phases: one at a time until the destination
/// position is a multiple of `ALIGNMENT`, then in whole chunks of `STEP` bytes,
/// then the fewer than `STEP` bytes that remain, one at a time.
pub fn cold_copy(src: &[u8], dst: &mut Vec<u8>, at: usize, len: usize)
    requires
        len <= src@.len(),
        at + len <= old(dst)@.len(),
    ensures
        final(dst)@ == copied(old(dst)@, at as int, src@, len as int),
        final(dst)@ == streamed(old(dst)@, at as int, src@, len as int),
{
    let ghost orig = dst@;
    proof {
        assert(dst@ =~= copied(orig, at as int, src@, 0));
        lemma_strategies_agree(orig, at as int, src@, len as int);
    }
    let gap: usize = (ALIGNMENT - at % ALIGNMENT) % ALIGNMENT;
    let head: usize = if gap < len { gap } else { len };
    let mut done: usize = 0;
    while done < head
        invariant
            head <= len,
            len <= src@.len(),
            at + len <= dst@.len(),
            done <= head,
            dst@ == copied(orig, at as int, src@, done as int),
        decreases head - done,
    {
        copy_byte(src, dst, at, done, Ghost(orig));
        done = done + 1;
    }
    let rest: usize = len - head;
    let n_chunks: usize = rest / STEP;
    let mut i: usize = 0;
    while i < n_chunks
        invariant
            head + rest == len,
            n_chunks == rest / STEP,
            len <= src@.len(),
            at + len <= dst@.len(),
            i <= n_chunks,
            done == head + i * STEP,
            dst@ == copied(orig, at as int, src@, done as int),
        decreases n_chunks - i,
    {
        assert(done + STEP <= len) by (nonlinear_arith)
            requires
                done == head + i * 32,
                i < n_chunks,
                n_chunks == rest / 32,
                head + rest == len,
        ;
        store_chunk(src, dst, at, done, Ghost(orig));
        done = done + STEP;
        i = i + 1;
    }
    let tail: usize = rest % STEP;
    assert(done + tail == len) by (nonlinear_arith)
        requires
            done == head + n_chunks * 32,
            n_chunks == rest / 32,
            tail == rest % 32,
            head + rest == len,
    ;
    let end: usize = done + tail;
    while done < end
        invariant
            end == len,
            len <= src@.len(),
            at + len <= dst@.len(),
            done <= end,
            dst@ == copied(orig, at as int, src@, done as int),
        decreases end - done,
    {
        copy_byte(src, dst, at, done, Ghost(orig));
        done = done + 1;
    }
}

/// Copies the first `len` bytes of `src` into `dst` from position `at` on, one
/// byte after another, leaving every other byte of `dst` as it was.
pub fn copy_portable(src: &[u8], dst: &mut Vec<u8>, at: usize, len: usize)
    requires
        len <= src@.len(),
        at + len <= old(dst)@.len(),
    ensures
        final(dst)@ == copied(old(dst)@, at as int, src@, len as int),
{
    let ghost orig = dst@;
    proof {
        assert(dst@ =~= copied(orig, at as int, src@, 0));
    }
    let mut done: usize = 0;
    while done < len
        invariant
            len <= src@.len(),
            at + len <= dst@.len(),
            done <= len,
            dst@ == copied(orig, at as int, src@, done as int),
        decreases len - done,
    {
        copy_byte(src, dst, at, done, Ghost(orig));
        done = done + 1;
    }
}

} // verus!
