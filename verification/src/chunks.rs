//! Bridging a sequence of arbitrarily sized byte chunks into the
//! sequential reads the decoder issues.
//!
//! Sources that deliver data in irregular pieces (network responses, for
//! example) hand their chunks to a [`ChunkedSource`]; reading from it
//! walks the chunks in order, never crossing a chunk boundary in a single
//! short read, so callers loop until their own buffer is full or the data
//! ends.

use vstd::prelude::*;

use crate::bytes::copy_range;

verus! {

/// The bytes of `cs` from chunk `i` onward, the first chunk starting at
/// offset `off`, laid end to end.
pub open spec fn flatten_from(cs: Seq<Seq<u8>>, i: int, off: int) -> Seq<u8>
    decreases cs.len() - i,
{
    if i < 0 || i >= cs.len() {
        Seq::empty()
    } else {
        cs[i].skip(off) + flatten_from(cs, i + 1, 0)
    }
}

/// The bytes still unread in the first chunk that has any, starting from
/// chunk `i` at offset `off` and skipping exhausted chunks.
pub open spec fn first_avail(cs: Seq<Seq<u8>>, i: int, off: int) -> int
    decreases cs.len() - i,
{
    if i < 0 || i >= cs.len() {
        0
    } else if off == cs[i].len() {
        first_avail(cs, i + 1, 0)
    } else {
        cs[i].len() - off
    }
}

/// A sequence of byte chunks consumed as one sequential byte source.
pub struct ChunkedSource {
    chunks: Vec<Vec<u8>>,
    idx: usize,
    off: usize,
}

impl ChunkedSource {
    /// The chunks as byte sequences.
    pub closed spec fn chunk_seqs(self) -> Seq<Seq<u8>> {
        Seq::new(self.chunks@.len(), |i: int| self.chunks@[i]@)
    }

    /// The chunk the next read comes from.
    pub closed spec fn chunk_idx(self) -> int {
        self.idx as int
    }

    /// The offset of the next unread byte of the current chunk.
    pub closed spec fn chunk_off(self) -> int {
        self.off as int
    }

    /// The cursor lies inside the chunks.
    pub open spec fn wf(self) -> bool {
        &&& 0 <= self.chunk_idx() <= self.chunk_seqs().len()
        &&& (self.chunk_idx() < self.chunk_seqs().len() ==> 0 <= self.chunk_off()
            <= self.chunk_seqs()[self.chunk_idx()].len())
        &&& (self.chunk_idx() == self.chunk_seqs().len() ==> self.chunk_off() == 0)
    }

    /// The bytes not yet consumed.
    pub open spec fn remaining(self) -> Seq<u8> {
        flatten_from(self.chunk_seqs(), self.chunk_idx(), self.chunk_off())
    }

    /// How many bytes the current chunk still offers: the unread length
    /// of the first chunk with any, 0 at the end of the data.
    pub open spec fn avail_in_chunk(self) -> int {
        first_avail(self.chunk_seqs(), self.chunk_idx(), self.chunk_off())
    }

    /// Turn a sequence of chunks into a sequential source of all their
    /// bytes in order.
    pub fn new(chunks: Vec<Vec<u8>>) -> (r: ChunkedSource)
        ensures
            r.wf(),
            r.remaining() == flatten_from(
                Seq::new(chunks@.len(), |i: int| chunks@[i]@),
                0,
                0,
            ),
    {
        ChunkedSource { chunks, idx: 0, off: 0 }
    }

    /// Read at most `n` bytes: exactly `min(n, avail_in_chunk)` of the
    /// next bytes, never crossing a chunk boundary.  The result is empty
    /// only when `n` is 0 or no bytes remain; a short read is legal and
    /// the caller loops as needed.
    pub fn read(&mut self, n: usize) -> (r: Vec<u8>)
        requires
            old(self).wf(),
        ensures
            final(self).wf(),
            final(self).chunk_seqs() == old(self).chunk_seqs(),
            r@.len() == if n < old(self).avail_in_chunk() {
                n as int
            } else {
                old(self).avail_in_chunk()
            },
            r@.len() <= old(self).remaining().len(),
            r@ == old(self).remaining().take(r@.len() as int),
            final(self).remaining() == old(self).remaining().skip(r@.len() as int),
            old(self).remaining().len() > 0 && n > 0 ==> r@.len() > 0,
            old(self).remaining().len() == 0 ==> r@.len() == 0,
    {
        while self.idx < self.chunks.len() && self.off == self.chunks[self.idx].len()
            invariant
                self.wf(),
                self.chunk_seqs() == old(self).chunk_seqs(),
                self.remaining() == old(self).remaining(),
                self.avail_in_chunk() == old(self).avail_in_chunk(),
            decreases self.chunks@.len() - self.idx,
        {
            proof {
                lemma_flatten_exhausted(self.chunk_seqs(), self.idx as int, self.off as int);
            }
            self.idx = self.idx + 1;
            self.off = 0;
        }
        if self.idx == self.chunks.len() {
            let r: Vec<u8> = Vec::new();
            proof {
                assert(r@ =~= old(self).remaining().take(0));
                assert(final(self).remaining() =~= old(self).remaining().skip(0));
            }
            return r;
        }
        let chunk_len = self.chunks[self.idx].len();
        let avail = chunk_len - self.off;
        let count = if n < avail {
            n
        } else {
            avail
        };
        let chunk = &self.chunks[self.idx];
        let r = copy_range(chunk, self.off, self.off + count);
        proof {
            assert(r@ =~= self.remaining().take(count as int));
        }
        self.off = self.off + count;
        proof {
            assert(final(self).remaining() =~= old(self).remaining().skip(count as int));
        }
        r
    }

    /// Read exactly `n` bytes, crossing chunk boundaries as needed, or
    /// `None` when fewer than `n` bytes remain; failure consumes
    /// everything that was left.
    pub fn read_exact(&mut self, n: usize) -> (r: Option<Vec<u8>>)
        requires
            old(self).wf(),
        ensures
            final(self).wf(),
            final(self).chunk_seqs() == old(self).chunk_seqs(),
            r is Some <==> old(self).remaining().len() >= n,
            r matches Some(v) ==> (v@ == old(self).remaining().take(n as int)
                && final(self).remaining() == old(self).remaining().skip(n as int)),
            r is None ==> final(self).remaining().len() == 0,
    {
        let mut buf: Vec<u8> = Vec::new();
        while buf.len() < n
            invariant
                self.wf(),
                self.chunk_seqs() == old(self).chunk_seqs(),
                buf@.len() <= n,
                buf@.len() <= old(self).remaining().len(),
                buf@ == old(self).remaining().take(buf@.len() as int),
                self.remaining() == old(self).remaining().skip(buf@.len() as int),
            decreases n - buf@.len(),
        {
            let want = n - buf.len();
            let ghost taken = buf@.len() as int;
            let mut piece = self.read(want);
            if piece.len() == 0 {
                proof {
                    assert(old(self).remaining().len() < n);
                }
                return None;
            }
            let ghost got = piece@.len() as int;
            buf.append(&mut piece);
            proof {
                lemma_take_chain(old(self).remaining(), taken, got);
            }
        }
        Some(buf)
    }

    /// Read everything that remains.
    pub fn read_to_end(&mut self) -> (r: Vec<u8>)
        requires
            old(self).wf(),
        ensures
            final(self).wf(),
            final(self).chunk_seqs() == old(self).chunk_seqs(),
            r@ == old(self).remaining(),
            final(self).remaining().len() == 0,
    {
        let mut buf: Vec<u8> = Vec::new();
        loop
            invariant
                self.wf(),
                self.chunk_seqs() == old(self).chunk_seqs(),
                buf@ == old(self).remaining().take(buf@.len() as int),
                self.remaining() == old(self).remaining().skip(buf@.len() as int),
                buf@.len() <= old(self).remaining().len(),
            decreases self.remaining().len(),
        {
            let ghost taken = buf@.len() as int;
            let mut piece = self.read(usize::MAX);
            if piece.len() == 0 {
                proof {
                    assert(buf@ =~= old(self).remaining());
                }
                return buf;
            }
            let ghost got = piece@.len() as int;
            buf.append(&mut piece);
            proof {
                lemma_take_chain(old(self).remaining(), taken, got);
            }
        }
    }
}

/// Taking `a` bytes and then `b` bytes of what is left takes `a + b`
/// bytes.
proof fn lemma_take_chain(s: Seq<u8>, a: int, b: int)
    requires
        0 <= a,
        0 <= b,
        a + b <= s.len(),
    ensures
        s.take(a) + s.skip(a).take(b) == s.take(a + b),
        s.skip(a).skip(b) == s.skip(a + b),
{
    assert(s.take(a) + s.skip(a).take(b) =~= s.take(a + b));
    assert(s.skip(a).skip(b) =~= s.skip(a + b));
}

/// When the current chunk is exhausted, moving to the next chunk leaves
/// the remaining bytes unchanged.
proof fn lemma_flatten_exhausted(cs: Seq<Seq<u8>>, i: int, off: int)
    requires
        0 <= i < cs.len(),
        off == cs[i].len(),
    ensures
        flatten_from(cs, i, off) == flatten_from(cs, i + 1, 0),
{
    assert(cs[i].skip(off) =~= Seq::empty());
    assert(flatten_from(cs, i, off) =~= flatten_from(cs, i + 1, 0));
}

} // verus!
