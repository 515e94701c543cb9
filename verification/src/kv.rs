//! The key/value metadata block of a KTX header.
//!
//! The block is a packed sequence of records.  Each record is a 4-byte
//! little-endian length prefix `len`, then `len` payload bytes holding a
//! UTF-8 key, a NUL separator and the raw value bytes, then 0 to 3 zero
//! bytes of padding so that the next record starts on a 4-byte boundary.

use vstd::prelude::*;

use crate::bytes::{align4, align4_u64, copy_range, lemma_align4_bounds, read_u32_le, u32_le};
use crate::error::Error;
use vstd::utf8::{decode_utf8, valid_utf8};

verus! {

/// The raw key/value block of a header, kept verbatim; entries are decoded
/// on demand through [`KeyValueData::iter`].
#[derive(Debug, Clone)]
pub struct KeyValueData {
    raw: Vec<u8>,
}

impl View for KeyValueData {
    type V = Seq<u8>;

    closed spec fn view(&self) -> Seq<u8> {
        self.raw@
    }
}

impl KeyValueData {
    /// Wrap a raw metadata block.
    pub fn new(raw: Vec<u8>) -> (r: Self)
        ensures
            r@ == raw@,
    {
        KeyValueData { raw }
    }

    /// A fresh, restartable cursor over the records of the block.
    pub fn iter<'a>(&'a self) -> (r: Entries<'a>)
        ensures
            r.blob() == self@,
            r.cursor() == 0,
            r.wf(),
    {
        Entries { data: &self.raw, pos: 0 }
    }
}

/// `i` is the position of the first NUL byte of `s`.
pub open spec fn is_first_nul(s: Seq<u8>, i: int) -> bool {
    &&& 0 <= i < s.len()
    &&& s[i] == 0
    &&& forall|j: int| 0 <= j < i ==> s[j] != 0
}

/// `s` contains a NUL byte.
pub open spec fn has_nul(s: Seq<u8>) -> bool {
    exists|i: int| is_first_nul(s, i)
}

/// The position of the first NUL byte of `s`.
pub open spec fn first_nul(s: Seq<u8>) -> int {
    choose|i: int| is_first_nul(s, i)
}

/// The first NUL position is unique, so `first_nul` returns it.
pub proof fn lemma_first_nul_is(s: Seq<u8>, i: int)
    requires
        is_first_nul(s, i),
    ensures
        has_nul(s),
        first_nul(s) == i,
{
    assert(has_nul(s));
    let j = first_nul(s);
    assert(is_first_nul(s, j));
    if j < i {
        assert(s[j] != 0);
    } else if i < j {
        assert(s[i] != 0);
    }
}

/// The declared payload length of the record starting at `p`.
pub open spec fn entry_len(b: Seq<u8>, p: int) -> u32 {
    u32_le(b, p)
}

/// The record starting at `p`, padding included, lies inside the block.
pub open spec fn entry_fits(b: Seq<u8>, p: int) -> bool {
    &&& p + 4 <= b.len()
    &&& p + 4 + align4(entry_len(b, p) as int) <= b.len()
}

/// The payload (key, NUL, value) of the record starting at `p`.
pub open spec fn entry_payload(b: Seq<u8>, p: int) -> Seq<u8> {
    b.subrange(p + 4, p + 4 + entry_len(b, p))
}

/// The key bytes of the record starting at `p`: the payload up to its
/// first NUL.
pub open spec fn entry_key_bytes(b: Seq<u8>, p: int) -> Seq<u8> {
    entry_payload(b, p).take(first_nul(entry_payload(b, p)))
}

/// The value bytes of the record starting at `p`: the payload after its
/// first NUL, with no trailing byte stripped.
pub open spec fn entry_value(b: Seq<u8>, p: int) -> Seq<u8> {
    entry_payload(b, p).skip(first_nul(entry_payload(b, p)) + 1)
}

/// The record starting at `p` decodes: it fits, its payload has a NUL
/// separator, and the key bytes are valid UTF-8.
pub open spec fn entry_wf(b: Seq<u8>, p: int) -> bool {
    &&& entry_fits(b, p)
    &&& has_nul(entry_payload(b, p))
    &&& valid_utf8(entry_key_bytes(b, p))
}

/// Where the record after the one starting at `p` begins.
pub open spec fn entry_next(b: Seq<u8>, p: int) -> int {
    p + 4 + align4(entry_len(b, p) as int)
}

/// A cursor over the records of a key/value block.
pub struct Entries<'a> {
    data: &'a Vec<u8>,
    pos: usize,
}

impl<'a> Entries<'a> {
    /// The block being walked.
    pub closed spec fn blob(self) -> Seq<u8> {
        self.data@
    }

    /// The offset of the next record.
    pub closed spec fn cursor(self) -> int {
        self.pos as int
    }

    /// The cursor lies inside the block.
    pub open spec fn wf(self) -> bool {
        0 <= self.cursor() <= self.blob().len()
    }

    /// Decode the record at the cursor and advance past it.
    ///
    /// Returns `None` when no bytes remain.  A malformed record (length
    /// prefix or padded payload overrunning the block, no NUL separator,
    /// key bytes that are not UTF-8) yields an error and ends the
    /// iteration.
    pub fn next(&mut self) -> (r: Option<Result<(String, Vec<u8>), Error>>)
        requires
            old(self).wf(),
        ensures
            final(self).wf(),
            final(self).blob() == old(self).blob(),
            ({
                let b = old(self).blob();
                let p = old(self).cursor();
                &&& (p == b.len() ==> r is None && final(self).cursor() == p)
                &&& (p < b.len() ==> r is Some)
                &&& (p < b.len() && !entry_wf(b, p) ==> r == Some(
                    Err::<(String, Vec<u8>), Error>(Error::InvalidKeyValueEntry),
                ) && final(self).cursor() == b.len())
                &&& (p < b.len() && entry_wf(b, p) ==> {
                    &&& r matches Some(Ok(e))
                        && e.0@ == decode_utf8(entry_key_bytes(b, p))
                        && e.1@ == entry_value(b, p)
                    &&& final(self).cursor() == entry_next(b, p)
                })
            }),
    {
        let b_len = self.data.len();
        if self.pos == b_len {
            return None;
        }
        if b_len - self.pos < 4 {
            self.pos = b_len;
            return Some(Err(Error::InvalidKeyValueEntry));
        }
        let len = read_u32_le(self.data, self.pos);
        let remaining = b_len - self.pos - 4;
        proof {
            lemma_align4_bounds(len as int);
        }
        let padded64 = align4_u64(len as u64);
        if padded64 > remaining as u64 {
            self.pos = b_len;
            return Some(Err(Error::InvalidKeyValueEntry));
        }
        let padded = padded64 as usize;
        let kv_start = self.pos + 4;
        let kv_end = kv_start + len as usize;
        let ghost payload = self.blob().subrange(kv_start as int, kv_end as int);
        match find_first_nul(self.data, kv_start, kv_end) {
            None => {
                self.pos = b_len;
                Some(Err(Error::InvalidKeyValueEntry))
            },
            Some(nul) => {
                proof {
                    lemma_first_nul_is(payload, nul - kv_start);
                }
                let key_bytes = copy_range(self.data, kv_start, nul);
                proof {
                    assert(key_bytes@ =~= payload.take(nul - kv_start));
                }
                match string_from_utf8(key_bytes) {
                    None => {
                        self.pos = b_len;
                        Some(Err(Error::InvalidKeyValueEntry))
                    },
                    Some(key) => {
                        let value = copy_range(self.data, nul + 1, kv_end);
                        proof {
                            assert(value@ =~= payload.skip(nul - kv_start + 1));
                        }
                        self.pos = self.pos + 4 + padded;
                        Some(Ok((key, value)))
                    },
                }
            },
        }
    }
}

/// The position of the first zero byte of `data` in `start .. end`.
fn find_first_nul(data: &Vec<u8>, start: usize, end: usize) -> (r: Option<usize>)
    requires
        start <= end <= data.len(),
    ensures
        r matches Some(i) ==> start <= i < end && is_first_nul(
            data@.subrange(start as int, end as int),
            i - start,
        ),
        r is None ==> !has_nul(data@.subrange(start as int, end as int)),
{
    let ghost s = data@.subrange(start as int, end as int);
    let mut i: usize = start;
    while i < end
        invariant
            start <= i <= end <= data.len(),
            s == data@.subrange(start as int, end as int),
            forall|j: int| start <= j < i ==> data@[j] != 0,
        decreases end - i,
    {
        if data[i] == 0 {
            assert(is_first_nul(s, i - start)) by {
                assert(s[i - start] == data@[i as int]);
                assert(forall|j: int| 0 <= j < i - start ==> s[j] == data@[start + j] && s[j]
                    != 0);
            }
            return Some(i);
        }
        i = i + 1;
    }
    proof {
        assert forall|k: int| !is_first_nul(s, k) by {
            if 0 <= k < s.len() {
                assert(s[k] == data@[start + k]);
            }
        }
    }
    None
}

/// Relies on `String::from_utf8`: it succeeds exactly when the bytes are
/// valid UTF-8, and the resulting string's characters are the decoding of
/// those bytes.
#[verifier::external_body]
fn string_from_utf8(bytes: Vec<u8>) -> (r: Option<String>)
    ensures
        r is Some <==> valid_utf8(bytes@),
        r matches Some(s) ==> s@ == decode_utf8(bytes@),
{
    String::from_utf8(bytes).ok()
}

} // verus!
