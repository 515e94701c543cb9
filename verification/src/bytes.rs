//! Little-endian 32-bit reads and 4-byte alignment arithmetic.
//!
//! Every numeric field of a KTX file is a 32-bit unsigned integer.  This
//! decoder reads them little-endian; a file written in the opposite byte
//! order is caught by the endianness sentinel in the header.

use vstd::prelude::*;

verus! {

/// The unsigned 32-bit value stored little-endian at offset `i` of `s`.
pub open spec fn u32_le(s: Seq<u8>, i: int) -> u32
    recommends
        0 <= i,
        i + 4 <= s.len(),
{
    (s[i] + s[i + 1] * 0x100 + s[i + 2] * 0x1_0000 + s[i + 3] * 0x100_0000) as u32
}

/// Read the little-endian 32-bit value at offset `pos` of `data`.
pub fn read_u32_le(data: &Vec<u8>, pos: usize) -> (r: u32)
    requires
        pos + 4 <= data.len(),
    ensures
        r == u32_le(data@, pos as int),
{
    let b0 = data[pos] as u32;
    let b1 = data[pos + 1] as u32;
    let b2 = data[pos + 2] as u32;
    let b3 = data[pos + 3] as u32;
    b0 + b1 * 0x100 + b2 * 0x1_0000 + b3 * 0x100_0000
}

/// `x` rounded up to the next multiple of 4.
pub open spec fn align4(x: int) -> int {
    ((x + 3) / 4) * 4
}

/// Round `x` up to the next multiple of 4.
pub fn force_align(x: u32) -> (r: u32)
    requires
        x <= 0xFFFF_FFFC,
    ensures
        r == align4(x as int),
{
    let rem = x % 4;
    if rem == 0 {
        proof {
            vstd::arithmetic::div_mod::lemma_fundamental_div_mod(x as int, 4);
            vstd::arithmetic::div_mod::lemma_fundamental_div_mod_converse(
                x + 3,
                4,
                x as int / 4,
                3,
            );
        }
        x
    } else {
        proof {
            vstd::arithmetic::div_mod::lemma_fundamental_div_mod(x as int, 4);
            vstd::arithmetic::div_mod::lemma_fundamental_div_mod_converse(
                x + 3,
                4,
                x as int / 4 + 1,
                rem as int - 1,
            );
        }
        x - rem + 4
    }
}

/// Round `x` up to the next multiple of 4, in 64-bit arithmetic so that no
/// 32-bit length can overflow.
pub(crate) fn align4_u64(x: u64) -> (r: u64)
    requires
        x <= 0xFFFF_FFFF,
    ensures
        r == align4(x as int),
{
    let rem = x % 4;
    if rem == 0 {
        proof {
            vstd::arithmetic::div_mod::lemma_fundamental_div_mod(x as int, 4);
            vstd::arithmetic::div_mod::lemma_fundamental_div_mod_converse(
                x + 3,
                4,
                x as int / 4,
                3,
            );
        }
        x
    } else {
        proof {
            vstd::arithmetic::div_mod::lemma_fundamental_div_mod(x as int, 4);
            vstd::arithmetic::div_mod::lemma_fundamental_div_mod_converse(
                x + 3,
                4,
                x as int / 4 + 1,
                rem as int - 1,
            );
        }
        x - rem + 4
    }
}

/// Rounding up to a multiple of 4 adds at most 3.
pub proof fn lemma_align4_bounds(x: int)
    requires
        x >= 0,
    ensures
        x <= align4(x) <= x + 3,
        align4(x) % 4 == 0,
{
    vstd::arithmetic::div_mod::lemma_fundamental_div_mod(x + 3, 4);
    vstd::arithmetic::div_mod::lemma_mod_multiples_basic((x + 3) / 4, 4);
    assert(align4(x) == ((x + 3) / 4) * 4);
}

/// Copy the bytes of `data` in `start .. end` into a fresh vector.
pub fn copy_range(data: &Vec<u8>, start: usize, end: usize) -> (r: Vec<u8>)
    requires
        start <= end <= data.len(),
    ensures
        r@ == data@.subrange(start as int, end as int),
{
    let mut r: Vec<u8> = Vec::new();
    let mut i: usize = start;
    while i < end
        invariant
            start <= i <= end <= data.len(),
            r@ == data@.subrange(start as int, i as int),
        decreases end - i,
    {
        r.push(data[i]);
        proof {
            assert(r@ =~= data@.subrange(start as int, i + 1 as int));
        }
        i = i + 1;
    }
    r
}

} // verus!
