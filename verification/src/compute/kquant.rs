//! Super-blocks of 256 quantized values.
//!
//! A Q4_K block (144 bytes) holds two half-precision factors, `d` and `dmin`,
//! twelve bytes with eight 6-bit scales and eight 6-bit minima, and 128 bytes
//! with 256 four-bit values. Value `i` belongs to sub-block `i / 32` and
//! stands for `d * scale * quant - dmin * min`.
//!
//! A Q6_K block (210 bytes) holds the low four bits of its values (128
//! bytes), the high two bits (64 bytes), sixteen signed scales and the factor
//! `d`. Value `i` belongs to sub-block `i / 16` and stands for
//! `d * scale * (quant - 32)`.

use vstd::prelude::*;

use crate::compute::gemm::{Q4K_BLOCK_SIZE, Q6K_BLOCK_SIZE};
use crate::le::{read_u16, u16_le, u16_of_le};

verus! {

/// Values of a super-block.
pub const BLOCK_VALUES: usize = 256;

/// The whole numbers of one Q4_K value.
#[derive(Debug, Clone, Copy)]
pub struct Q4kTerm {
    pub scale: u8,
    pub min: u8,
    pub quant: u8,
}

/// The whole numbers of one Q6_K value.
#[derive(Debug, Clone, Copy)]
pub struct Q6kTerm {
    pub scale: i8,
    pub value: i8,
}

/// Scale of sub-block `j`, packed in the twelve bytes `packed`.
pub open spec fn q4k_scale(packed: Seq<u8>, j: int) -> u8 {
    if j < 4 {
        (packed[j] % 64) as u8
    } else {
        (packed[j + 4] % 16 + packed[j - 4] / 64 * 16) as u8
    }
}

/// Minimum of sub-block `j`, packed in the twelve bytes `packed`.
pub open spec fn q4k_min(packed: Seq<u8>, j: int) -> u8 {
    if j < 4 {
        (packed[j + 4] % 64) as u8
    } else {
        (packed[j + 4] / 16 + packed[j] / 64 * 16) as u8
    }
}

/// Four-bit value `i`: the sub-blocks of a pair share 32 bytes, the even one
/// in the low halves.
pub open spec fn q4k_quant(quants: Seq<u8>, i: int) -> u8 {
    let byte = quants[i / 64 * 32 + i % 32];
    if i / 32 % 2 == 0 {
        byte % 16
    } else {
        byte / 16
    }
}

/// The whole numbers of value `i` of a Q4_K block.
pub open spec fn q4k_term(block: Seq<u8>, i: int) -> Q4kTerm {
    let packed = block.subrange(4, 16);
    Q4kTerm {
        scale: q4k_scale(packed, i / 32),
        min: q4k_min(packed, i / 32),
        quant: q4k_quant(block.subrange(16, 144), i),
    }
}

/// The six-bit value `i` of a Q6_K block, less 32.
pub open spec fn q6k_value(block: Seq<u8>, i: int) -> int {
    let lo_byte = block[i / 2];
    let lo = if i % 2 == 0 {
        lo_byte % 16
    } else {
        lo_byte / 16
    };
    let hi_byte = block[128 + i / 4];
    let hi = if i % 4 == 0 {
        hi_byte % 4
    } else if i % 4 == 1 {
        hi_byte / 4 % 4
    } else if i % 4 == 2 {
        hi_byte / 16 % 4
    } else {
        hi_byte / 64
    };
    lo + 16 * hi - 32
}

/// The scale of sub-block `j` of a Q6_K block.
pub open spec fn q6k_scale(block: Seq<u8>, j: int) -> int {
    let b = block[192 + j];
    if b < 128 {
        b as int
    } else {
        b - 256
    }
}

/// The factors `d` and `dmin` of a Q4_K block, as binary16 patterns.
pub fn q4k_factors(block: &[u8]) -> (f: (u16, u16))
    requires
        block@.len() == Q4K_BLOCK_SIZE,
    ensures
        f.0 == u16_of_le(block@.subrange(0, 2)),
        f.1 == u16_of_le(block@.subrange(2, 4)),
        block@.take(4) == u16_le(f.0) + u16_le(f.1),
{
    assert(block@.take(4) =~= u16_le(u16_of_le(block@.subrange(0, 2))) + u16_le(
        u16_of_le(block@.subrange(2, 4)),
    ));
    (read_u16(block, 0), read_u16(block, 2))
}

/// The factor `d` of a Q6_K block, as a binary16 pattern.
pub fn q6k_factor(block: &[u8]) -> (d: u16)
    requires
        block@.len() == Q6K_BLOCK_SIZE,
    ensures
        d == u16_of_le(block@.subrange(208, 210)),
        block@.skip(208) == u16_le(d),
{
    assert(block@.skip(208) =~= u16_le(u16_of_le(block@.subrange(208, 210))));
    read_u16(block, 208)
}

/// Unpacks a Q4_K block.
pub fn q4k_terms(block: &[u8]) -> (terms: Vec<Q4kTerm>)
    requires
        block@.len() == Q4K_BLOCK_SIZE,
    ensures
        terms@ == Seq::new(256, |i: int| q4k_term(block@, i)),
        forall|i: int|
            0 <= i < 256 ==> (#[trigger] terms@[i]).scale < 64 && terms@[i].min < 64
                && terms@[i].quant < 16,
{
    let ghost want = Seq::new(256, |i: int| q4k_term(block@, i));
    let mut terms: Vec<Q4kTerm> = Vec::new();
    let mut i: usize = 0;
    while i < 256
        invariant
            i <= 256,
            block@.len() == Q4K_BLOCK_SIZE,
            want == Seq::new(256, |i: int| q4k_term(block@, i)),
            terms@ == want.take(i as int),
            forall|k: int|
                0 <= k < i ==> (#[trigger] terms@[k]).scale < 64 && terms@[k].min < 64
                    && terms@[k].quant < 16,
        decreases 256 - i,
    {
        let j: usize = i / 32;
        let scale: u8;
        let min: u8;
        if j < 4 {
            scale = block[4 + j] % 64;
            min = block[8 + j] % 64;
        } else {
            scale = block[8 + j] % 16 + block[j] / 64 * 16;
            min = block[8 + j] / 16 + block[4 + j] / 64 * 16;
        }
        let byte: u8 = block[16 + i / 64 * 32 + i % 32];
        let quant: u8 = if j % 2 == 0 {
            byte % 16
        } else {
            byte / 16
        };
        terms.push(Q4kTerm { scale, min, quant });
        assert(want[i as int] == terms@[i as int]);
        i = i + 1;
        assert(terms@ =~= want.take(i as int));
    }
    assert(want.take(i as int) =~= want);
    terms
}

/// Unpacks a Q6_K block.
pub fn q6k_terms(block: &[u8]) -> (terms: Vec<Q6kTerm>)
    requires
        block@.len() == Q6K_BLOCK_SIZE,
    ensures
        terms@.len() == 256,
        forall|i: int|
            0 <= i < 256 ==> (#[trigger] terms@[i]).value == q6k_value(block@, i)
                && terms@[i].scale == q6k_scale(block@, i / 16) && -32 <= terms@[i].value <= 31,
        forall|j: int, l: int|
            0 <= j < 16 && 0 <= l < 16 ==> (#[trigger] terms@[16 * j + l]).scale as int % 256
                == block@[192 + j],
{
    let mut terms: Vec<Q6kTerm> = Vec::new();
    let mut i: usize = 0;
    while i < 256
        invariant
            i <= 256,
            block@.len() == Q6K_BLOCK_SIZE,
            terms@.len() == i,
            forall|k: int|
                0 <= k < i ==> (#[trigger] terms@[k]).value == q6k_value(block@, k)
                    && terms@[k].scale == q6k_scale(block@, k / 16) && -32 <= terms@[k].value <= 31,
        decreases 256 - i,
    {
        let lo_byte: u8 = block[i / 2];
        let lo: u8 = if i % 2 == 0 {
            lo_byte % 16
        } else {
            lo_byte / 16
        };
        let hi_byte: u8 = block[128 + i / 4];
        let slot: usize = i % 4;
        let hi: u8 = if slot == 0 {
            hi_byte % 4
        } else if slot == 1 {
            hi_byte / 4 % 4
        } else if slot == 2 {
            hi_byte / 16 % 4
        } else {
            hi_byte / 64
        };
        let value: i8 = (lo + 16 * hi) as i8 - 32;
        let b: u8 = block[192 + i / 16];
        let scale: i8 = if b < 128 {
            b as i8
        } else {
            (b as i16 - 256) as i8
        };
        terms.push(Q6kTerm { scale, value });
        i = i + 1;
    }
    assert forall|j: int, l: int| 0 <= j < 16 && 0 <= l < 16 implies (
    #[trigger] terms@[16 * j + l]).scale as int % 256 == block@[192 + j] by {
        assert((16 * j + l) / 16 == j);
    }
    terms
}

/// The quants of a Q4_K block hold all that its last 128 bytes hold: the byte
/// `l` of group `g` is the quant `64 * g + l` in its low half and the quant
/// `64 * g + 32 + l` in its high half.
pub proof fn q4k_quants_repack(block: Seq<u8>, terms: Seq<Q4kTerm>, g: int, l: int)
    requires
        block.len() == 144,
        terms == Seq::new(256, |i: int| q4k_term(block, i)),
        0 <= g < 4,
        0 <= l < 32,
    ensures
        terms[64 * g + l].quant < 16,
        terms[64 * g + 32 + l].quant < 16,
        block[16 + 32 * g + l] == terms[64 * g + l].quant + 16 * terms[64 * g + 32 + l].quant,
{
    let a = 64 * g + l;
    let b = 64 * g + 32 + l;
    assert(a / 64 == g && a % 32 == l && a / 32 % 2 == 0);
    assert(b / 64 == g && b % 32 == l && b / 32 % 2 == 1);
    assert(block.subrange(16, 144)[32 * g + l] == block[16 + 32 * g + l]);
}

/// The scales and minima of a Q4_K block hold all that its twelve bytes of
/// them hold. Of the sub-blocks 0 to 3 the scale and the minimum fill the low
/// six bits of their own bytes; of the sub-blocks 4 to 7 the low four bits of
/// both share a byte, and the high two fill the bytes of the sub-blocks four
/// before.
pub proof fn q4k_scales_repack(block: Seq<u8>, terms: Seq<Q4kTerm>, j: int)
    requires
        block.len() == 144,
        terms == Seq::new(256, |i: int| q4k_term(block, i)),
        0 <= j < 4,
    ensures
        ({
            let low = terms[32 * j];
            let high = terms[32 * (j + 4)];
            &&& low.scale < 64 && low.min < 64 && high.scale < 64 && high.min < 64
            &&& block[4 + j] == low.scale + 64 * (high.scale / 16)
            &&& block[8 + j] == low.min + 64 * (high.min / 16)
            &&& block[12 + j] == high.scale % 16 + 16 * (high.min % 16)
        }),
{
    let packed = block.subrange(4, 16);
    assert(32 * j / 32 == j && 32 * (j + 4) / 32 == j + 4);
    assert(packed[j] == block[4 + j]);
    assert(packed[j + 4] == block[8 + j]);
    assert(packed[j + 8] == block[12 + j]);
}

/// The 32 values of a sub-block of a Q4_K block share their scale and their
/// minimum.
pub proof fn q4k_sub_blocks_share(block: Seq<u8>, terms: Seq<Q4kTerm>, j: int, l: int)
    requires
        block.len() == 144,
        terms == Seq::new(256, |i: int| q4k_term(block, i)),
        0 <= j < 8,
        0 <= l < 32,
    ensures
        terms[32 * j + l].scale == terms[32 * j].scale,
        terms[32 * j + l].min == terms[32 * j].min,
{
    assert((32 * j + l) / 32 == j && 32 * j / 32 == j);
}

/// A byte is made of its two halves and of its four pairs of bits.
proof fn byte_parts(b: u8)
    ensures
        b == b % 16 + 16 * (b / 16),
        b == b % 4 + 4 * (b / 4 % 4) + 16 * (b / 16 % 4) + 64 * (b / 64),
        b / 64 < 4,
{
    assert(b == b % 4 + 4 * (b / 4 % 4) + 16 * (b / 16 % 4) + 64 * (b / 64)) by (bit_vector);
    assert(b / 64 < 4) by (bit_vector);
}

/// A number of six bits is found again from its low four and its high two.
proof fn six_bits(lo: int, hi: int)
    requires
        0 <= lo < 16,
        0 <= hi < 4,
    ensures
        (lo + 16 * hi) % 16 == lo,
        (lo + 16 * hi) / 16 == hi,
{
}

/// The values of a Q6_K block hold all that its first 128 bytes hold: two
/// neighbours share a byte of low halves.
pub proof fn q6k_low_bits_repack(block: Seq<u8>, k: int)
    requires
        block.len() == 210,
        0 <= k < 128,
    ensures
        block[k] == (q6k_value(block, 2 * k) + 32) % 16 + 16 * ((q6k_value(block, 2 * k + 1) + 32)
            % 16),
{
    let b = block[k];
    byte_parts(b);
    q6k_value_parts(block, 2 * k);
    q6k_value_parts(block, 2 * k + 1);
    assert(2 * k / 2 == k && (2 * k + 1) / 2 == k);
    assert(2 * k % 2 == 0 && (2 * k + 1) % 2 == 1);
}

/// The values of a Q6_K block hold all that its bytes 128 to 191 hold: four
/// neighbours share a byte of high bits.
pub proof fn q6k_high_bits_repack(block: Seq<u8>, k: int)
    requires
        block.len() == 210,
        0 <= k < 64,
    ensures
        block[128 + k] == (q6k_value(block, 4 * k) + 32) / 16 + 4 * ((q6k_value(block, 4 * k + 1)
            + 32) / 16) + 16 * ((q6k_value(block, 4 * k + 2) + 32) / 16) + 64 * ((q6k_value(
            block,
            4 * k + 3,
        ) + 32) / 16),
{
    byte_parts(block[128 + k]);
    q6k_value_parts(block, 4 * k);
    q6k_value_parts(block, 4 * k + 1);
    q6k_value_parts(block, 4 * k + 2);
    q6k_value_parts(block, 4 * k + 3);
    assert(4 * k / 4 == k && (4 * k + 1) / 4 == k && (4 * k + 2) / 4 == k && (4 * k + 3) / 4 == k);
    assert(4 * k % 4 == 0 && (4 * k + 1) % 4 == 1 && (4 * k + 2) % 4 == 2 && (4 * k + 3) % 4 == 3);
}

/// The low four and the high two bits of a value.
proof fn q6k_value_parts(block: Seq<u8>, i: int)
    requires
        block.len() == 210,
        0 <= i < 256,
    ensures
        (q6k_value(block, i) + 32) % 16 == (if i % 2 == 0 {
            block[i / 2] % 16
        } else {
            block[i / 2] / 16
        }),
        (q6k_value(block, i) + 32) / 16 == (if i % 4 == 0 {
            block[128 + i / 4] % 4
        } else if i % 4 == 1 {
            block[128 + i / 4] / 4 % 4
        } else if i % 4 == 2 {
            block[128 + i / 4] / 16 % 4
        } else {
            block[128 + i / 4] / 64
        }),
{
    byte_parts(block[128 + i / 4]);
    let lo = if i % 2 == 0 {
        block[i / 2] % 16
    } else {
        block[i / 2] / 16
    };
    let hi = if i % 4 == 0 {
        block[128 + i / 4] % 4
    } else if i % 4 == 1 {
        block[128 + i / 4] / 4 % 4
    } else if i % 4 == 2 {
        block[128 + i / 4] / 16 % 4
    } else {
        block[128 + i / 4] / 64
    };
    six_bits(lo as int, hi as int);
}

/// The scales of a Q6_K block are its bytes 192 to 207, in two's complement.
pub proof fn q6k_scales_repack(block: Seq<u8>, j: int)
    requires
        block.len() == 210,
        0 <= j < 16,
    ensures
        -128 <= q6k_scale(block, j) <= 127,
        q6k_scale(block, j) % 256 == block[192 + j],
{
}

} // verus!
