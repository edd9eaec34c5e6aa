//! Storage precision of index files.

use vstd::prelude::*;

use crate::le::{append_u16, append_words, read_u16, read_words, u16_le, u16_le_round_trip, u16_of_le, words_le, words_of_le};
use crate::ternary::{decode_ternary, unpacked};

verus! {

/// Precision in which numbers are stored.
#[derive(Debug, Clone, Copy, PartialEq, Eq, Structural)]
pub enum StorageDtype {
    F32,
    F16,
    /// Two bits per weight, four weights per byte.
    Ternary,
}

impl Default for StorageDtype {
    fn default() -> (d: Self)
        ensures
            d == StorageDtype::F32,
    {
        StorageDtype::F32
    }
}

impl StorageDtype {
    /// The name of the precision.
    pub fn name(self) -> (s: &'static str)
        ensures
            s@ == (match self {
                StorageDtype::F32 => "f32"@,
                StorageDtype::F16 => "f16"@,
                StorageDtype::Ternary => "ternary"@,
            }),
    {
        match self {
            StorageDtype::F32 => "f32",
            StorageDtype::F16 => "f16",
            StorageDtype::Ternary => "ternary",
        }
    }
}

/// Bytes of one stored number. There is no whole number of bytes for a
/// ternary weight, so that it is 0 there.
pub fn bytes_per_float(dtype: StorageDtype) -> (n: usize)
    ensures
        n == (match dtype {
            StorageDtype::F32 => 4usize,
            StorageDtype::F16 => 2,
            StorageDtype::Ternary => 0,
        }),
{
    match dtype {
        StorageDtype::F32 => 4,
        StorageDtype::F16 => 2,
        StorageDtype::Ternary => 0,
    }
}

/// The binary32 pattern of a ternary weight.
pub open spec fn trit_bits(v: i8) -> u32 {
    if v == 1 {
        0x3F80_0000
    } else if v == -1 {
        0xBF80_0000
    } else {
        0
    }
}

/// The bytes of half-precision numbers, one after the other.
pub open spec fn halves_le(halves: Seq<u16>) -> Seq<u8>
    decreases halves.len(),
{
    if halves.len() == 0 {
        seq![]
    } else {
        halves_le(halves.drop_last()) + u16_le(halves.last())
    }
}

/// Stores binary32 patterns as binary32, or, through `to_half`, as binary16.
/// Ternary data has an encoder of its own.
pub fn encode_floats<H: Fn(u32) -> u16>(data: &Vec<u32>, dtype: StorageDtype, to_half: H) -> (out:
    Vec<u8>)
    requires
        dtype != StorageDtype::Ternary,
        dtype == StorageDtype::F16 ==> forall|x: u32| call_requires(to_half, (x,)),
    ensures
        dtype == StorageDtype::F32 ==> out@ == words_le(data@),
        dtype == StorageDtype::F16 ==> exists|halves: Seq<u16>|
            halves.len() == data@.len() && out@ == #[trigger] halves_le(halves) && forall|i: int|
                0 <= i < halves.len() ==> call_ensures(to_half, (data@[i],), #[trigger] halves[i]),
{
    let mut out: Vec<u8> = Vec::new();
    if dtype == StorageDtype::F32 {
        append_words(&mut out, data);
        assert(out@ =~= words_le(data@));
        return out;
    }
    let ghost mut halves: Seq<u16> = seq![];
    let mut i: usize = 0;
    while i < data.len()
        invariant
            i <= data@.len(),
            forall|x: u32| call_requires(to_half, (x,)),
            halves.len() == i,
            out@ == halves_le(halves),
            forall|k: int|
                0 <= k < halves.len() ==> call_ensures(
                    to_half,
                    (data@[k],),
                    #[trigger] halves[k],
                ),
        decreases data@.len() - i,
    {
        let h: u16 = to_half(data[i]);
        append_u16(&mut out, h);
        proof {
            let more = halves.push(h);
            assert(more.drop_last() =~= halves);
            halves = more;
        }
        i = i + 1;
    }
    out
}

/// The binary32 patterns of stored numbers. Half-precision numbers go through
/// `from_half`; each ternary byte gives four numbers.
pub fn decode_floats<H: Fn(u16) -> u32>(data: &Vec<u8>, dtype: StorageDtype, from_half: H) -> (out:
    Vec<u32>)
    requires
        dtype == StorageDtype::F16 ==> forall|x: u16| call_requires(from_half, (x,)),
        dtype == StorageDtype::Ternary ==> data@.len() * 4 <= usize::MAX,
    ensures
        match dtype {
            StorageDtype::F32 => out@ == words_of_le(data@),
            StorageDtype::F16 => out@.len() == data@.len() / 2 && forall|i: int|
                0 <= i < out@.len() ==> call_ensures(
                    from_half,
                    (u16_of_le(data@.subrange(2 * i, 2 * i + 2)),),
                    #[trigger] out@[i],
                ),
            StorageDtype::Ternary => out@ == unpacked(data@, data@.len() * 4).map_values(
                |v: i8| trit_bits(v),
            ),
        },
{
    match dtype {
        StorageDtype::F32 => {
            let out: Vec<u32> = read_words(data.as_slice(), 0, data.len());
            assert(data@.subrange(0, data@.len() as int) =~= data@);
            out
        },
        StorageDtype::F16 => {
            let n: usize = data.len() / 2;
            let mut out: Vec<u32> = Vec::new();
            let mut i: usize = 0;
            while i < n
                invariant
                    i <= n,
                    n == data.len() / 2,
                    forall|x: u16| call_requires(from_half, (x,)),
                    out@.len() == i,
                    forall|k: int|
                        0 <= k < i ==> call_ensures(
                            from_half,
                            (u16_of_le(data@.subrange(2 * k, 2 * k + 2)),),
                            #[trigger] out@[k],
                        ),
                decreases n - i,
            {
                let h: u16 = read_u16(data.as_slice(), 2 * i);
                out.push(from_half(h));
                i = i + 1;
            }
            out
        },
        StorageDtype::Ternary => {
            let trits: Vec<i8> = decode_ternary(data.as_slice(), data.len() * 4);
            let ghost want = trits@.map_values(|v: i8| trit_bits(v));
            let mut out: Vec<u32> = Vec::new();
            let mut i: usize = 0;
            while i < trits.len()
                invariant
                    i <= trits@.len(),
                    want == trits@.map_values(|v: i8| trit_bits(v)),
                    out@ == want.take(i as int),
                decreases trits@.len() - i,
            {
                let v: i8 = trits[i];
                let bits: u32 = if v == 1 {
                    0x3F80_0000
                } else if v == -1 {
                    0xBF80_0000
                } else {
                    0
                };
                out.push(bits);
                i = i + 1;
                assert(out@ =~= want.take(i as int));
            }
            assert(want.take(i as int) =~= want);
            out
        },
    }
}

/// Half-precision numbers stand one after the other, two bytes each.
pub proof fn halves_stand_in_order(halves: Seq<u16>, i: int)
    requires
        0 <= i < halves.len(),
    ensures
        halves_le(halves).len() == 2 * halves.len(),
        halves_le(halves).subrange(2 * i, 2 * i + 2) == u16_le(halves[i]),
        u16_of_le(halves_le(halves).subrange(2 * i, 2 * i + 2)) == halves[i],
    decreases halves.len(),
{
    u16_le_round_trip(halves[i]);
    let init = halves.drop_last();
    if init.len() == 0 {
        assert(halves_le(init) =~= Seq::<u8>::empty());
    } else {
        halves_stand_in_order(init, 0);
    }
    if i < init.len() {
        halves_stand_in_order(init, i);
        assert(halves_le(halves).subrange(2 * i, 2 * i + 2) =~= halves_le(init).subrange(
            2 * i,
            2 * i + 2,
        ));
    } else {
        assert(halves_le(halves).subrange(2 * i, 2 * i + 2) =~= u16_le(halves[i]));
    }
}

/// A ternary weight is read as zero, as one (no mantissa, the middle exponent)
/// or as one with the sign bit set.
pub proof fn trits_are_read_as_numbers(v: i8)
    requires
        -1 <= v <= 1,
    ensures
        v == 0 ==> trit_bits(v) == 0,
        v != 0 ==> trit_bits(v) % 0x8000_0000 == 127 * 0x80_0000,
        v < 0 <==> trit_bits(v) >= 0x8000_0000,
{
}

} // verus!
