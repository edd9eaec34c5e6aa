//! Ternary storage: weights in {-1, 0, +1}, two bits each, four per byte.
//!
//! A weight is coded `0` for 0, `1` for +1 and `2` for -1; code `3` is
//! reserved and reads as 0. The first weight of a byte stands in its two
//! least significant bits.

use vstd::prelude::*;

verus! {

/// The two-bit code of a weight; positive values count as +1, negative ones
/// as -1.
pub open spec fn trit_code(v: i8) -> nat {
    if v == 0 {
        0
    } else if v > 0 {
        1
    } else {
        2
    }
}

/// The weight that a two-bit code stands for.
pub open spec fn trit_value(code: nat) -> i8 {
    if code == 1 {
        1
    } else if code == 2 {
        -1i8
    } else {
        0
    }
}

/// The two-bit code in slot `slot` of `byte`.
pub open spec fn slot_code(byte: u8, slot: int) -> nat {
    if slot == 0 {
        (byte % 4) as nat
    } else if slot == 1 {
        (byte / 4 % 4) as nat
    } else if slot == 2 {
        (byte / 16 % 4) as nat
    } else {
        (byte / 64) as nat
    }
}

/// The byte with the four codes in slots 0 to 3.
pub open spec fn packed_byte(c0: nat, c1: nat, c2: nat, c3: nat) -> u8 {
    (c0 + 4 * c1 + 16 * c2 + 64 * c3) as u8
}

/// The packed bytes of `data`, four weights per byte.
pub open spec fn packed(data: Seq<i8>) -> Seq<u8> {
    Seq::new(
        data.len() / 4,
        |i: int|
            packed_byte(
                trit_code(data[4 * i]),
                trit_code(data[4 * i + 1]),
                trit_code(data[4 * i + 2]),
                trit_code(data[4 * i + 3]),
            ),
    )
}

/// The first `count` weights of packed bytes.
pub open spec fn unpacked(bytes: Seq<u8>, count: nat) -> Seq<i8> {
    Seq::new(count, |i: int| trit_value(slot_code(bytes[i / 4], i % 4)))
}

/// The weight nearest to `v`.
pub open spec fn clamped(v: i8) -> i8 {
    trit_value(trit_code(v))
}

/// The two-bit code of a weight.
pub fn ternary_to_bits(v: i8) -> (code: u8)
    ensures
        code == trit_code(v),
        code < 3,
{
    if v == 0 {
        0
    } else if v > 0 {
        1
    } else {
        2
    }
}

/// The weight of the two low bits of `bits`.
pub fn bits_to_ternary(bits: u8) -> (v: i8)
    ensures
        v == trit_value((bits % 4) as nat),
        -1 <= v <= 1,
{
    let code: u8 = bits % 4;
    if code == 1 {
        1
    } else if code == 2 {
        -1
    } else {
        0
    }
}

/// The weight in slot `slot` of `byte`.
pub fn slot_ternary(byte: u8, slot: usize) -> (v: i8)
    requires
        slot < 4,
    ensures
        v == trit_value(slot_code(byte, slot as int)),
        -1 <= v <= 1,
{
    if slot == 0 {
        bits_to_ternary(byte)
    } else if slot == 1 {
        bits_to_ternary(byte / 4)
    } else if slot == 2 {
        bits_to_ternary(byte / 16)
    } else {
        bits_to_ternary(byte / 64)
    }
}

/// Packs weights, four per byte. Values outside {-1, 0, +1} are clamped.
pub fn encode_ternary(data: &[i8]) -> (bytes: Vec<u8>)
    requires
        data@.len() % 4 == 0,
    ensures
        bytes@ == packed(data@),
{
    let n: usize = data.len() / 4;
    let mut bytes: Vec<u8> = Vec::new();
    let mut i: usize = 0;
    while i < n
        invariant
            i <= n,
            n == data.len() / 4,
            bytes@ == packed(data@).take(i as int),
        decreases n - i,
    {
        let c0: u8 = ternary_to_bits(data[4 * i]);
        let c1: u8 = ternary_to_bits(data[4 * i + 1]);
        let c2: u8 = ternary_to_bits(data[4 * i + 2]);
        let c3: u8 = ternary_to_bits(data[4 * i + 3]);
        bytes.push(c0 + 4 * c1 + 16 * c2 + 64 * c3);
        i = i + 1;
        assert(bytes@ =~= packed(data@).take(i as int));
    }
    assert(bytes@ =~= packed(data@));
    bytes
}

/// Unpacks the first `count` weights.
pub fn decode_ternary(data: &[u8], count: usize) -> (out: Vec<i8>)
    requires
        count <= data@.len() * 4,
    ensures
        out@ == unpacked(data@, count as nat),
{
    let mut out: Vec<i8> = Vec::new();
    let mut i: usize = 0;
    while i < count
        invariant
            i <= count,
            count <= data@.len() * 4,
            out@ == unpacked(data@, count as nat).take(i as int),
        decreases count - i,
    {
        out.push(slot_ternary(data[i / 4], i % 4));
        i = i + 1;
        assert(out@ =~= unpacked(data@, count as nat).take(i as int));
    }
    assert(out@ =~= unpacked(data@, count as nat));
    out
}

/// Packed bytes of one row of `hidden_size` weights.
pub fn ternary_bytes_per_row(hidden_size: usize) -> (n: usize)
    requires
        hidden_size % 4 == 0,
    ensures
        n == hidden_size / 4,
        4 * n == hidden_size,
{
    hidden_size / 4
}

/// Four codes come out of a byte as they went in.
proof fn packed_byte_slots(c0: nat, c1: nat, c2: nat, c3: nat)
    requires
        c0 < 4,
        c1 < 4,
        c2 < 4,
        c3 < 4,
    ensures
        slot_code(packed_byte(c0, c1, c2, c3), 0) == c0,
        slot_code(packed_byte(c0, c1, c2, c3), 1) == c1,
        slot_code(packed_byte(c0, c1, c2, c3), 2) == c2,
        slot_code(packed_byte(c0, c1, c2, c3), 3) == c3,
{
}

/// Unpacking packed weights gives back each weight, clamped to {-1, 0, +1}.
pub proof fn unpack_of_pack(data: Seq<i8>)
    requires
        data.len() % 4 == 0,
    ensures
        packed(data).len() * 4 == data.len(),
        unpacked(packed(data), data.len()) == data.map_values(|v: i8| clamped(v)),
{
    let out = unpacked(packed(data), data.len());
    let want = data.map_values(|v: i8| clamped(v));
    assert forall|i: int| 0 <= i < data.len() implies out[i] == want[i] by {
        let q = i / 4;
        packed_byte_slots(
            trit_code(data[4 * q]),
            trit_code(data[4 * q + 1]),
            trit_code(data[4 * q + 2]),
            trit_code(data[4 * q + 3]),
        );
        assert(0 <= q < packed(data).len());
        assert(i == 4 * q + i % 4);
    }
    assert(out =~= want);
}

/// Weights that are already ternary come back unchanged.
pub proof fn ternary_round_trip(data: Seq<i8>)
    requires
        data.len() % 4 == 0,
        forall|i: int| 0 <= i < data.len() ==> -1 <= #[trigger] data[i] <= 1,
    ensures
        unpacked(packed(data), data.len()) == data,
{
    unpack_of_pack(data);
    assert(data.map_values(|v: i8| clamped(v)) =~= data);
}

/// Packing unpacked bytes gives the bytes back where no slot holds the
/// reserved code.
pub proof fn pack_of_unpack(bytes: Seq<u8>)
    requires
        forall|i: int, s: int|
            0 <= i < bytes.len() && 0 <= s < 4 ==> #[trigger] slot_code(bytes[i], s) < 3,
    ensures
        packed(unpacked(bytes, bytes.len() * 4)) == bytes,
{
    let data = unpacked(bytes, bytes.len() * 4);
    assert forall|i: int| 0 <= i < bytes.len() implies packed(data)[i] == bytes[i] by {
        let b = bytes[i];
        assert(slot_code(b, 0) < 3 && slot_code(b, 1) < 3 && slot_code(b, 2) < 3 && slot_code(b, 3)
            < 3);
        assert((4 * i) / 4 == i && (4 * i + 1) / 4 == i && (4 * i + 2) / 4 == i && (4 * i + 3) / 4
            == i);
        assert((4 * i) % 4 == 0 && (4 * i + 1) % 4 == 1 && (4 * i + 2) % 4 == 2 && (4 * i + 3) % 4
            == 3);
        assert(data[4 * i] == trit_value(slot_code(b, 0)));
        assert(data[4 * i + 1] == trit_value(slot_code(b, 1)));
        assert(data[4 * i + 2] == trit_value(slot_code(b, 2)));
        assert(data[4 * i + 3] == trit_value(slot_code(b, 3)));
    }
    assert(packed(data) =~= bytes);
}

/// A weight keeps its sign and nothing else.
pub proof fn clamped_is_the_sign(v: i8)
    ensures
        v > 0 ==> clamped(v) == 1,
        v == 0 ==> clamped(v) == 0,
        v < 0 ==> clamped(v) == -1,
{
}

/// A byte is made of its four codes, the first in the two lowest bits and each
/// further one two bits higher.
pub proof fn first_code_is_lowest(byte: u8)
    ensures
        byte == slot_code(byte, 0) + 4 * slot_code(byte, 1) + 16 * slot_code(byte, 2) + 64
            * slot_code(byte, 3),
        forall|s: int| 0 <= s < 4 ==> #[trigger] slot_code(byte, s) < 4,
{
    let q = byte / 4;
    assert(byte == byte % 4 + 4 * q);
    assert(q == q % 4 + 4 * (byte / 16));
    assert(byte / 16 == byte / 16 % 4 + 4 * (byte / 64));
}

/// The codes on file: no bit for zero, the lower one for one, the higher one
/// for minus one; both stand for zero too. A weight that is on file is read
/// back from its code.
pub proof fn codes_on_file(v: i8, code: nat)
    requires
        -1 <= v <= 1,
    ensures
        trit_code(v) == (v + 3) % 3,
        trit_value(trit_code(v)) == v,
        code < 3 ==> trit_code(trit_value(code)) == code,
        trit_value(3) == 0,
{
}

/// Packed weights of two parts are the packed weights of both together, where
/// the first part fills its bytes.
pub proof fn packed_of_both(a: Seq<i8>, b: Seq<i8>)
    requires
        a.len() % 4 == 0,
    ensures
        packed(a + b) == packed(a) + packed(b),
{
    let s = a + b;
    let n = a.len() / 4;
    assert(packed(s).len() == packed(a).len() + packed(b).len());
    assert forall|i: int| 0 <= i < packed(s).len() implies packed(s)[i] == (packed(a) + packed(
        b,
    ))[i] by {
        if i >= n {
            let j = i - n;
            assert(s[4 * i] == b[4 * j] && s[4 * i + 1] == b[4 * j + 1] && s[4 * i + 2] == b[4 * j
                + 2] && s[4 * i + 3] == b[4 * j + 3]);
        }
    }
    assert(packed(s) =~= packed(a) + packed(b));
}

} // verus!
