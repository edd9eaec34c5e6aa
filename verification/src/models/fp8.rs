//! FP8 E4M3 and binary32.
//!
//! An E4M3 byte has a sign bit, four exponent bits with bias 7 and three
//! mantissa bits. The magnitude codes 0 to 126 stand for increasing numbers
//! from 0 to 448; code 127 is NaN, and there is no infinity. Binary32 numbers
//! are held as their bit patterns.
//!
//! Values are compared exactly, as whole multiples of a small unit: a binary32
//! magnitude is a multiple of 2^-149, an E4M3 magnitude one of 2^-9, which is
//! 2^140 of the former.

use vstd::arithmetic::power2::{lemma2_to64, lemma_pow2_adds, lemma_pow2_pos, pow2};
use vstd::prelude::*;

use crate::float_bits::{nan32, INFINITY32, SIGN32};

verus! {

/// Magnitude code of the largest number, 448.
pub const MAX_CODE: u8 = 126;

/// The binary32 pattern that NaN bytes decode to.
pub const NAN_BITS: u32 = 0x7FC0_0000;

/// The finite binary32 magnitude `mag` as a multiple of 2^-149.
pub open spec fn units32(mag: u32) -> nat {
    let e = mag / 0x80_0000;
    let m = mag % 0x80_0000;
    if e == 0 {
        m as nat
    } else {
        (0x80_0000 + m) as nat * pow2((e - 1) as nat)
    }
}

/// The magnitude code `c` as a multiple of 2^-9.
pub open spec fn code_value(c: nat) -> nat {
    if c / 8 == 0 {
        c
    } else {
        (8 + c % 8) * pow2((c / 8 - 1) as nat)
    }
}

/// 2^-9 as a multiple of 2^-149.
pub open spec fn code_unit() -> nat {
    pow2(140)
}

/// Whether `c` is the code nearest to the magnitude `v`, the even one of two
/// that are equally near: `v` lies between the midpoints to the codes next to
/// `c`.
pub open spec fn rounds_to(v: nat, c: nat) -> bool {
    &&& c <= MAX_CODE
    &&& c > 0 ==> {
        let low = (code_value((c - 1) as nat) + code_value(c)) * code_unit();
        2 * v > low || (2 * v == low && c % 2 == 0)
    }
    &&& c < MAX_CODE ==> {
        let high = (code_value(c) + code_value(c + 1)) * code_unit();
        2 * v < high || (2 * v == high && c % 2 == 0)
    }
}

/// Neighbouring codes are `2^(e - 1)` units apart, `e` the exponent field of
/// the lower one, and one unit where that is 0.
proof fn code_step(c: nat)
    ensures
        code_value(c + 1) == code_value(c) + (if c / 8 == 0 {
            1
        } else {
            pow2((c / 8 - 1) as nat)
        }),
        code_value(c + 1) > code_value(c),
{
    lemma2_to64();
    if c / 8 == 0 {
        if c == 7 {
            assert(code_value(8) == 8 * pow2(0));
        }
    } else {
        let e = (c / 8 - 1) as nat;
        lemma_pow2_pos(e);
        if c % 8 == 7 {
            assert((c + 1) / 8 == c / 8 + 1 && (c + 1) % 8 == 0);
            lemma_pow2_adds(1, e);
            assert(8 * (2 * pow2(e)) == 15 * pow2(e) + pow2(e));
        } else {
            assert((c + 1) / 8 == c / 8 && (c + 1) % 8 == c % 8 + 1);
            assert((8 + c % 8 + 1) * pow2(e) == (8 + c % 8) * pow2(e) + pow2(e))
                by (nonlinear_arith);
        }
    }
}

/// Greater codes stand for greater numbers.
pub proof fn codes_increase(c: nat, d: nat)
    requires
        c < d,
    ensures
        code_value(c) < code_value(d),
    decreases d,
{
    code_step((d - 1) as nat);
    if c < d - 1 {
        codes_increase(c, (d - 1) as nat);
    }
}

/// A magnitude of exactly a code's value rounds to that code and no other.
proof fn rounds_exactly(c: nat, d: nat)
    requires
        c <= MAX_CODE,
        rounds_to(code_value(c) * code_unit(), d),
    ensures
        c == d,
{
    let u = code_unit();
    let v = code_value(c) * u;
    lemma_pow2_pos(140);
    if d > c {
        codes_increase(c, d);
        if d - 1 > c {
            codes_increase(c, (d - 1) as nat);
        }
        let low = code_value((d - 1) as nat) + code_value(d);
        assert(2 * (code_value(c) * u) < low * u) by (nonlinear_arith)
            requires
                2 * code_value(c) < low,
                u > 0,
        ;
    } else if d < c {
        codes_increase(d, c);
        if d + 1 < c {
            codes_increase((d + 1) as nat, c);
        }
        let high = code_value(d) + code_value(d + 1);
        assert(2 * (code_value(c) * u) > high * u) by (nonlinear_arith)
            requires
                2 * code_value(c) > high,
                u > 0,
        ;
    }
}

/// How far `v` is from code `c`.
pub open spec fn distance(v: nat, c: nat) -> int {
    let d = v - code_value(c) * code_unit();
    if d < 0 {
        -d
    } else {
        d
    }
}

/// The code that a magnitude rounds to is as near to it as any other.
pub proof fn rounded_is_nearest(v: nat, c: nat, d: nat)
    requires
        rounds_to(v, c),
        d <= MAX_CODE,
    ensures
        distance(v, c) <= distance(v, d),
{
    let u = code_unit();
    lemma_pow2_pos(140);
    let vc = code_value(c);
    let vd = code_value(d);
    if d < c {
        let below = code_value((c - 1) as nat);
        codes_increase(d, c);
        if d < c - 1 {
            codes_increase(d, (c - 1) as nat);
        }
        assert((below + vc) * u == below * u + vc * u) by (nonlinear_arith);
        assert(vd * u <= below * u && vd * u < vc * u) by (nonlinear_arith)
            requires
                vd <= below,
                vd < vc,
                u > 0,
        ;
    } else if d > c {
        let above = code_value(c + 1);
        codes_increase(c, d);
        if d > c + 1 {
            codes_increase((c + 1) as nat, d);
        }
        assert((vc + above) * u == vc * u + above * u) by (nonlinear_arith);
        assert(vd * u >= above * u && vd * u > vc * u) by (nonlinear_arith)
            requires
                vd >= above,
                vd > vc,
                u > 0,
        ;
    }
}

/// The binary32 pattern of a byte's number.
pub fn e4m3_to_f32(byte: u8) -> (bits: u32)
    ensures
        byte % 128 == 127 ==> bits == NAN_BITS,
        byte % 128 != 127 ==> {
            &&& (bits >= SIGN32) == (byte >= 128)
            &&& bits % SIGN32 < INFINITY32
            &&& units32(bits % SIGN32) == code_value((byte % 128) as nat) * code_unit()
        },
{
    let code: u32 = (byte % 128) as u32;
    if code == 127 {
        return NAN_BITS;
    }
    let e: u32 = code / 8;
    let m: u32 = code % 8;
    let mag: u32 = if e != 0 {
        (e + 120) * 0x80_0000 + m * 0x10_0000
    } else if m == 0 {
        0
    } else if m == 1 {
        118 * 0x80_0000
    } else if m < 4 {
        119 * 0x80_0000 + (m - 2) * 0x40_0000
    } else {
        120 * 0x80_0000 + (m - 4) * 0x20_0000
    };
    proof {
        lemma2_to64();
        if e != 0 {
            assert(mag / 0x80_0000 == e + 120);
            assert(mag % 0x80_0000 == m * 0x10_0000);
            let p = pow2((e + 119) as nat);
            let q = pow2((e - 1) as nat);
            lemma_pow2_adds(20, (e + 119) as nat);
            lemma_pow2_adds((e - 1) as nat, 140);
            assert(0x10_0000 * p == q * pow2(140));
            assert((0x80_0000 + m * 0x10_0000) * p == ((8 + m) * q) * pow2(140))
                by (nonlinear_arith)
                requires
                    0x10_0000 * p == q * pow2(140),
            ;
            assert(code_value(code as nat) == (8 + m) * q);
        } else if m == 0 {
            assert(code_value(0) * code_unit() == 0) by (nonlinear_arith)
                requires
                    code_value(0) == 0,
            ;
        } else if m == 1 {
            assert(mag / 0x80_0000 == 118);
            lemma_pow2_adds(23, 117);
            assert(code_value(1) * code_unit() == code_unit()) by (nonlinear_arith)
                requires
                    code_value(1) == 1,
            ;
        } else if m == 2 || m == 3 {
            assert(mag / 0x80_0000 == 119);
            assert(mag % 0x80_0000 == (m - 2) * 0x40_0000);
            lemma_pow2_adds(22, 118);
            assert((0x80_0000 + (m - 2) * 0x40_0000) * pow2(118) == m * pow2(140))
                by (nonlinear_arith)
                requires
                    0x40_0000 * pow2(118) == pow2(140),
            ;
        } else if m >= 4 {
            assert(mag / 0x80_0000 == 120);
            assert(mag % 0x80_0000 == (m - 4) * 0x20_0000);
            lemma_pow2_adds(21, 119);
            assert((0x80_0000 + (m - 4) * 0x20_0000) * pow2(119) == m * pow2(140))
                by (nonlinear_arith)
                requires
                    0x20_0000 * pow2(119) == pow2(140),
            ;
        }
        assert(units32(mag) == code_value(code as nat) * code_unit());
    }
    if byte >= 128 {
        mag + SIGN32
    } else {
        mag
    }
}

/// Rounding a quotient: `v` is `q` steps and `r` parts of one out of `2 * h`,
/// the step from code `q` to the next.
proof fn rounding_step(v: nat, q: nat, r: nat, h: nat, part: nat)
    requires
        q <= MAX_CODE,
        r < 2 * h,
        part > 0,
        v == code_value(q) * code_unit() + r * part,
        code_value(q + 1) * code_unit() == code_value(q) * code_unit() + 2 * h * part,
        q == 0 ==> code_value(1) == 1,
    ensures
        (r < h || (r == h && q % 2 == 0)) ==> rounds_to(v, q),
        (r > h || (r == h && q % 2 == 1)) && q < MAX_CODE ==> rounds_to(v, q + 1),
        q == MAX_CODE ==> rounds_to(v, MAX_CODE as nat),
{
    let u = code_unit();
    lemma_pow2_pos(140);
    let a = code_value(q);
    let b = code_value(q + 1);
    assert((a + b) * u == a * u + b * u) by (nonlinear_arith);
    assert(r * part <= 2 * h * part) by (nonlinear_arith)
        requires
            r < 2 * h,
            part > 0,
    ;
    if r < h {
        assert(2 * (r * part) < 2 * h * part) by (nonlinear_arith)
            requires
                r < h,
                part > 0,
        ;
    } else if r > h {
        assert(2 * (r * part) > 2 * h * part) by (nonlinear_arith)
            requires
                r > h,
                part > 0,
        ;
    } else {
        assert(2 * (r * part) == 2 * h * part) by (nonlinear_arith)
            requires
                r == h,
        ;
    }
    if q > 0 {
        let below = code_value((q - 1) as nat);
        code_step((q - 1) as nat);
        assert((below + a) * u < 2 * (a * u)) by (nonlinear_arith)
            requires
                below < a,
                u > 0,
        ;
        assert(0 <= r * part) by (nonlinear_arith)
            requires
                r >= 0,
                part > 0,
        ;
    }
    if q + 1 < MAX_CODE {
        let above = code_value(q + 2);
        code_step(q + 1);
        assert((b + above) * u > 2 * (b * u)) by (nonlinear_arith)
            requires
                above > b,
                u > 0,
        ;
    }
}

/// Anything from the largest number on rounds to it.
proof fn large_rounds_down(v: nat)
    requires
        v >= code_value(MAX_CODE as nat) * code_unit(),
    ensures
        rounds_to(v, MAX_CODE as nat),
{
    let u = code_unit();
    lemma_pow2_pos(140);
    code_step(125);
    let a = code_value(125);
    let b = code_value(126);
    assert((a + b) * u < 2 * (b * u)) by (nonlinear_arith)
        requires
            a < b,
            u > 0,
    ;
}

/// The magnitude code of a binary32 magnitude that is not NaN.
fn nearest_code(mag: u32) -> (c: u8)
    requires
        mag <= INFINITY32,
    ensures
        c <= MAX_CODE,
        mag < INFINITY32 ==> rounds_to(units32(mag), c as nat),
        mag == INFINITY32 ==> c == MAX_CODE,
{
    let e: u32 = mag / 0x80_0000;
    let m: u32 = mag % 0x80_0000;
    proof {
        lemma2_to64();
        lemma_pow2_pos(140);
    }
    if e < 117 {
        proof {
            small_rounds_to_zero(mag);
        }
        return 0;
    }
    if e >= 136 {
        proof {
            if mag < INFINITY32 {
                let p = pow2((e - 1) as nat);
                lemma_pow2_adds(135, (e - 136) as nat);
                lemma_pow2_pos((e - 136) as nat);
                let t = pow2((e - 136) as nat);
                lemma_pow2_adds(20, 135);
                lemma_pow2_adds(14, 141);
                assert(code_value(126) == 14 * pow2(14));
                lemma_pow2_adds(14, 140);
                lemma_pow2_adds(19, 135);
                assert(14 * pow2(14) * pow2(140) == 14 * pow2(154)) by (nonlinear_arith)
                    requires
                        pow2(14) * pow2(140) == pow2(154),
                ;
                assert(pow2(154) == 0x8_0000 * pow2(135));
                assert((0x80_0000 + m) * p >= 14 * (0x8_0000 * pow2(135))) by (nonlinear_arith)
                    requires
                        p == pow2(135) * t,
                        t >= 1,
                        m >= 0,
                        pow2(135) >= 0,
                ;
                large_rounds_down(units32(mag));
            }
        }
        return MAX_CODE;
    }
    let s: u32 = 0x80_0000 + m;
    let step: u32;
    let q: u32;
    let r: u32;
    if e < 121 {
        step = if e == 117 {
            0x100_0000
        } else if e == 118 {
            0x80_0000
        } else if e == 119 {
            0x40_0000
        } else {
            0x20_0000
        };
        q = s / step;
        r = s % step;
        proof {
            let d = (141 - e) as nat;
            assert(step == pow2(d));
            let p = pow2((e - 1) as nat);
            lemma_pow2_pos((e - 1) as nat);
            lemma_pow2_adds(d, (e - 1) as nat);
            assert(q <= 7);
            assert(code_value(q as nat) == q);
            code_step(q as nat);
            assert(code_value((q + 1) as nat) == q + 1);
            assert(s == q * step + r) by (nonlinear_arith)
                requires
                    step > 0,
                    q == s / step,
                    r == s % step,
            ;
            assert(s * p == q * (step * p) + r * p) by (nonlinear_arith)
                requires
                    s == q * step + r,
            ;
            assert((q + 1) * (step * p) == q * (step * p) + step * p) by (nonlinear_arith);
            assert(2 * (step / 2) == step);
            assert(2 * (step as nat / 2) * p == step * p);
            rounding_step(units32(mag), q as nat, r as nat, step as nat / 2, p);
        }
    } else {
        step = 0x10_0000;
        q = (e - 120) * 8 + m / step;
        r = m % step;
        proof {
            let p = pow2((e - 1) as nat);
            let k = (e - 121) as nat;
            let a = 8 + m / step;
            lemma_pow2_pos((e - 1) as nat);
            lemma_pow2_adds(20, (e - 1) as nat);
            lemma_pow2_adds(k, 140);
            assert(q / 8 == e - 120 && q % 8 == m / step);
            assert(code_value(q as nat) == a * pow2(k));
            code_step(q as nat);
            assert(s == a * step + r);
            assert(s * p == (a * pow2(k)) * pow2(140) + r * p) by (nonlinear_arith)
                requires
                    s == a * step + r,
                    step * p == pow2(k) * pow2(140),
            ;
            assert((a * pow2(k) + pow2(k)) * pow2(140) == (a * pow2(k)) * pow2(140) + step * p)
                by (nonlinear_arith)
                requires
                    step * p == pow2(k) * pow2(140),
            ;
            assert(2 * (step as nat / 2) * p == step * p);
            if q <= 126 {
                rounding_step(units32(mag), q as nat, r as nat, step as nat / 2, p);
            } else {
                assert(q == 127);
                codes_increase(126, 127);
                assert(code_value(127) * pow2(140) >= code_value(126) * pow2(140))
                    by (nonlinear_arith)
                    requires
                        code_value(127) >= code_value(126),
                ;
                assert(0 <= r * p) by (nonlinear_arith)
                    requires
                        r >= 0,
                        p > 0,
                ;
                large_rounds_down(units32(mag));
            }
        }
    }
    let half: u32 = step / 2;
    let up: bool = r > half || (r == half && q % 2 == 1);
    let c: u32 = if up {
        q + 1
    } else {
        q
    };
    if c > 126 {
        126
    } else {
        c as u8
    }
}

/// Less than half the smallest number rounds to zero.
proof fn small_rounds_to_zero(mag: u32)
    requires
        mag / 0x80_0000 < 117,
    ensures
        rounds_to(units32(mag), 0),
{
    let e = mag / 0x80_0000;
    let m = mag % 0x80_0000;
    lemma2_to64();
    lemma_pow2_adds(24, 116);
    lemma_pow2_pos(116);
    if e > 0 {
        let p = pow2((e - 1) as nat);
        let t = pow2((116 - e) as nat);
        lemma_pow2_adds((e - 1) as nat, (116 - e) as nat);
        lemma_pow2_adds(115, 1);
        lemma_pow2_pos((116 - e) as nat);
        lemma_pow2_pos((e - 1) as nat);
        assert(2 * ((0x80_0000 + m) * p) < 0x100_0000 * (2 * pow2(115))) by (nonlinear_arith)
            requires
                p * t == pow2(115),
                t >= 1,
                p >= 1,
                0 <= m < 0x80_0000,
        ;
    } else {
        assert(2 * m < 0x100_0000 * pow2(116)) by (nonlinear_arith)
            requires
                0 <= m < 0x80_0000,
                pow2(116) >= 1,
        ;
    }
    assert((code_value(0) + code_value(1)) * code_unit() == code_unit()) by (nonlinear_arith)
        requires
            code_value(0) == 0,
            code_value(1) == 1,
    ;
}

/// The E4M3 byte of a binary32 number: the nearest one, the even one of two
/// that are equally near, and 448 with the number's sign for anything beyond.
/// NaN gives NaN of the same sign.
#[verifier::spinoff_prover]
#[verifier::rlimit(60)]
pub fn f32_to_e4m3(bits: u32) -> (byte: u8)
    ensures
        (byte >= 128) == (bits >= SIGN32),
        nan32(bits) ==> byte % 128 == 127,
        bits % SIGN32 < INFINITY32 ==> rounds_to(units32(bits % SIGN32), (byte % 128) as nat),
        bits % SIGN32 == INFINITY32 ==> byte % 128 == MAX_CODE,
{
    let mag: u32 = bits % SIGN32;
    let code: u8 = if mag > INFINITY32 {
        127
    } else {
        nearest_code(mag)
    };
    if bits >= SIGN32 {
        code + 128
    } else {
        code
    }
}

/// Whether `byte` is what `bits` is encoded as.
pub open spec fn encodes(bits: u32, byte: u8) -> bool {
    &&& (byte >= 128) == (bits >= SIGN32)
    &&& nan32(bits) ==> byte % 128 == 127
    &&& bits % SIGN32 < INFINITY32 ==> rounds_to(units32(bits % SIGN32), (byte % 128) as nat)
    &&& bits % SIGN32 == INFINITY32 ==> byte % 128 == MAX_CODE
}

/// Whether `bits` is what `byte` is decoded to.
pub open spec fn decodes(byte: u8, bits: u32) -> bool {
    if byte % 128 == 127 {
        bits == NAN_BITS
    } else {
        &&& (bits >= SIGN32) == (byte >= 128)
        &&& bits % SIGN32 < INFINITY32
        &&& units32(bits % SIGN32) == code_value((byte % 128) as nat) * code_unit()
    }
}

/// Every byte that is a number comes back from its number.
pub proof fn e4m3_round_trip(byte: u8, bits: u32, back: u8)
    requires
        byte % 128 != 127,
        decodes(byte, bits),
        encodes(bits, back),
    ensures
        back == byte,
{
    rounds_exactly((byte % 128) as nat, (back % 128) as nat);
}

/// Encodes numbers.
pub fn encode_e4m3(data: &[u32]) -> (bytes: Vec<u8>)
    ensures
        bytes@.len() == data@.len(),
        forall|i: int| 0 <= i < data@.len() ==> encodes(data@[i], #[trigger] bytes@[i]),
{
    let mut bytes: Vec<u8> = Vec::new();
    let mut i: usize = 0;
    while i < data.len()
        invariant
            i <= data@.len(),
            bytes@.len() == i,
            forall|k: int| 0 <= k < i ==> encodes(data@[k], #[trigger] bytes@[k]),
        decreases data@.len() - i,
    {
        bytes.push(f32_to_e4m3(data[i]));
        i = i + 1;
    }
    bytes
}

/// Decodes bytes.
pub fn decode_e4m3(bytes: &[u8]) -> (data: Vec<u32>)
    ensures
        data@.len() == bytes@.len(),
        forall|i: int| 0 <= i < bytes@.len() ==> decodes(bytes@[i], #[trigger] data@[i]),
{
    let mut data: Vec<u32> = Vec::new();
    let mut i: usize = 0;
    while i < bytes.len()
        invariant
            i <= bytes@.len(),
            data@.len() == i,
            forall|k: int| 0 <= k < i ==> decodes(bytes@[k], #[trigger] data@[k]),
        decreases bytes@.len() - i,
    {
        data.push(e4m3_to_f32(bytes[i]));
        i = i + 1;
    }
    data
}

/// Decodes the bytes of an FP8 tensor.
pub fn decode_f8_e4m3(bytes: &[u8]) -> (data: Vec<u32>)
    ensures
        data@.len() == bytes@.len(),
        forall|i: int| 0 <= i < bytes@.len() ==> decodes(bytes@[i], #[trigger] data@[i]),
{
    decode_e4m3(bytes)
}

/// The number of a byte read as a signed one.
pub open spec fn signed_value(byte: u8) -> int {
    if byte < 128 {
        byte as int
    } else {
        byte - 256
    }
}

/// Whether `bits` is the binary32 pattern of the whole number `v`.
pub open spec fn is_whole_number(bits: u32, v: int) -> bool {
    &&& (bits >= SIGN32) == (v < 0)
    &&& bits % SIGN32 < INFINITY32
    &&& units32(bits % SIGN32) == (if v < 0 {
        (-v) as nat
    } else {
        v as nat
    }) * pow2(149)
}

/// The binary32 magnitude of a small whole number.
fn small_magnitude(n: u32) -> (mag: u32)
    requires
        n <= 128,
    ensures
        mag < INFINITY32,
        units32(mag) == n as nat * pow2(149),
{
    if n == 0 {
        assert(0nat * pow2(149) == 0);
        return 0;
    }
    proof {
        lemma2_to64();
    }
    let mut p: u32 = 1;
    let mut k: u32 = 0;
    while 2 * p <= n
        invariant
            n <= 128,
            1 <= p <= n,
            k <= 7,
            p == pow2(k as nat),
        decreases n - p,
    {
        proof {
            lemma2_to64();
            lemma_pow2_adds(1, k as nat);
            if k == 7 {
                assert(p == 128);
            }
        }
        p = 2 * p;
        k = k + 1;
    }
    proof {
        lemma2_to64();
        lemma_pow2_adds(k as nat, (23 - k) as nat);
        lemma_pow2_adds((23 - k) as nat, (126 + k) as nat);
        lemma_pow2_pos((23 - k) as nat);
        assert(0x80_0000 == p * pow2((23 - k) as nat));
        let f = pow2((23 - k) as nat);
        assert(0x80_0000u32 / p == f) by (nonlinear_arith)
            requires
                0x80_0000 == p * f,
                p > 0,
                f > 0,
        ;
        assert((n - p) * f < 0x80_0000) by (nonlinear_arith)
            requires
                n < 2 * p,
                n >= p,
                p * f == 0x80_0000,
                f > 0,
        ;
        assert((n - p) * f >= 0) by (nonlinear_arith)
            requires
                n >= p,
                f > 0,
        ;
    }
    let scale: u32 = 0x80_0000 / p;
    let m: u32 = (n - p) * scale;
    let mag: u32 = (127 + k) * 0x80_0000 + m;
    proof {
        assert(mag / 0x80_0000 == 127 + k);
        assert(mag % 0x80_0000 == m);
        let f = pow2((23 - k) as nat);
        let g = pow2((126 + k) as nat);
        assert((0x80_0000 + m) * g == n * (f * g)) by (nonlinear_arith)
            requires
                0x80_0000 == p * f,
                m == (n - p) * f,
        ;
    }
    mag
}

/// Decodes the bytes of a signed 8-bit tensor.
pub fn decode_i8(bytes: &[u8]) -> (data: Vec<u32>)
    ensures
        data@.len() == bytes@.len(),
        forall|i: int|
            0 <= i < bytes@.len() ==> is_whole_number(
                #[trigger] data@[i],
                signed_value(bytes@[i]),
            ),
{
    let mut data: Vec<u32> = Vec::new();
    let mut i: usize = 0;
    while i < bytes.len()
        invariant
            i <= bytes@.len(),
            data@.len() == i,
            forall|k: int|
                0 <= k < i ==> is_whole_number(#[trigger] data@[k], signed_value(bytes@[k])),
        decreases bytes@.len() - i,
    {
        let b: u32 = bytes[i] as u32;
        let bits: u32 = if b < 128 {
            small_magnitude(b)
        } else {
            small_magnitude(256 - b) + SIGN32
        };
        data.push(bits);
        i = i + 1;
    }
    data
}

/// A byte read as a signed one is the byte up to a multiple of 256, between
/// -128 and 127.
pub proof fn signed_value_is_the_byte(byte: u8)
    ensures
        signed_value(byte) % 256 == byte,
        -128 <= signed_value(byte) < 128,
{
}

/// The small codes are worth their own number of units, and eight codes
/// further on each is worth twice as much.
pub proof fn codes_double(c: nat)
    ensures
        c <= 16 ==> code_value(c) == c,
        c >= 8 ==> code_value(c + 8) == 2 * code_value(c),
{
    lemma2_to64();
    if 8 <= c < 16 {
        assert(c / 8 == 1);
        assert((8 + c % 8) * pow2(0) == c);
    } else if c == 16 {
        assert(pow2(1) == 2);
        assert((8 + 16nat % 8) * pow2(1) == 16) by (nonlinear_arith)
            requires
                pow2(1) == 2,
        ;
    }
    if c >= 8 {
        let e = c / 8;
        assert((c + 8) / 8 == e + 1);
        assert((c + 8) % 8 == c % 8);
        lemma_pow2_adds(1, (e - 1) as nat);
        let f = pow2((e - 1) as nat);
        assert((8 + c % 8) * (2 * f) == 2 * ((8 + c % 8) * f)) by (nonlinear_arith);
    }
}

/// A magnitude whose exponent is nought or one is worth its own pattern in
/// units, and one exponent further on each is worth twice as much.
pub proof fn magnitudes_double(mag: u32)
    requires
        mag < 0x7F80_0000,
    ensures
        mag < 0x100_0000 ==> units32(mag) == mag,
        mag >= 0x80_0000 ==> units32((mag + 0x80_0000) as u32) == 2 * units32(mag),
{
    lemma2_to64();
    if 0x80_0000 <= mag < 0x100_0000 {
        assert(mag / 0x80_0000 == 1);
        assert((0x80_0000 + mag % 0x80_0000) as nat * pow2(0) == mag);
    }
    if mag >= 0x80_0000 {
        let e = mag / 0x80_0000;
        let m = mag % 0x80_0000;
        let next: u32 = (mag + 0x80_0000) as u32;
        assert(next / 0x80_0000 == e + 1);
        assert(next % 0x80_0000 == m);
        lemma_pow2_adds(1, (e - 1) as nat);
        let f = pow2((e - 1) as nat);
        assert((0x80_0000 + m) as nat * (2 * f) == 2 * ((0x80_0000 + m) as nat * f))
            by (nonlinear_arith);
    }
}

/// The unit of the codes is the number 2^-9, and a whole number is so many
/// times the number one.
pub proof fn units_are_numbers()
    ensures
        units32(0x3B00_0000) == code_unit(),
        units32(0x3F80_0000) == pow2(149),
{
    lemma2_to64();
    lemma_pow2_adds(23, 117);
    lemma_pow2_adds(23, 126);
}

/// A whole number is so many ones, and negative exactly where its sign bit
/// says so.
pub proof fn whole_numbers_count_ones(bits: u32, v: int)
    requires
        is_whole_number(bits, v),
    ensures
        v >= 0 ==> bits < 0x8000_0000 && units32(bits) == v * units32(0x3F80_0000),
        v < 0 ==> bits >= 0x8000_0000 && units32((bits - 0x8000_0000) as u32) == -v * units32(
            0x3F80_0000,
        ),
{
    units_are_numbers();
}

/// What is no number stays none, and what is one keeps its sign; infinity
/// becomes the largest number.
pub proof fn special_numbers_stay(bits: u32, byte: u8, back: u32)
    requires
        encodes(bits, byte),
        decodes(byte, back),
    ensures
        nan32(bits) <==> nan32(back),
        !nan32(bits) ==> (bits >= 0x8000_0000 <==> back >= 0x8000_0000),
        bits == 0x7F80_0000 ==> byte == 126,
        bits == 0xFF80_0000 ==> byte == 254,
{
}

/// Half way between two codes a magnitude rounds to the even one.
pub proof fn ties_go_to_even(v: nat, c: nat, d: nat)
    requires
        c < MAX_CODE,
        2 * v == (code_value(c) + code_value(c + 1)) * code_unit(),
        rounds_to(v, d),
    ensures
        d % 2 == 0,
        d == c || d == c + 1,
{
    let u = code_unit();
    lemma_pow2_pos(140);
    let mid = code_value(c) + code_value(c + 1);
    if d < c {
        codes_increase(d, c);
        codes_increase(d + 1, c + 1);
        let high = code_value(d) + code_value(d + 1);
        assert(high * u < mid * u) by (nonlinear_arith)
            requires
                high < mid,
                u > 0,
        ;
    } else if d > c + 1 {
        codes_increase(c + 1, d);
        codes_increase(c, (d - 1) as nat);
        let low = code_value((d - 1) as nat) + code_value(d);
        assert(low * u > mid * u) by (nonlinear_arith)
            requires
                low > mid,
                u > 0,
        ;
    }
}

/// What is above the largest number rounds to it.
pub proof fn large_magnitudes_round_down(v: nat, d: nat)
    requires
        v >= code_value(126) * code_unit(),
        rounds_to(v, d),
    ensures
        d == 126,
{
    let u = code_unit();
    lemma_pow2_pos(140);
    if d < 126 {
        codes_increase(d, 126);
        if d + 1 < 126 {
            codes_increase(d + 1, 126);
        }
        let high = code_value(d) + code_value(d + 1);
        let top = code_value(126);
        assert(high * u < 2 * (top * u)) by (nonlinear_arith)
            requires
                high < 2 * top,
                u > 0,
        ;
    }
}

} // verus!
