//! Little-endian byte images of unsigned integers.

use vstd::prelude::*;

verus! {

/// The two bytes of `x`, least significant first.
pub open spec fn u16_le(x: u16) -> Seq<u8> {
    seq![(x % 256) as u8, (x / 256) as u8]
}

/// The four bytes of `x`, least significant first.
pub open spec fn u32_le(x: u32) -> Seq<u8> {
    seq![
        (x % 256) as u8,
        (x / 256 % 256) as u8,
        (x / 65536 % 256) as u8,
        (x / 16777216) as u8,
    ]
}

/// The eight bytes of `x`, least significant first.
pub open spec fn u64_le(x: u64) -> Seq<u8> {
    u32_le((x % 0x1_0000_0000) as u32) + u32_le((x / 0x1_0000_0000) as u32)
}

/// The number whose little-endian bytes are the first two of `s`.
pub open spec fn u16_of_le(s: Seq<u8>) -> u16 {
    (s[0] + 256 * s[1]) as u16
}

/// The number whose little-endian bytes are the first four of `s`.
pub open spec fn u32_of_le(s: Seq<u8>) -> u32 {
    (s[0] + 256 * s[1] + 65536 * s[2] + 16777216 * s[3]) as u32
}

/// The number whose little-endian bytes are the first eight of `s`.
pub open spec fn u64_of_le(s: Seq<u8>) -> u64 {
    (u32_of_le(s.subrange(0, 4)) + 0x1_0000_0000 * u32_of_le(s.subrange(4, 8))) as u64
}

/// Reading the four bytes of a number gives the number back.
pub proof fn u32_le_round_trip(x: u32)
    ensures
        u32_le(x).len() == 4,
        u32_of_le(u32_le(x)) == x,
{
}

/// Reading the two bytes of a number gives the number back.
pub proof fn u16_le_round_trip(x: u16)
    ensures
        u16_le(x).len() == 2,
        u16_of_le(u16_le(x)) == x,
{
}

/// Reading the eight bytes of a number gives the number back.
pub proof fn u64_le_round_trip(x: u64)
    ensures
        u64_le(x).len() == 8,
        u64_of_le(u64_le(x)) == x,
{
    let lo: u32 = (x % 0x1_0000_0000) as u32;
    let hi: u32 = (x / 0x1_0000_0000) as u32;
    u32_le_round_trip(lo);
    u32_le_round_trip(hi);
    assert(u64_le(x).subrange(0, 4) =~= u32_le(lo));
    assert(u64_le(x).subrange(4, 8) =~= u32_le(hi));
}

/// Appends the two bytes of `x`.
pub fn append_u16(out: &mut Vec<u8>, x: u16)
    ensures
        final(out)@ == old(out)@ + u16_le(x),
{
    out.push((x % 256) as u8);
    out.push((x / 256) as u8);
    assert(out@ =~= old(out)@ + u16_le(x));
}

/// Appends the four bytes of `x`.
pub fn append_u32(out: &mut Vec<u8>, x: u32)
    ensures
        final(out)@ == old(out)@ + u32_le(x),
{
    out.push((x % 256) as u8);
    out.push((x / 256 % 256) as u8);
    out.push((x / 65536 % 256) as u8);
    out.push((x / 16777216) as u8);
    assert(out@ =~= old(out)@ + u32_le(x));
}

/// Appends the eight bytes of `x`.
pub fn append_u64(out: &mut Vec<u8>, x: u64)
    ensures
        final(out)@ == old(out)@ + u64_le(x),
{
    append_u32(out, (x % 0x1_0000_0000) as u32);
    append_u32(out, (x / 0x1_0000_0000) as u32);
    assert(out@ =~= old(out)@ + u64_le(x));
}

/// Reads two bytes at `at`.
pub fn read_u16(data: &[u8], at: usize) -> (x: u16)
    requires
        at + 2 <= data@.len(),
    ensures
        x == u16_of_le(data@.subrange(at as int, at + 2)),
{
    data[at] as u16 + 256 * (data[at + 1] as u16)
}

/// Reads four bytes at `at`.
pub fn read_u32(data: &[u8], at: usize) -> (x: u32)
    requires
        at + 4 <= data@.len(),
    ensures
        x == u32_of_le(data@.subrange(at as int, at + 4)),
{
    data[at] as u32 + 256 * (data[at + 1] as u32) + 65536 * (data[at + 2] as u32) + 16777216 * (
    data[at + 3] as u32)
}

/// Reads eight bytes at `at`.
pub fn read_u64(data: &[u8], at: usize) -> (x: u64)
    requires
        at + 8 <= data@.len(),
    ensures
        x == u64_of_le(data@.subrange(at as int, at + 8)),
{
    assert(data.len() <= usize::MAX);
    let lo: u32 = read_u32(data, at);
    let hi: u32 = read_u32(data, at + 4);
    let ghost s = data@.subrange(at as int, at + 8);
    assert(s.subrange(0, 4) =~= data@.subrange(at as int, at + 4));
    assert(s.subrange(4, 8) =~= data@.subrange(at + 4, at + 8));
    lo as u64 + 0x1_0000_0000 * (hi as u64)
}

/// The bytes of every number in `words`, one after the other.
pub open spec fn words_le(words: Seq<u32>) -> Seq<u8>
    decreases words.len(),
{
    if words.len() == 0 {
        seq![]
    } else {
        words_le(words.drop_last()) + u32_le(words.last())
    }
}

/// The numbers whose bytes stand one after the other in `bytes`; up to three
/// bytes at the end that make no number are left out.
pub open spec fn words_of_le(bytes: Seq<u8>) -> Seq<u32> {
    Seq::new(bytes.len() / 4, |i: int| u32_of_le(bytes.subrange(4 * i, 4 * i + 4)))
}

/// The image of `words` has four bytes per word, and word `i` stands at byte
/// `4 * i`.
pub proof fn words_le_at(words: Seq<u32>)
    ensures
        words_le(words).len() == 4 * words.len(),
        forall|i: int|
            0 <= i < words.len() ==> #[trigger] words_le(words).subrange(4 * i, 4 * i + 4)
                == u32_le(words[i]),
    decreases words.len(),
{
    if words.len() > 0 {
        let init = words.drop_last();
        words_le_at(init);
        assert forall|i: int| 0 <= i < words.len() implies #[trigger] words_le(words).subrange(
            4 * i,
            4 * i + 4,
        ) == u32_le(words[i]) by {
            if i < init.len() {
                assert(words_le(words).subrange(4 * i, 4 * i + 4) =~= words_le(init).subrange(
                    4 * i,
                    4 * i + 4,
                ));
            } else {
                assert(words_le(words).subrange(4 * i, 4 * i + 4) =~= u32_le(words.last()));
            }
        }
    }
}

/// Reading the image of `words` gives `words` back.
pub proof fn words_round_trip(words: Seq<u32>)
    ensures
        words_le(words).len() == 4 * words.len(),
        words_of_le(words_le(words)) == words,
{
    words_le_at(words);
    assert forall|i: int| 0 <= i < words.len() implies words_of_le(words_le(words))[i]
        == words[i] by {
        u32_le_round_trip(words[i]);
        assert(words_le(words).subrange(4 * i, 4 * i + 4) == u32_le(words[i]));
    }
    assert(words_of_le(words_le(words)) =~= words);
}

/// Appends the image of `words`.
pub fn append_words(out: &mut Vec<u8>, words: &Vec<u32>)
    ensures
        final(out)@ == old(out)@ + words_le(words@),
{
    let mut i: usize = 0;
    while i < words.len()
        invariant
            i <= words@.len(),
            out@ == old(out)@ + words_le(words@.take(i as int)),
        decreases words@.len() - i,
    {
        append_u32(out, words[i]);
        i = i + 1;
        proof {
            let t = words@.take(i as int);
            assert(t.drop_last() =~= words@.take(i - 1));
            assert(t.last() == words@[i - 1]);
            assert(out@ =~= old(out)@ + words_le(t));
        }
    }
    assert(words@.take(i as int) =~= words@);
}

/// The numbers held in the bytes `from..to`.
pub fn read_words(data: &[u8], from: usize, to: usize) -> (words: Vec<u32>)
    requires
        from <= to <= data@.len(),
    ensures
        words@ == words_of_le(data@.subrange(from as int, to as int)),
{
    let n: usize = (to - from) / 4;
    let ghost bytes = data@.subrange(from as int, to as int);
    let mut words: Vec<u32> = Vec::new();
    let mut i: usize = 0;
    while i < n
        invariant
            i <= n,
            n == (to - from) / 4,
            from <= to <= data@.len(),
            bytes == data@.subrange(from as int, to as int),
            words@ == words_of_le(bytes).take(i as int),
        decreases n - i,
    {
        let w: u32 = read_u32(data, from + 4 * i);
        assert(bytes.subrange(4 * i as int, 4 * i + 4) =~= data@.subrange(
            from + 4 * i,
            from + 4 * i + 4,
        ));
        words.push(w);
        i = i + 1;
        assert(words@ =~= words_of_le(bytes).take(i as int));
    }
    assert(words_of_le(bytes).take(i as int) =~= words_of_le(bytes));
    words
}

/// The first byte of a number is its least significant one: a byte put before
/// the bytes of a smaller number adds its own value, and makes the rest worth
/// 256 times as much.
pub proof fn least_significant_byte_is_first(x: u32, b: u8)
    requires
        x < 0x100_0000,
    ensures
        u32_le((256 * x + b) as u32) == seq![b] + u32_le(x).take(3),
        x < 0x100 ==> u16_le((256 * x + b) as u16) == seq![b, x as u8],
{
    let y: u32 = (256 * x + b) as u32;
    assert(u32_le(y) =~= seq![b] + u32_le(x).take(3));
}

/// The eight bytes of a number are those of its lower half and then those of
/// its upper half.
pub proof fn lower_half_is_first(lo: u32, hi: u32)
    ensures
        u64_le((lo + 0x1_0000_0000 * hi) as u64) == u32_le(lo) + u32_le(hi),
        u64_of_le(u32_le(lo) + u32_le(hi)) == lo + 0x1_0000_0000 * hi,
{
    let x: u64 = (lo + 0x1_0000_0000 * hi) as u64;
    assert(x % 0x1_0000_0000 == lo && x / 0x1_0000_0000 == hi);
    let s = u32_le(lo) + u32_le(hi);
    u32_le_round_trip(lo);
    u32_le_round_trip(hi);
    assert(s.subrange(0, 4) =~= u32_le(lo));
    assert(s.subrange(4, 8) =~= u32_le(hi));
}

/// A number is made of the values of its bytes: each byte is worth 256 times
/// as much as the one before it.
pub proof fn bytes_make_the_number(s: Seq<u8>)
    requires
        s.len() >= 4,
    ensures
        u16_of_le(s) == s[0] + s[1] * 0x100,
        u32_of_le(s) == s[0] + s[1] * 0x100 + s[2] * 0x1_0000 + s[3] * 0x100_0000,
{
}

/// Four bytes make a number, each number from the four bytes behind those of
/// the one before it, and up to three bytes are left over.
pub proof fn every_four_bytes_are_read(bytes: Seq<u8>, i: int)
    requires
        0 <= i < words_of_le(bytes).len(),
    ensures
        4 * words_of_le(bytes).len() <= bytes.len() < 4 * words_of_le(bytes).len() + 4,
        words_of_le(bytes)[i] == bytes[4 * i] + bytes[4 * i + 1] * 0x100 + bytes[4 * i + 2]
            * 0x1_0000 + bytes[4 * i + 3] * 0x100_0000,
{
    let s = bytes.subrange(4 * i, 4 * i + 4);
    bytes_make_the_number(s);
    assert(s[0] == bytes[4 * i] && s[1] == bytes[4 * i + 1] && s[2] == bytes[4 * i + 2] && s[3]
        == bytes[4 * i + 3]);
}

} // verus!
