//! Text helpers: building messages and taking strings apart, character by
//! character.

use vstd::prelude::*;
use vstd::utf8::{decode_utf8, valid_utf8};

verus! {

/// What `String::from_utf8_lossy` makes of bytes.
pub uninterp spec fn lossy_utf8(bytes: Seq<u8>) -> Seq<char>;

/// Decodes bytes with `String::from_utf8_lossy`: UTF-8 is decoded as it is.
/// What stands in the text for bytes that are no UTF-8 depends on the bytes
/// alone; it is not said here where the replacement characters go.
#[verifier::external_body]
pub(crate) fn decode_lossy(bytes: &[u8]) -> (s: String)
    ensures
        s@ == lossy_utf8(bytes@),
        valid_utf8(bytes@) ==> s@ == decode_utf8(bytes@),
{
    String::from_utf8_lossy(bytes).into_owned()
}

/// `String::push` appends one character to the end of the string.
pub assume_specification[ String::push ](s: &mut String, c: char)
    ensures
        final(s)@ == old(s)@.push(c),
;

/// The character of the decimal digit `d`.
pub open spec fn digit_char(d: nat) -> char {
    (48 + d) as char
}

/// The decimal digits of `n`, most significant first, without leading zeros.
pub open spec fn decimal(n: nat) -> Seq<char>
    decreases n,
{
    if n < 10 {
        seq![digit_char(n)]
    } else {
        decimal(n / 10).push(digit_char(n % 10))
    }
}

/// Appends the decimal digits of `n` to `s`.
pub fn append_decimal(s: &mut String, n: u128)
    ensures
        final(s)@ == old(s)@ + decimal(n as nat),
    decreases n,
{
    if n >= 10 {
        append_decimal(s, n / 10);
    }
    let d: u8 = (n % 10) as u8;
    let c: char = (48 + d) as char;
    s.push(c);
    assert(s@ =~= old(s)@ + decimal(n as nat));
}

/// The characters of `s`.
pub fn chars_of(s: &str) -> (v: Vec<char>)
    ensures
        v@ == s@,
{
    let mut v: Vec<char> = Vec::new();
    for c in it: s.chars()
        invariant
            v@.len() == it.index(),
            forall|i: int| 0 <= i < v@.len() ==> v@[i] == it.seq()[i],
    {
        v.push(c);
    }
    assert(v@ =~= s@);
    v
}

/// The characters `from..to` of `v` as a string.
pub fn string_of(v: &Vec<char>, from: usize, to: usize) -> (s: String)
    requires
        from <= to <= v@.len(),
    ensures
        s@ == v@.subrange(from as int, to as int),
{
    let mut s: String = String::new();
    let mut i: usize = from;
    while i < to
        invariant
            from <= i <= to <= v@.len(),
            s@ == v@.subrange(from as int, i as int),
        decreases to - i,
    {
        s.push(v[i]);
        i = i + 1;
        assert(s@ =~= v@.subrange(from as int, i as int));
    }
    s
}

/// Whether the characters of `p` stand in `v` from position `at` on.
pub fn stands_at(v: &Vec<char>, at: usize, p: &Vec<char>) -> (r: bool)
    ensures
        r == (at + p@.len() <= v@.len() && v@.subrange(at as int, at + p@.len()) == p@),
{
    if p.len() > v.len() || at > v.len() - p.len() {
        return false;
    }
    let mut i: usize = 0;
    while i < p.len()
        invariant
            i <= p@.len(),
            at + p@.len() <= v.len(),
            forall|j: int| 0 <= j < i ==> v@[at + j] == p@[j],
        decreases p@.len() - i,
    {
        if v[at + i] != p[i] {
            assert(v@.subrange(at as int, at + p@.len())[i as int] != p@[i as int]);
            return false;
        }
        i = i + 1;
    }
    assert(v@.subrange(at as int, at + p@.len()) =~= p@);
    true
}

/// Whether `a` and `b` hold the same characters.
pub fn same_text(a: &str, b: &str) -> (r: bool)
    ensures
        r == (a@ == b@),
{
    let v: Vec<char> = chars_of(a);
    let w: Vec<char> = chars_of(b);
    if v.len() != w.len() {
        return false;
    }
    let r: bool = stands_at(&v, 0, &w);
    assert(v@.subrange(0, w@.len() as int) =~= v@);
    r
}

/// Whether `s` begins with `p`.
pub fn starts_with(s: &str, p: &str) -> (r: bool)
    ensures
        r == p@.is_prefix_of(s@),
{
    let v: Vec<char> = chars_of(s);
    let w: Vec<char> = chars_of(p);
    stands_at(&v, 0, &w)
}

/// Whether `s` ends with `p`.
pub fn ends_with(s: &str, p: &str) -> (r: bool)
    ensures
        r == p@.is_suffix_of(s@),
{
    let v: Vec<char> = chars_of(s);
    let w: Vec<char> = chars_of(p);
    if w.len() > v.len() {
        return false;
    }
    let r: bool = stands_at(&v, v.len() - w.len(), &w);
    r
}

/// The position of the first `c` in `s`, or the length of `s` where there is
/// none.
pub open spec fn first_pos(s: Seq<char>, c: char) -> int
    decreases s.len(),
{
    if s.len() == 0 || s[0] == c {
        0
    } else {
        1 + first_pos(s.drop_first(), c)
    }
}

/// What `first_pos` is, without recursion.
pub proof fn first_pos_is(s: Seq<char>, c: char)
    ensures
        0 <= first_pos(s, c) <= s.len(),
        forall|j: int| 0 <= j < first_pos(s, c) ==> s[j] != c,
        first_pos(s, c) < s.len() ==> s[first_pos(s, c)] == c,
    decreases s.len(),
{
    if s.len() > 0 && s[0] != c {
        let t = s.drop_first();
        first_pos_is(t, c);
        assert forall|j: int| 0 <= j < first_pos(s, c) implies s[j] != c by {
            if j > 0 {
                assert(t[j - 1] == s[j]);
            }
        }
    }
}

/// The position of the first `c` in `v`, or its length.
pub fn find(v: &Vec<char>, c: char) -> (i: usize)
    ensures
        i == first_pos(v@, c),
        i <= v@.len(),
{
    let r: Option<usize> = find_from(v, 0, c);
    proof {
        first_pos_is(v@, c);
    }
    match r {
        Some(i) => i,
        None => v.len(),
    }
}

/// Whether every character of `s` is a decimal digit.
pub open spec fn all_digits(s: Seq<char>) -> bool {
    forall|i: int| 0 <= i < s.len() ==> '0' <= #[trigger] s[i] <= '9'
}

/// The number that decimal digits stand for.
pub open spec fn digits_value(s: Seq<char>) -> nat
    decreases s.len(),
{
    if s.len() == 0 {
        0
    } else {
        digits_value(s.drop_last()) * 10 + (s.last() as nat - 48) as nat
    }
}

/// The size that `s` writes out: decimal digits, at least one, with a `+`
/// before them or without; `None` for anything else and for a number that is
/// no size.
pub open spec fn size_text(s: Seq<char>) -> Option<nat> {
    let d = if s.len() > 0 && s[0] == '+' {
        s.drop_first()
    } else {
        s
    };
    if d.len() > 0 && all_digits(d) && digits_value(d) <= usize::MAX {
        Some(digits_value(d))
    } else {
        None
    }
}

/// More digits make no smaller number.
proof fn digits_value_grows(s: Seq<char>, k: int)
    requires
        0 <= k <= s.len(),
        all_digits(s),
    ensures
        digits_value(s.take(k)) <= digits_value(s),
    decreases s.len() - k,
{
    if k == s.len() {
        assert(s.take(k) =~= s);
    } else {
        let t = s.take(k + 1);
        assert(t.drop_last() =~= s.take(k));
        assert('0' <= s[k] <= '9');
        digits_value_grows(s, k + 1);
    }
}

/// Reads a size written in decimal.
pub fn parse_size(v: &Vec<char>) -> (r: Option<usize>)
    ensures
        r is Some <==> size_text(v@) is Some,
        r matches Some(n) ==> size_text(v@) == Some(n as nat),
{
    let start: usize = if v.len() > 0 && v[0] == '+' {
        1
    } else {
        0
    };
    let ghost d = v@.skip(start as int);
    proof {
        if start == 1 {
            assert(d =~= v@.drop_first());
        } else {
            assert(d =~= v@);
        }
    }
    if v.len() == start {
        return None;
    }
    let mut n: usize = 0;
    let mut i: usize = start;
    while i < v.len()
        invariant
            start <= i <= v@.len(),
            start <= 1,
            d == v@.skip(start as int),
            d.len() > 0,
            size_text(v@) == (if all_digits(d) && digits_value(d) <= usize::MAX {
                Some(digits_value(d))
            } else {
                None
            }),
            all_digits(d.take(i - start)),
            n == digits_value(d.take(i - start)),
        decreases v@.len() - i,
    {
        let c: char = v[i];
        proof {
            let t = d.take(i - start + 1);
            assert(t.drop_last() =~= d.take(i - start));
            assert(t.last() == c);
            assert(d[i - start] == c);
        }
        if c < '0' || c > '9' {
            return None;
        }
        let x: usize = (c as u32 - 48) as usize;
        if n > (usize::MAX - x) / 10 {
            proof {
                if all_digits(d) {
                    digits_value_grows(d, i - start + 1);
                }
            }
            return None;
        }
        n = n * 10 + x;
        i = i + 1;
    }
    assert(d.take(i - start) =~= d);
    Some(n)
}

/// The position of the first `c` in `v`, at or after `from`.
pub fn find_from(v: &Vec<char>, from: usize, c: char) -> (r: Option<usize>)
    requires
        from <= v@.len(),
    ensures
        match r {
            Some(i) => from <= i < v@.len() && v@[i as int] == c && forall|j: int|
                from <= j < i ==> v@[j] != c,
            None => forall|j: int| from <= j < v@.len() ==> v@[j] != c,
        },
{
    let mut i: usize = from;
    while i < v.len()
        invariant
            from <= i <= v@.len(),
            forall|j: int| from <= j < i ==> v@[j] != c,
        decreases v@.len() - i,
    {
        if v[i] == c {
            return Some(i);
        }
        i = i + 1;
    }
    None
}

/// Appends the decimal digits of a size.
pub fn append_size(s: &mut String, n: usize)
    ensures
        final(s)@ == old(s)@ + decimal(n as nat),
{
    append_decimal(s, n as u128);
}

/// Whether `a` comes before `b` in the order of strings: character by
/// character, a proper beginning first.
pub open spec fn before(a: Seq<char>, b: Seq<char>) -> bool
    decreases a.len(),
{
    if b.len() == 0 {
        false
    } else if a.len() == 0 {
        true
    } else if a[0] == b[0] {
        before(a.drop_first(), b.drop_first())
    } else {
        a[0] < b[0]
    }
}

/// Equal beginnings do not matter to the order.
proof fn before_skip(a: Seq<char>, b: Seq<char>, k: int)
    requires
        0 <= k <= a.len(),
        k <= b.len(),
        forall|i: int| 0 <= i < k ==> a[i] == b[i],
    ensures
        before(a, b) == before(a.skip(k), b.skip(k)),
    decreases k,
{
    if k == 0 {
        assert(a.skip(0) =~= a);
        assert(b.skip(0) =~= b);
    } else {
        before_skip(a.drop_first(), b.drop_first(), k - 1);
        assert(a.drop_first().skip(k - 1) =~= a.skip(k));
        assert(b.drop_first().skip(k - 1) =~= b.skip(k));
    }
}

/// `a < b` on strings.
pub fn precedes(a: &str, b: &str) -> (r: bool)
    ensures
        r == before(a@, b@),
{
    let v: Vec<char> = chars_of(a);
    let w: Vec<char> = chars_of(b);
    let mut i: usize = 0;
    while i < v.len() && i < w.len()
        invariant
            v@ == a@,
            w@ == b@,
            i <= v@.len(),
            i <= w@.len(),
            forall|j: int| 0 <= j < i ==> v@[j] == w@[j],
        decreases v@.len() - i,
    {
        if v[i] != w[i] {
            proof {
                before_skip(a@, b@, i as int);
            }
            return v[i] < w[i];
        }
        i = i + 1;
    }
    proof {
        before_skip(a@, b@, i as int);
    }
    i < w.len()
}

/// No string comes before itself, and of two different strings exactly one
/// comes before the other.
pub proof fn before_total(a: Seq<char>, b: Seq<char>)
    ensures
        before(a, b) ==> !before(b, a),
        a != b ==> before(a, b) || before(b, a),
        a == b ==> !before(a, b),
    decreases a.len(),
{
    if a.len() > 0 && b.len() > 0 && a[0] == b[0] {
        before_total(a.drop_first(), b.drop_first());
        if a.drop_first() == b.drop_first() {
            assert(a =~= seq![a[0]] + a.drop_first());
            assert(b =~= seq![b[0]] + b.drop_first());
        }
    } else if a.len() == 0 && b.len() == 0 {
        assert(a =~= b);
    }
}

/// The order of strings is transitive.
pub proof fn before_transitive(a: Seq<char>, b: Seq<char>, c: Seq<char>)
    requires
        before(a, b),
        before(b, c),
    ensures
        before(a, c),
    decreases a.len(),
{
    if a.len() > 0 && a[0] == b[0] && b[0] == c[0] {
        before_transitive(a.drop_first(), b.drop_first(), c.drop_first());
    }
}

/// The text of a list of sizes: `[2, 3]`.
pub open spec fn size_list(sizes: Seq<usize>) -> Seq<char> {
    seq!['['] + comma_separated(sizes) + seq![']']
}

/// The sizes in decimal with `, ` between them.
pub open spec fn comma_separated(sizes: Seq<usize>) -> Seq<char>
    decreases sizes.len(),
{
    if sizes.len() == 0 {
        seq![]
    } else if sizes.len() == 1 {
        decimal(sizes[0] as nat)
    } else {
        comma_separated(sizes.drop_last()) + seq![',', ' '] + decimal(sizes.last() as nat)
    }
}

/// Appends a list of sizes.
pub fn append_size_list(s: &mut String, sizes: &Vec<usize>)
    ensures
        final(s)@ == old(s)@ + size_list(sizes@),
{
    s.push('[');
    let mut i: usize = 0;
    while i < sizes.len()
        invariant
            i <= sizes@.len(),
            s@ == old(s)@ + seq!['['] + comma_separated(sizes@.take(i as int)),
        decreases sizes@.len() - i,
    {
        let ghost before_text = s@;
        if i > 0 {
            s.push(',');
            s.push(' ');
        }
        append_size(s, sizes[i]);
        i = i + 1;
        proof {
            let t = sizes@.take(i as int);
            assert(t.drop_last() =~= sizes@.take(i - 1));
            assert(t.last() == sizes@[i - 1]);
            assert(s@ =~= old(s)@ + seq!['['] + comma_separated(t));
        }
    }
    s.push(']');
    assert(sizes@.take(i as int) =~= sizes@);
    assert(s@ =~= old(s)@ + size_list(sizes@));
}

/// Decimal digits say the number: read as digits they give it back, they are
/// all digits, and none but that of zero begins with a zero.
pub proof fn decimal_says_the_number(n: nat)
    ensures
        decimal(n).len() > 0,
        all_digits(decimal(n)),
        digits_value(decimal(n)) == n,
        n > 0 ==> decimal(n)[0] != '0',
    decreases n,
{
    if n < 10 {
        let s = decimal(n);
        assert(s.drop_last() =~= Seq::<char>::empty());
        assert(digits_value(s.drop_last()) == 0);
        assert(s.last() == digit_char(n));
    } else {
        decimal_says_the_number(n / 10);
        let init = decimal(n / 10);
        let s = decimal(n);
        assert(s.drop_last() =~= init);
        assert(s.last() == digit_char(n % 10));
        assert(s[0] == init[0]);
        assert forall|i: int| 0 <= i < s.len() implies '0' <= #[trigger] s[i] <= '9' by {
            if i < init.len() {
                assert(s[i] == init[i]);
            }
        }
    }
}

/// A digit written behind others makes the number ten times as large and adds
/// its own value.
pub proof fn digit_behind(s: Seq<char>, d: char)
    requires
        '0' <= d <= '9',
    ensures
        digits_value(s.push(d)) == 10 * digits_value(s) + (d as int - '0' as int),
        digits_value(Seq::<char>::empty()) == 0,
{
    assert(s.push(d).drop_last() =~= s);
}

/// A size that is written out is read back, with a sign before it or without.
pub proof fn size_is_read_back(n: usize)
    ensures
        size_text(decimal(n as nat)) == Some(n as nat),
        size_text(seq!['+'] + decimal(n as nat)) == Some(n as nat),
{
    decimal_says_the_number(n as nat);
    let d = decimal(n as nat);
    let s = seq!['+'] + d;
    assert(s.drop_first() =~= d);
    assert('0' <= d[0] <= '9');
}

/// What is no size: an empty text, a sign alone, a text with anything but
/// digits behind its first character or at it, and a number that is too
/// large.
pub proof fn no_size(s: Seq<char>)
    ensures
        s.len() == 0 ==> size_text(s) is None,
        s.len() == 1 && s[0] == '+' ==> size_text(s) is None,
        forall|i: int| 1 <= i < s.len() && !('0' <= #[trigger] s[i] <= '9') ==> size_text(s) is None,
        s.len() > 0 && s[0] != '+' && !('0' <= s[0] <= '9') ==> size_text(s) is None,
        s.len() > 0 && all_digits(s) && digits_value(s) > usize::MAX ==> size_text(s) is None,
        size_text(s) matches Some(n) ==> n <= usize::MAX,
{
    assert forall|i: int| 1 <= i < s.len() && !('0' <= #[trigger] s[i] <= '9') implies size_text(
        s,
    ) is None by {
        if s[0] == '+' {
            assert(s.drop_first()[i - 1] == s[i]);
        }
    }
    if s.len() > 0 && all_digits(s) {
        assert('0' <= s[0] <= '9');
    }
}

/// The first difference decides the order of two texts, and a text comes
/// before every longer one that begins with it.
pub proof fn first_difference_decides(
    p: Seq<char>,
    x: char,
    y: char,
    a: Seq<char>,
    b: Seq<char>,
)
    requires
        x != y,
    ensures
        before(p + seq![x] + a, p + seq![y] + b) <==> x < y,
        before(p, p + seq![x] + a),
{
    let s = p + seq![x] + a;
    let t = p + seq![y] + b;
    let k = p.len() as int;
    before_skip(s, t, k);
    assert(s.skip(k)[0] == x && t.skip(k)[0] == y);
    before_skip(p, s, k);
    assert(p.skip(k).len() == 0);
}

/// A list of sizes is written in brackets, and each further one behind a comma
/// and a blank.
pub proof fn sizes_are_listed(sizes: Seq<usize>, n: usize)
    ensures
        size_list(seq![n]) == seq!['['] + decimal(n as nat) + seq![']'],
        sizes.len() > 0 ==> size_list(sizes.push(n)) == size_list(sizes).drop_last() + seq![',', ' ']
            + decimal(n as nat) + seq![']'],
{
    assert(sizes.push(n).drop_last() =~= sizes);
    assert(size_list(seq![n]) =~= seq!['['] + decimal(n as nat) + seq![']']);
    if sizes.len() > 0 {
        assert(size_list(sizes).drop_last() =~= seq!['['] + comma_separated(sizes));
        assert(size_list(sizes.push(n)) =~= size_list(sizes).drop_last() + seq![',', ' '] + decimal(
            n as nat,
        ) + seq![']']);
    }
}

} // verus!
