//! Which tokens are shown.

use vstd::prelude::*;
use vstd::string::*;
use vstd::utf8::encode_utf8;

use crate::text::{chars_of, same_text, string_of};

verus! {

/// Whether `c` has the Unicode property White_Space.
pub open spec fn space(c: char) -> bool {
    ||| '\u{9}' <= c <= '\u{D}'
    ||| c == ' '
    ||| c == '\u{85}'
    ||| c == '\u{A0}'
    ||| c == '\u{1680}'
    ||| '\u{2000}' <= c <= '\u{200A}'
    ||| c == '\u{2028}'
    ||| c == '\u{2029}'
    ||| c == '\u{202F}'
    ||| c == '\u{205F}'
    ||| c == '\u{3000}'
}

/// Whether `c` has the Unicode property White_Space.
pub fn is_space(c: char) -> (r: bool)
    ensures
        r == space(c),
{
    ('\u{9}' <= c && c <= '\u{D}') || c == ' ' || c == '\u{85}' || c == '\u{A0}' || c == '\u{1680}'
        || ('\u{2000}' <= c && c <= '\u{200A}') || c == '\u{2028}' || c == '\u{2029}' || c
        == '\u{202F}' || c == '\u{205F}' || c == '\u{3000}'
}

/// `s` without the white space at its beginning.
pub open spec fn trimmed_front(s: Seq<char>) -> Seq<char>
    decreases s.len(),
{
    if s.len() > 0 && space(s[0]) {
        trimmed_front(s.drop_first())
    } else {
        s
    }
}

/// `s` without the white space at its end.
pub open spec fn trimmed_back(s: Seq<char>) -> Seq<char>
    decreases s.len(),
{
    if s.len() > 0 && space(s.last()) {
        trimmed_back(s.drop_last())
    } else {
        s
    }
}

/// `s` without the white space around it.
pub open spec fn trimmed(s: Seq<char>) -> Seq<char> {
    trimmed_back(trimmed_front(s))
}

/// Leaving out leading white space one by one.
proof fn trimmed_front_skip(s: Seq<char>, k: int)
    requires
        0 <= k <= s.len(),
        forall|i: int| 0 <= i < k ==> space(#[trigger] s[i]),
    ensures
        trimmed_front(s) == trimmed_front(s.skip(k)),
    decreases k,
{
    if k == 0 {
        assert(s.skip(0) =~= s);
    } else {
        let t = s.drop_first();
        assert(space(s[0]));
        assert forall|i: int| 0 <= i < k - 1 implies space(#[trigger] t[i]) by {
            assert(t[i] == s[i + 1]);
        }
        trimmed_front_skip(t, k - 1);
        assert(t.skip(k - 1) =~= s.skip(k));
    }
}

/// Leaving out trailing white space one by one.
proof fn trimmed_back_take(s: Seq<char>, k: int)
    requires
        0 <= k <= s.len(),
        forall|i: int| k <= i < s.len() ==> space(#[trigger] s[i]),
    ensures
        trimmed_back(s) == trimmed_back(s.take(k)),
    decreases s.len() - k,
{
    if k == s.len() {
        assert(s.take(k) =~= s);
    } else {
        let t = s.drop_last();
        assert(space(s[s.len() - 1]));
        assert forall|i: int| k <= i < t.len() implies space(#[trigger] t[i]) by {
            assert(t[i] == s[i]);
        }
        trimmed_back_take(t, k);
        assert(t.take(k) =~= s.take(k));
    }
}

/// `s` without the white space around it.
pub fn trim(s: &str) -> (t: String)
    ensures
        t@ == trimmed(s@),
{
    let v: Vec<char> = chars_of(s);
    let mut from: usize = 0;
    while from < v.len() && is_space(v[from])
        invariant
            from <= v@.len(),
            forall|i: int| 0 <= i < from ==> space(#[trigger] v@[i]),
        decreases v@.len() - from,
    {
        from = from + 1;
    }
    let ghost front = v@.skip(from as int);
    proof {
        trimmed_front_skip(v@, from as int);
        assert(trimmed_front(front) == front);
    }
    let mut to: usize = v.len();
    while to > from && is_space(v[to - 1])
        invariant
            from <= to <= v@.len(),
            forall|i: int| to <= i < v@.len() ==> space(#[trigger] v@[i]),
        decreases to,
    {
        to = to - 1;
    }
    proof {
        assert forall|i: int| to - from <= i < front.len() implies space(#[trigger] front[i]) by {
            assert(front[i] == v@[from + i]);
        }
        trimmed_back_take(front, to - from);
        let kept = front.take(to - from);
        assert(kept =~= v@.subrange(from as int, to as int));
        if to > from {
            assert(kept.last() == v@[to - 1]);
        }
        assert(trimmed_back(kept) == kept);
    }
    string_of(&v, from, to)
}

/// Trimming twice is trimming once, and what is left has no white space at
/// either end.
pub proof fn trimmed_is_trimmed(s: Seq<char>)
    ensures
        trimmed(trimmed(s)) == trimmed(s),
        trimmed(s).len() > 0 ==> !space(trimmed(s)[0]) && !space(trimmed(s).last()),
{
    trimmed_front_ends(s);
    trimmed_back_ends(trimmed_front(s));
}

/// What is left after trimming the front has none there.
proof fn trimmed_front_ends(s: Seq<char>)
    ensures
        trimmed_front(s).len() > 0 ==> !space(trimmed_front(s)[0]),
    decreases s.len(),
{
    if s.len() > 0 && space(s[0]) {
        trimmed_front_ends(s.drop_first());
    }
}

/// What is left after trimming the back has none there, and its front is as
/// it was.
proof fn trimmed_back_ends(s: Seq<char>)
    ensures
        trimmed_back(s).len() > 0 ==> !space(trimmed_back(s).last()) && trimmed_back(s)[0] == s[0],
    decreases s.len(),
{
    if s.len() > 0 && space(s.last()) {
        trimmed_back_ends(s.drop_last());
    }
}

/// Whether `c` is an ASCII letter.
pub open spec fn letter(c: char) -> bool {
    'a' <= c <= 'z' || 'A' <= c <= 'Z'
}

/// Whether `c` is an ASCII letter or digit, a space or one of `-`, `'`, `.`
/// and `,`.
pub open spec fn plain(c: char) -> bool {
    letter(c) || '0' <= c <= '9' || c == ' ' || c == '-' || c == '\'' || c == '.' || c == ','
}

/// Number of plain characters.
pub open spec fn plain_count(s: Seq<char>) -> nat
    decreases s.len(),
{
    if s.len() == 0 {
        0
    } else {
        plain_count(s.drop_last()) + if plain(s.last()) {
            1nat
        } else {
            0
        }
    }
}

/// Number of letters.
pub open spec fn letter_count(s: Seq<char>) -> nat
    decreases s.len(),
{
    if s.len() == 0 {
        0
    } else {
        letter_count(s.drop_last()) + if letter(s.last()) {
            1nat
        } else {
            0
        }
    }
}

/// Whether a token is readable: without the white space around it it has 1 to
/// 30 bytes, and at least half of its characters are plain.
pub open spec fn readable(tok: Seq<char>) -> bool {
    let t = trimmed(tok);
    t.len() > 0 && encode_utf8(t).len() <= 30 && plain_count(t) * 2 >= t.len()
}

/// Whether a token is readable enough to be shown.
pub fn is_readable_token(tok: &str) -> (r: bool)
    ensures
        r == readable(tok@),
{
    let t: String = trim(tok);
    if t.as_str().is_empty() || t.as_str().as_bytes().len() > 30 {
        return false;
    }
    let v: Vec<char> = chars_of(t.as_str());
    let mut count: usize = 0;
    let mut i: usize = 0;
    while i < v.len()
        invariant
            i <= v.len(),
            count <= i,
            count == plain_count(v@.take(i as int)),
        decreases v@.len() - i,
    {
        let c: char = v[i];
        if ('a' <= c && c <= 'z') || ('A' <= c && c <= 'Z') || ('0' <= c && c <= '9') || c == ' '
            || c == '-' || c == '\'' || c == '.' || c == ',' {
            count = count + 1;
        }
        i = i + 1;
        proof {
            let p = v@.take(i as int);
            assert(p.drop_last() =~= v@.take(i - 1));
            assert(p.last() == c);
        }
    }
    assert(v@.take(i as int) =~= v@);
    count as u128 * 2 >= v.len() as u128
}

/// The words that carry no content.
pub open spec fn stop_words() -> Seq<Seq<char>> {
    seq![
        "the"@,
        "and"@,
        "for"@,
        "but"@,
        "not"@,
        "you"@,
        "all"@,
        "can"@,
        "her"@,
        "was"@,
        "one"@,
        "our"@,
        "out"@,
        "are"@,
        "has"@,
        "his"@,
        "how"@,
        "its"@,
        "may"@,
        "new"@,
        "now"@,
        "old"@,
        "see"@,
        "way"@,
        "who"@,
        "did"@,
        "get"@,
        "let"@,
        "say"@,
        "she"@,
        "too"@,
        "use"@,
        "from"@,
        "have"@,
        "been"@,
        "will"@,
        "with"@,
        "this"@,
        "that"@,
        "they"@,
        "were"@,
        "some"@,
        "them"@,
        "than"@,
        "when"@,
        "what"@,
        "your"@,
        "each"@,
        "make"@,
        "like"@,
        "just"@,
        "over"@,
        "such"@,
        "take"@,
        "also"@,
        "into"@,
        "only"@,
        "very"@,
        "more"@,
        "does"@,
        "most"@,
        "about"@,
        "which"@,
        "their"@,
        "would"@,
        "there"@,
        "could"@,
        "other"@,
        "after"@,
        "being"@,
        "where"@,
        "these"@,
        "those"@,
        "first"@,
        "should"@,
        "because"@,
        "through"@,
        "before"@,
        "par"@,
        "aux"@,
        "che"@,
        "del"@,
    ]
}

/// Whether a word in lower case carries no content.
pub fn is_stop_word(lower: &str) -> (r: bool)
    ensures
        r == stop_words().contains(lower@),
{
    let words: [&'static str; 82] = [
        "the",
        "and",
        "for",
        "but",
        "not",
        "you",
        "all",
        "can",
        "her",
        "was",
        "one",
        "our",
        "out",
        "are",
        "has",
        "his",
        "how",
        "its",
        "may",
        "new",
        "now",
        "old",
        "see",
        "way",
        "who",
        "did",
        "get",
        "let",
        "say",
        "she",
        "too",
        "use",
        "from",
        "have",
        "been",
        "will",
        "with",
        "this",
        "that",
        "they",
        "were",
        "some",
        "them",
        "than",
        "when",
        "what",
        "your",
        "each",
        "make",
        "like",
        "just",
        "over",
        "such",
        "take",
        "also",
        "into",
        "only",
        "very",
        "more",
        "does",
        "most",
        "about",
        "which",
        "their",
        "would",
        "there",
        "could",
        "other",
        "after",
        "being",
        "where",
        "these",
        "those",
        "first",
        "should",
        "because",
        "through",
        "before",
        "par",
        "aux",
        "che",
        "del",
    ];
    let mut i: usize = 0;
    while i < 82
        invariant
            i <= 82,
            forall|k: int| 0 <= k < 82 ==> (#[trigger] words@[k])@ == stop_words()[k],
            forall|k: int| 0 <= k < i ==> #[trigger] stop_words()[k] != lower@,
        decreases 82 - i,
    {
        let w: &str = words[i];
        assert(words@[i as int]@ == stop_words()[i as int]);
        if same_text(lower, w) {
            assert(stop_words()[i as int] == lower@);
            return true;
        }
        i = i + 1;
    }
    false
}

/// Whether a small letter stands right before a capital.
pub open spec fn camel_case(s: Seq<char>) -> bool {
    exists|i: int|
        0 <= i < s.len() - 1 && 'a' <= #[trigger] s[i] <= 'z' && 'A' <= s[i + 1] <= 'Z'
}

/// Whether a word, given without white space around it and in lower case,
/// carries content: it is readable, has 3 to 25 characters, two thirds of
/// them letters, is not in camel case and is no stop word.
pub open spec fn content_word(word: Seq<char>, lower: Seq<char>) -> bool {
    &&& readable(word)
    &&& 3 <= word.len() <= 25
    &&& letter_count(word) >= word.len() * 2 / 3
    &&& !camel_case(word)
    &&& !stop_words().contains(lower)
}

/// Whether a word, given without white space around it and in lower case,
/// carries content.
pub fn is_content_word(word: &str, lower: &str) -> (r: bool)
    ensures
        r == content_word(word@, lower@),
{
    if !is_readable_token(word) {
        return false;
    }
    let v: Vec<char> = chars_of(word);
    if v.len() < 3 || v.len() > 25 {
        return false;
    }
    let mut count: usize = 0;
    let mut i: usize = 0;
    let mut camel: bool = false;
    while i < v.len()
        invariant
            i <= v@.len(),
            count <= i,
            count == letter_count(v@.take(i as int)),
            camel == exists|k: int|
                0 <= k < i - 1 && 'a' <= #[trigger] v@[k] <= 'z' && 'A' <= v@[k + 1] <= 'Z',
        decreases v@.len() - i,
    {
        let c: char = v[i];
        if ('a' <= c && c <= 'z') || ('A' <= c && c <= 'Z') {
            count = count + 1;
        }
        if i > 0 && 'a' <= v[i - 1] && v[i - 1] <= 'z' && 'A' <= c && c <= 'Z' {
            assert('a' <= v@[i - 1] <= 'z');
            camel = true;
        }
        i = i + 1;
        proof {
            let p = v@.take(i as int);
            assert(p.drop_last() =~= v@.take(i - 1));
            assert(p.last() == c);
        }
    }
    assert(v@.take(i as int) =~= v@);
    if count < v.len() * 2 / 3 || camel {
        return false;
    }
    !is_stop_word(lower)
}

/// What `str::to_lowercase` makes of a text.
pub uninterp spec fn lowercase(s: Seq<char>) -> Seq<char>;

/// The small letter of an ASCII character.
pub open spec fn ascii_lower(c: char) -> char {
    if 'A' <= c <= 'Z' {
        (c as u32 + 32) as char
    } else {
        c
    }
}

/// Calls `str::to_lowercase`. The result depends on the text alone; of an
/// ASCII text it is the text with each capital replaced by its small letter.
#[verifier::external_body]
pub(crate) fn to_lowercase(s: &str) -> (t: String)
    ensures
        t@ == lowercase(s@),
        s.is_ascii() ==> t@ == s@.map_values(|c: char| ascii_lower(c)),
{
    s.to_lowercase()
}

/// Whether a token carries content.
pub fn is_content_token(tok: &str) -> (r: bool)
    ensures
        r == content_word(trimmed(tok@), lowercase(trimmed(tok@))),
{
    let t: String = trim(tok);
    let lower: String = to_lowercase(t.as_str());
    is_content_word(t.as_str(), lower.as_str())
}

/// A word that carries content has a letter.
pub proof fn content_has_letter(word: Seq<char>, lower: Seq<char>)
    requires
        content_word(word, lower),
    ensures
        exists|i: int| 0 <= i < word.len() && letter(#[trigger] word[i]),
{
    letters_are_somewhere(word);
}

/// Where letters are counted there is one.
proof fn letters_are_somewhere(s: Seq<char>)
    requires
        letter_count(s) > 0,
    ensures
        exists|i: int| 0 <= i < s.len() && letter(#[trigger] s[i]),
    decreases s.len(),
{
    if letter(s.last()) {
        assert(letter(s[s.len() - 1]));
    } else {
        letters_are_somewhere(s.drop_last());
        let i = choose|i: int| 0 <= i < s.drop_last().len() && letter(#[trigger] s.drop_last()[i]);
        assert(letter(s[i]));
    }
}

/// Trimming finds the middle: what stands between white space, and neither
/// begins nor ends with any, is what is left.
pub proof fn trimmed_is_the_middle(front: Seq<char>, middle: Seq<char>, back: Seq<char>)
    requires
        forall|i: int| 0 <= i < front.len() ==> space(#[trigger] front[i]),
        forall|i: int| 0 <= i < back.len() ==> space(#[trigger] back[i]),
        middle.len() > 0,
        !space(middle[0]),
        !space(middle.last()),
    ensures
        trimmed(front + middle + back) == middle,
{
    let s = front + middle + back;
    assert forall|i: int| 0 <= i < front.len() implies space(#[trigger] s[i]) by {
        assert(s[i] == front[i]);
    }
    trimmed_front_skip(s, front.len() as int);
    let rest = s.skip(front.len() as int);
    assert(rest =~= middle + back);
    assert(rest[0] == middle[0]);
    assert forall|i: int| middle.len() <= i < rest.len() implies space(#[trigger] rest[i]) by {
        assert(rest[i] == back[i - middle.len()]);
    }
    trimmed_back_take(rest, middle.len() as int);
    assert(rest.take(middle.len() as int) =~= middle);
}

/// Nothing is left of white space alone.
pub proof fn trimmed_of_space(s: Seq<char>)
    requires
        forall|i: int| 0 <= i < s.len() ==> space(#[trigger] s[i]),
    ensures
        trimmed(s) == Seq::<char>::empty(),
{
    trimmed_front_skip(s, s.len() as int);
    assert(s.skip(s.len() as int) =~= Seq::<char>::empty());
}

/// White space is the tab and the line ends, the blanks of every width, and
/// nothing else: twenty-five characters.
pub proof fn space_is_listed(c: char)
    ensures
        space(c) <==> seq![
            0x09u32,
            0x0A,
            0x0B,
            0x0C,
            0x0D,
            0x20,
            0x85,
            0xA0,
            0x1680,
            0x2000,
            0x2001,
            0x2002,
            0x2003,
            0x2004,
            0x2005,
            0x2006,
            0x2007,
            0x2008,
            0x2009,
            0x200A,
            0x2028,
            0x2029,
            0x202F,
            0x205F,
            0x3000,
        ].contains(c as u32),
{
    let all = seq![
        0x09u32,
        0x0A,
        0x0B,
        0x0C,
        0x0D,
        0x20,
        0x85,
        0xA0,
        0x1680,
        0x2000,
        0x2001,
        0x2002,
        0x2003,
        0x2004,
        0x2005,
        0x2006,
        0x2007,
        0x2008,
        0x2009,
        0x200A,
        0x2028,
        0x2029,
        0x202F,
        0x205F,
        0x3000,
    ];
    let n = c as u32;
    if 0x09 <= n <= 0x0D {
        assert(all[n - 0x09] == n);
    }
    if 0x2000 <= n <= 0x200A {
        assert(all[9 + n - 0x2000] == n);
    }
    assert(all[5] == 0x20 && all[6] == 0x85 && all[7] == 0xA0 && all[8] == 0x1680 && all[20]
        == 0x2028 && all[21] == 0x2029 && all[22] == 0x202F && all[23] == 0x205F && all[24]
        == 0x3000);
}

/// Plain characters and letters are counted one by one: those of two texts
/// together are those of both.
pub proof fn counts_of_both(a: Seq<char>, b: Seq<char>)
    ensures
        plain_count(a + b) == plain_count(a) + plain_count(b),
        letter_count(a + b) == letter_count(a) + letter_count(b),
    decreases b.len(),
{
    if b.len() == 0 {
        assert(a + b =~= a);
    } else {
        counts_of_both(a, b.drop_last());
        assert((a + b).drop_last() =~= a + b.drop_last());
        assert((a + b).last() == b.last());
    }
}

/// A single character counts as plain where it is a letter, a digit, a blank
/// or one of four marks, and as a letter where it is one of `a` to `z` or `A`
/// to `Z`; other characters do not count.
pub proof fn counts_of_one(c: char)
    ensures
        letter_count(seq![c]) == (if 0x61 <= c as u32 <= 0x7A || 0x41 <= c as u32 <= 0x5A {
            1nat
        } else {
            0
        }),
        plain_count(seq![c]) == (if 0x61 <= c as u32 <= 0x7A || 0x41 <= c as u32 <= 0x5A || 0x30
            <= c as u32 <= 0x39 || seq!['\u{20}', '\u{27}', '\u{2C}', '\u{2D}', '\u{2E}'].contains(c) {
            1nat
        } else {
            0
        }),
{
    let marks = seq!['\u{20}', '\u{27}', '\u{2C}', '\u{2D}', '\u{2E}'];
    assert(seq![c].drop_last() =~= Seq::<char>::empty());
    assert(plain_count(seq![c].drop_last()) == 0 && letter_count(seq![c].drop_last()) == 0);
    assert(marks[0] == ' ' && marks[1] == '\'' && marks[2] == ',' && marks[3] == '-' && marks[4]
        == '.');
}

/// A readable token has something to read: between the white space around it
/// stand at most thirty bytes, of whose characters not more are strange than
/// plain. White space alone is not readable.
pub proof fn readable_between_space(front: Seq<char>, middle: Seq<char>, back: Seq<char>)
    requires
        forall|i: int| 0 <= i < front.len() ==> space(#[trigger] front[i]),
        forall|i: int| 0 <= i < back.len() ==> space(#[trigger] back[i]),
        middle.len() > 0 ==> !space(middle[0]) && !space(middle.last()),
    ensures
        readable(front + middle + back) <==> middle.len() > 0 && encode_utf8(middle).len() <= 30
            && middle.len() - plain_count(middle) <= plain_count(middle),
{
    let s = front + middle + back;
    if middle.len() > 0 {
        trimmed_is_the_middle(front, middle, back);
    } else {
        assert forall|i: int| 0 <= i < s.len() implies space(#[trigger] s[i]) by {
            if i < front.len() {
                assert(s[i] == front[i]);
            } else {
                assert(s[i] == back[i - front.len()]);
            }
        }
        trimmed_of_space(s);
    }
}

/// Camel case is a matter of neighbours: two texts put together are in camel
/// case where one of them is, or where a small letter meets a capital.
pub proof fn camel_case_of_both(a: Seq<char>, b: Seq<char>)
    ensures
        camel_case(a + b) <==> camel_case(a) || camel_case(b) || (a.len() > 0 && b.len() > 0
            && 'a' <= a.last() <= 'z' && 'A' <= b[0] <= 'Z'),
{
    let s = a + b;
    if camel_case(a) {
        let i = choose|i: int|
            0 <= i < a.len() - 1 && 'a' <= #[trigger] a[i] <= 'z' && 'A' <= a[i + 1] <= 'Z';
        assert(s[i] == a[i] && s[i + 1] == a[i + 1]);
    }
    if camel_case(b) {
        let i = choose|i: int|
            0 <= i < b.len() - 1 && 'a' <= #[trigger] b[i] <= 'z' && 'A' <= b[i + 1] <= 'Z';
        assert(s[a.len() + i] == b[i] && s[a.len() + i + 1] == b[i + 1]);
    }
    if a.len() > 0 && b.len() > 0 && 'a' <= a.last() <= 'z' && 'A' <= b[0] <= 'Z' {
        assert(s[a.len() - 1] == a.last() && s[a.len() as int] == b[0]);
    }
    if camel_case(s) {
        let i = choose|i: int|
            0 <= i < s.len() - 1 && 'a' <= #[trigger] s[i] <= 'z' && 'A' <= s[i + 1] <= 'Z';
        if i + 1 < a.len() {
            assert(a[i] == s[i] && a[i + 1] == s[i + 1]);
        } else if i >= a.len() {
            assert(b[i - a.len()] == s[i] && b[i - a.len() + 1] == s[i + 1]);
        }
    }
}

/// A single character is not in camel case.
pub proof fn camel_case_of_one(c: char)
    ensures
        !camel_case(seq![c]),
{
}

/// Which words carry content: those of three to twenty-five characters and at
/// most thirty bytes between white space, with not more than a third (and a
/// rest) of other characters than letters, without a capital right behind a
/// small letter, and not on the list of words that say nothing by themselves.
pub proof fn content_words_are(word: Seq<char>, lower: Seq<char>)
    requires
        word.len() > 0,
        !space(word[0]),
        !space(word.last()),
    ensures
        content_word(word, lower) <==> {
            &&& 2 < word.len() < 26
            &&& encode_utf8(word).len() < 31
            &&& word.len() - plain_count(word) <= plain_count(word)
            &&& 3 * letter_count(word) + 2 >= 2 * word.len()
            &&& forall|i: int|
                0 <= i < word.len() - 1 && 'a' <= #[trigger] word[i] <= 'z' ==> !('A' <= word[i + 1]
                    <= 'Z')
            &&& !stop_words().contains(lower)
        },
{
    readable_between_space(seq![], word, seq![]);
    assert(Seq::<char>::empty() + word + Seq::<char>::empty() =~= word);
}

/// A word without content is one of these small words, and each of them is one.
pub proof fn words_without_content(lower: Seq<char>)
    ensures
        stop_words().contains(lower) <==> {
            ||| lower == "the"@
            ||| lower == "and"@
            ||| lower == "for"@
            ||| lower == "but"@
            ||| lower == "not"@
            ||| lower == "you"@
            ||| lower == "all"@
            ||| lower == "can"@
            ||| lower == "her"@
            ||| lower == "was"@
            ||| lower == "one"@
            ||| lower == "our"@
            ||| lower == "out"@
            ||| lower == "are"@
            ||| lower == "has"@
            ||| lower == "his"@
            ||| lower == "how"@
            ||| lower == "its"@
            ||| lower == "may"@
            ||| lower == "new"@
            ||| lower == "now"@
            ||| lower == "old"@
            ||| lower == "see"@
            ||| lower == "way"@
            ||| lower == "who"@
            ||| lower == "did"@
            ||| lower == "get"@
            ||| lower == "let"@
            ||| lower == "say"@
            ||| lower == "she"@
            ||| lower == "too"@
            ||| lower == "use"@
            ||| lower == "from"@
            ||| lower == "have"@
            ||| lower == "been"@
            ||| lower == "will"@
            ||| lower == "with"@
            ||| lower == "this"@
            ||| lower == "that"@
            ||| lower == "they"@
            ||| lower == "were"@
            ||| lower == "some"@
            ||| lower == "them"@
            ||| lower == "than"@
            ||| lower == "when"@
            ||| lower == "what"@
            ||| lower == "your"@
            ||| lower == "each"@
            ||| lower == "make"@
            ||| lower == "like"@
            ||| lower == "just"@
            ||| lower == "over"@
            ||| lower == "such"@
            ||| lower == "take"@
            ||| lower == "also"@
            ||| lower == "into"@
            ||| lower == "only"@
            ||| lower == "very"@
            ||| lower == "more"@
            ||| lower == "does"@
            ||| lower == "most"@
            ||| lower == "about"@
            ||| lower == "which"@
            ||| lower == "their"@
            ||| lower == "would"@
            ||| lower == "there"@
            ||| lower == "could"@
            ||| lower == "other"@
            ||| lower == "after"@
            ||| lower == "being"@
            ||| lower == "where"@
            ||| lower == "these"@
            ||| lower == "those"@
            ||| lower == "first"@
            ||| lower == "should"@
            ||| lower == "because"@
            ||| lower == "through"@
            ||| lower == "before"@
            ||| lower == "par"@
            ||| lower == "aux"@
            ||| lower == "che"@
            ||| lower == "del"@
        },
{
    let w = stop_words();
    assert(w[0] == "the"@);
    assert(w[1] == "and"@);
    assert(w[2] == "for"@);
    assert(w[3] == "but"@);
    assert(w[4] == "not"@);
    assert(w[5] == "you"@);
    assert(w[6] == "all"@);
    assert(w[7] == "can"@);
    assert(w[8] == "her"@);
    assert(w[9] == "was"@);
    assert(w[10] == "one"@);
    assert(w[11] == "our"@);
    assert(w[12] == "out"@);
    assert(w[13] == "are"@);
    assert(w[14] == "has"@);
    assert(w[15] == "his"@);
    assert(w[16] == "how"@);
    assert(w[17] == "its"@);
    assert(w[18] == "may"@);
    assert(w[19] == "new"@);
    assert(w[20] == "now"@);
    assert(w[21] == "old"@);
    assert(w[22] == "see"@);
    assert(w[23] == "way"@);
    assert(w[24] == "who"@);
    assert(w[25] == "did"@);
    assert(w[26] == "get"@);
    assert(w[27] == "let"@);
    assert(w[28] == "say"@);
    assert(w[29] == "she"@);
    assert(w[30] == "too"@);
    assert(w[31] == "use"@);
    assert(w[32] == "from"@);
    assert(w[33] == "have"@);
    assert(w[34] == "been"@);
    assert(w[35] == "will"@);
    assert(w[36] == "with"@);
    assert(w[37] == "this"@);
    assert(w[38] == "that"@);
    assert(w[39] == "they"@);
    assert(w[40] == "were"@);
    assert(w[41] == "some"@);
    assert(w[42] == "them"@);
    assert(w[43] == "than"@);
    assert(w[44] == "when"@);
    assert(w[45] == "what"@);
    assert(w[46] == "your"@);
    assert(w[47] == "each"@);
    assert(w[48] == "make"@);
    assert(w[49] == "like"@);
    assert(w[50] == "just"@);
    assert(w[51] == "over"@);
    assert(w[52] == "such"@);
    assert(w[53] == "take"@);
    assert(w[54] == "also"@);
    assert(w[55] == "into"@);
    assert(w[56] == "only"@);
    assert(w[57] == "very"@);
    assert(w[58] == "more"@);
    assert(w[59] == "does"@);
    assert(w[60] == "most"@);
    assert(w[61] == "about"@);
    assert(w[62] == "which"@);
    assert(w[63] == "their"@);
    assert(w[64] == "would"@);
    assert(w[65] == "there"@);
    assert(w[66] == "could"@);
    assert(w[67] == "other"@);
    assert(w[68] == "after"@);
    assert(w[69] == "being"@);
    assert(w[70] == "where"@);
    assert(w[71] == "these"@);
    assert(w[72] == "those"@);
    assert(w[73] == "first"@);
    assert(w[74] == "should"@);
    assert(w[75] == "because"@);
    assert(w[76] == "through"@);
    assert(w[77] == "before"@);
    assert(w[78] == "par"@);
    assert(w[79] == "aux"@);
    assert(w[80] == "che"@);
    assert(w[81] == "del"@);
}

} // verus!
