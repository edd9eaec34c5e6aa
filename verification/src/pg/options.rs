//! Options of an index: `WITH (source = '...', model = '...')`.

use vstd::prelude::*;
use vstd::string::*;

use crate::text::{chars_of, find, first_pos, first_pos_is, same_text, stands_at, string_of};

verus! {

/// The key of an option written as `key=value`: what stands before the first
/// `=`.
pub open spec fn key_of(option: Seq<char>) -> Seq<char> {
    option.take(first_pos(option, '='))
}

/// Whether a key is known.
pub open spec fn known(key: Seq<char>) -> bool {
    key == "source"@ || key == "model"@
}

/// What is said of a key that is not known.
pub open spec fn unrecognized(key: Seq<char>) -> Seq<char> {
    "unrecognized parameter \""@ + key + "\" for infer index"@
}

/// The first key that is not known, among the options that are there.
pub open spec fn first_unknown(options: Seq<Option<String>>) -> Option<Seq<char>>
    decreases options.len(),
{
    if options.len() == 0 {
        None
    } else {
        let before = first_unknown(options.drop_last());
        match (before, options.last()) {
            (Some(k), _) => Some(k),
            (None, Some(o)) => if known(key_of(o@)) {
                None
            } else {
                Some(key_of(o@))
            },
            (None, None) => None,
        }
    }
}

/// An unknown key among the first options is the first unknown one.
proof fn first_unknown_stays(options: Seq<Option<String>>, n: int)
    requires
        0 <= n <= options.len(),
        first_unknown(options.take(n)) is Some,
    ensures
        first_unknown(options) == first_unknown(options.take(n)),
    decreases options.len() - n,
{
    if n == options.len() {
        assert(options.take(n) =~= options);
    } else {
        let t = options.take(n + 1);
        assert(t.drop_last() =~= options.take(n));
        first_unknown_stays(options, n + 1);
    }
}

/// Checks options: every one that is there has a known key.
pub fn check_options(options: &Vec<Option<String>>) -> (r: Result<(), String>)
    ensures
        match r {
            Ok(_) => first_unknown(options@) is None,
            Err(m) => first_unknown(options@) is Some && m@ == unrecognized(
                first_unknown(options@)->0,
            ),
        },
{
    let mut i: usize = 0;
    while i < options.len()
        invariant
            i <= options@.len(),
            first_unknown(options@.take(i as int)) is None,
        decreases options@.len() - i,
    {
        proof {
            let t = options@.take(i + 1);
            assert(t.drop_last() =~= options@.take(i as int));
            assert(t.last() == options@[i as int]);
        }
        if let Some(o) = &options[i] {
            let v: Vec<char> = chars_of(o.as_str());
            let n: usize = find(&v, '=');
            let key: String = string_of(&v, 0, n);
            assert(key@ =~= key_of(o@));
            if !same_text(key.as_str(), "source") && !same_text(key.as_str(), "model") {
                proof {
                    first_unknown_stays(options@, i + 1);
                }
                let mut m: String = String::from_str("unrecognized parameter \"");
                m.append(key.as_str());
                m.append("\" for infer index");
                return Err(m);
            }
        }
        i = i + 1;
    }
    assert(options@.take(i as int) =~= options@);
    Ok(())
}

/// What an option gives to `key`: what follows `key=`, where the option
/// begins so.
pub open spec fn given(option: Option<String>, key: Seq<char>) -> Option<Seq<char>> {
    match option {
        Some(o) => if (key + seq!['=']).is_prefix_of(o@) {
            Some(o@.skip(key.len() as int + 1))
        } else {
            None
        },
        None => None,
    }
}

/// The value of `key`: that of the last option that gives one.
pub open spec fn value_of(options: Seq<Option<String>>, key: Seq<char>) -> Option<Seq<char>>
    decreases options.len(),
{
    if options.len() == 0 {
        None
    } else {
        match given(options.last(), key) {
            Some(v) => Some(v),
            None => value_of(options.drop_last(), key),
        }
    }
}

/// The value of `key` among options.
pub fn get_reloption(options: &Vec<Option<String>>, key: &str) -> (r: Option<String>)
    ensures
        match r {
            Some(v) => value_of(options@, key@) == Some(v@),
            None => value_of(options@, key@) is None,
        },
{
    let mut prefix: Vec<char> = chars_of(key);
    prefix.push('=');
    assert(prefix@ =~= key@ + seq!['=']);
    let mut i: usize = options.len();
    assert(options@.take(i as int) =~= options@);
    while i > 0
        invariant
            i <= options@.len(),
            prefix@ == key@ + seq!['='],
            value_of(options@, key@) == value_of(options@.take(i as int), key@),
        decreases i,
    {
        proof {
            let t = options@.take(i as int);
            assert(t.drop_last() =~= options@.take(i - 1));
            assert(t.last() == options@[i - 1]);
        }
        i = i - 1;
        if let Some(o) = &options[i] {
            let v: Vec<char> = chars_of(o.as_str());
            if stands_at(&v, 0, &prefix) {
                assert(prefix@.is_prefix_of(o@));
                let value: String = string_of(&v, prefix.len(), v.len());
                assert(value@ =~= o@.skip(key@.len() as int + 1));
                return Some(value);
            }
            assert(!prefix@.is_prefix_of(o@));
        }
    }
    None
}

/// The `source` option.
pub fn get_source_option(options: &Vec<Option<String>>) -> (r: Option<String>)
    ensures
        match r {
            Some(v) => value_of(options@, "source"@) == Some(v@),
            None => value_of(options@, "source"@) is None,
        },
{
    get_reloption(options, "source")
}

/// The `model` option.
pub fn get_model_option(options: &Vec<Option<String>>) -> (r: Option<String>)
    ensures
        match r {
            Some(v) => value_of(options@, "model"@) == Some(v@),
            None => value_of(options@, "model"@) is None,
        },
{
    get_reloption(options, "model")
}

/// An option that gives a value to a key without `=` has that key.
pub proof fn given_has_key(option: String, key: Seq<char>)
    requires
        forall|i: int| 0 <= i < key.len() ==> #[trigger] key[i] != '=',
        given(Some(option), key) is Some,
    ensures
        key_of(option@) == key,
{
    let n = first_pos(option@, '=');
    let p = key + seq!['='];
    first_pos_is(option@, '=');
    assert(option@.subrange(0, p.len() as int) =~= p);
    assert(forall|i: int| 0 <= i < p.len() ==> option@[i] == #[trigger] p[i]);
    assert(p[key.len() as int] == '=');
    if n < key.len() {
        assert(option@[n] == p[n]);
        assert(key[n] != '=');
    }
    assert(n == key.len());
    assert forall|i: int| 0 <= i < key.len() implies option@[i] == key[i] by {
        assert(option@[i] == p[i]);
    }
    assert(key_of(option@) =~= key);
}

/// The key of an option is what stands before its first equals sign, or all of
/// it where it has none.
pub proof fn key_is_before_the_sign(key: Seq<char>, value: Seq<char>)
    requires
        forall|i: int| 0 <= i < key.len() ==> #[trigger] key[i] != '=',
    ensures
        key_of(key + seq!['='] + value) == key,
        key_of(key) == key,
{
    let o = key + seq!['='] + value;
    first_pos_is(o, '=');
    let n = first_pos(o, '=');
    assert(o[key.len() as int] == '=');
    if n < key.len() {
        assert(o[n] == key[n]);
    }
    if n > key.len() {
        assert(o[key.len() as int] != '=');
    }
    assert(key_of(o) =~= key);
    first_pos_is(key, '=');
    let m = first_pos(key, '=');
    if m < key.len() {
        assert(key[m] != '=');
    }
    assert(key_of(key) =~= key);
}

/// Options are accepted exactly where each one that is there has one of the
/// two keys; else the first one that has not is named.
pub proof fn unknown_option_is_named(options: Seq<Option<String>>)
    ensures
        match first_unknown(options) {
            None => forall|i: int|
                0 <= i < options.len() && (#[trigger] options[i]) is Some ==> key_of(
                    options[i]->0@,
                ) == seq!['s', 'o', 'u', 'r', 'c', 'e'] || key_of(options[i]->0@) == seq![
                    'm',
                    'o',
                    'd',
                    'e',
                    'l',
                ],
            Some(k) => exists|i: int|
                0 <= i < options.len() && (#[trigger] options[i]) is Some && key_of(options[i]->0@)
                    == k && k != seq!['s', 'o', 'u', 'r', 'c', 'e'] && k != seq![
                    'm',
                    'o',
                    'd',
                    'e',
                    'l',
                ] && first_unknown(options.take(i)) is None,
        },
    decreases options.len(),
{
    reveal_strlit("source");
    reveal_strlit("model");
    assert("source"@ =~= seq!['s', 'o', 'u', 'r', 'c', 'e']);
    assert("model"@ =~= seq!['m', 'o', 'd', 'e', 'l']);
    if options.len() > 0 {
        let init = options.drop_last();
        let last = options.len() - 1;
        unknown_option_is_named(init);
        assert(options[last] == options.last());
        if first_unknown(init) is Some {
            let k = first_unknown(init)->0;
            let i = choose|i: int|
                0 <= i < init.len() && (#[trigger] init[i]) is Some && key_of(init[i]->0@) == k
                    && first_unknown(init.take(i)) is None;
            assert(options[i] == init[i]);
            assert(options.take(i) =~= init.take(i));
        } else {
            assert(options.take(last) =~= init);
            assert forall|i: int| 0 <= i < init.len() implies #[trigger] options[i] == init[i] by {}
            if first_unknown(options) is None {
                assert forall|i: int|
                    0 <= i < options.len() && (#[trigger] options[i]) is Some implies key_of(
                    options[i]->0@,
                ) == seq!['s', 'o', 'u', 'r', 'c', 'e'] || key_of(options[i]->0@) == seq![
                    'm',
                    'o',
                    'd',
                    'e',
                    'l',
                ] by {
                    if i < last {
                        assert(init[i] is Some);
                    }
                }
            }
        }
    }
}

/// The value of a key is what stands behind its equals sign in the last option
/// that has the key; what other options say does not matter.
pub proof fn last_value_counts(options: Seq<Option<String>>, key: Seq<char>, value: Seq<char>, i: int)
    requires
        0 <= i < options.len(),
        options[i] is Some,
        options[i]->0@ == key + seq!['='] + value,
        forall|j: int|
            i < j < options.len() && (#[trigger] options[j]) is Some ==> !(key
                + seq!['=']).is_prefix_of(options[j]->0@),
    ensures
        value_of(options, key) == Some(value),
    decreases options.len(),
{
    let init = options.drop_last();
    let last = options.len() - 1;
    if i == last {
        let o = options[i]->0@;
        let p = key + seq!['='];
        assert(o.subrange(0, p.len() as int) =~= p);
        assert(o.skip(key.len() as int + 1) =~= value);
    } else {
        assert(options[last] == options.last());
        assert(init[i] == options[i]);
        assert forall|j: int| i < j < init.len() && (#[trigger] init[j]) is Some implies !(key
            + seq!['=']).is_prefix_of(init[j]->0@) by {
            assert(options[j] == init[j]);
        }
        last_value_counts(init, key, value, i);
    }
}

/// A key has no value where no option begins with it and an equals sign.
pub proof fn no_value_is_made_up(options: Seq<Option<String>>, key: Seq<char>)
    requires
        forall|j: int|
            0 <= j < options.len() && (#[trigger] options[j]) is Some ==> !(key
                + seq!['=']).is_prefix_of(options[j]->0@),
    ensures
        value_of(options, key) is None,
    decreases options.len(),
{
    if options.len() > 0 {
        let init = options.drop_last();
        assert(options[options.len() - 1] == options.last());
        assert forall|j: int| 0 <= j < init.len() && (#[trigger] init[j]) is Some implies !(key
            + seq!['=']).is_prefix_of(init[j]->0@) by {
            assert(options[j] == init[j]);
        }
        no_value_is_made_up(init, key);
    }
}

/// What is said of an unknown key names the key.
pub proof fn unknown_key_is_quoted(key: Seq<char>)
    ensures
        unrecognized(key).len() == 24 + key.len() + 17,
        unrecognized(key).subrange(24, 24 + key.len() as int) == key,
        unrecognized(key)[23] == '"' && unrecognized(key)[24 + key.len() as int] == '"',
{
    reveal_strlit("unrecognized parameter \"");
    reveal_strlit("\" for infer index");
    assert(unrecognized(key).subrange(24, 24 + key.len() as int) =~= key);
}

} // verus!
