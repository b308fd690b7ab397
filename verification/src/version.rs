//! Telling whether a released version is newer than the running one.

use vstd::prelude::*;
use crate::text::{chars_of, lemma_split_from_nonempty, replace_all, split_by, split_chars, string_of};

verus! {

/// `c` is an ASCII digit.
pub open spec fn is_digit(c: char) -> bool {
    48 <= (c as u32) <= 57
}

/// The number written by the decimal digits `d`.
pub open spec fn digits_value(d: Seq<char>) -> nat
    decreases d.len(),
{
    if d.len() == 0 {
        0
    } else {
        digits_value(d.drop_last()) * 10 + ((d.last() as u32) - 48) as nat
    }
}

/// `u32::from_str`: an optional `+` followed by at least one ASCII digit,
/// with a value that fits in a `u32`.
pub open spec fn parse_u32(s: Seq<char>) -> Option<u32> {
    let d = sign_stripped(s);
    if d.len() > 0 && all_digits(d) && digits_value(d) <= u32::MAX {
        Some(digits_value(d) as u32)
    } else {
        None
    }
}

/// `s` without a leading `+`.
pub open spec fn sign_stripped(s: Seq<char>) -> Seq<char> {
    if s.len() > 0 && s[0] == '+' {
        s.drop_first()
    } else {
        s
    }
}

/// Every character of `d` is an ASCII digit.
pub open spec fn all_digits(d: Seq<char>) -> bool {
    forall|i: int| 0 <= i < d.len() ==> is_digit(#[trigger] d[i])
}

proof fn lemma_digits_value_grows(d: Seq<char>, k: int)
    requires
        0 <= k <= d.len(),
        forall|i: int| 0 <= i < d.len() ==> is_digit(#[trigger] d[i]),
    ensures
        digits_value(d.take(k)) <= digits_value(d),
    decreases d.len() - k,
{
    if k < d.len() {
        let t = d.drop_last();
        assert forall|i: int| 0 <= i < t.len() implies is_digit(#[trigger] t[i]) by {
            assert(t[i] == d[i]);
        }
        assert(t.take(k) =~= d.take(k));
        lemma_digits_value_grows(t, k);
        assert(digits_value(d) == digits_value(t) * 10 + ((d.last() as u32) - 48) as nat);
    } else {
        assert(d.take(k) =~= d);
    }
}

/// Parses a `u32` the way `str::parse::<u32>` does (see [`parse_u32`]).
pub fn parse_u32_chars(s: &[char]) -> (r: Option<u32>)
    ensures
        r == parse_u32(s@),
{
    let start: usize = if s.len() > 0 && s[0] == '+' {
        1
    } else {
        0
    };
    let ghost d = s@.skip(start as int);
    assert(d =~= if s@.len() > 0 && s@[0] == '+' {
        s@.drop_first()
    } else {
        s@
    });
    if start == s.len() {
        return None;
    }
    let mut acc: u64 = 0;
    let mut i: usize = start;
    assert(d.take(0) =~= Seq::<char>::empty());
    while i < s.len()
        invariant
            start <= i <= s@.len(),
            d == s@.skip(start as int),
            d == sign_stripped(s@),
            acc == digits_value(d.take(i - start)),
            acc <= u32::MAX,
            forall|k: int| 0 <= k < i - start ==> is_digit(#[trigger] d[k]),
        decreases s@.len() - i,
    {
        let c = s[i];
        assert(d[i - start] == c);
        if !((c as u32) >= 48 && (c as u32) <= 57) {
            assert(!is_digit(d[i - start]));
            assert(!all_digits(d));
            assert(parse_u32(s@) is None);
            return None;
        }
        assert(d.take(i - start + 1).drop_last() =~= d.take(i - start));
        let next = acc * 10 + ((c as u32) - 48) as u64;
        if next > 4294967295u64 {
            proof {
                if all_digits(d) {
                    lemma_digits_value_grows(d, i - start + 1);
                    assert(digits_value(d.take(i - start + 1)) == digits_value(d.take(i - start)) * 10
                        + ((c as u32) - 48) as nat);
                    assert(digits_value(d) > u32::MAX);
                }
            }
            assert(parse_u32(s@) is None);
            return None;
        }
        acc = next;
        i = i + 1;
    }
    assert(d.take(i - start) =~= d);
    Some(acc as u32)
}

/// The numeric parts of a version: its `.`-separated parts that parse as a
/// `u32`, the others dropped.
pub open spec fn version_parts(v: Seq<char>) -> Seq<u32> {
    split_by(v, seq!['.']).filter_map(|p: Seq<char>| parse_u32(p))
}

/// Part `i` of a version, 0 when it has fewer parts.
pub open spec fn component(parts: Seq<u32>, i: int) -> nat {
    if i < parts.len() {
        parts[i] as nat
    } else {
        0
    }
}

/// `latest` is a newer version than `current`, comparing the first three
/// numeric parts in turn.
pub open spec fn spec_is_update(current: Seq<char>, latest: Seq<char>) -> bool {
    let c = version_parts(current);
    let l = version_parts(latest);
    if component(l, 0) != component(c, 0) {
        component(l, 0) > component(c, 0)
    } else if component(l, 1) != component(c, 1) {
        component(l, 1) > component(c, 1)
    } else {
        component(l, 2) > component(c, 2)
    }
}

/// The numeric parts of a version (see [`version_parts`]).
pub fn parse_version(v: &str) -> (r: Vec<u32>)
    ensures
        r@ == version_parts(v@),
{
    let c = chars_of(v);
    let dot: Vec<char> = vec!['.'];
    assert(dot@ =~= seq!['.']);
    let parts = split_chars(c.as_slice(), dot.as_slice());
    let ghost pv = parts.deep_view();
    let mut r: Vec<u32> = Vec::new();
    let mut i: usize = 0;
    assert(pv.take(0) =~= Seq::<Seq<char>>::empty());
    while i < parts.len()
        invariant
            i <= parts@.len(),
            pv == parts.deep_view(),
            pv == split_by(v@, seq!['.']),
            r@ == pv.take(i as int).filter_map(|p: Seq<char>| parse_u32(p)),
        decreases parts@.len() - i,
    {
        assert(parts[i as int]@ == pv[i as int]);
        proof {
            pv.lemma_filter_map_take_succ(|p: Seq<char>| parse_u32(p), i as int);
        }
        match parse_u32_chars(parts[i].as_slice()) {
            Some(n) => {
                r.push(n);
            },
            None => {},
        }
        i = i + 1;
    }
    assert(pv.take(i as int) =~= pv);
    r
}

fn component_exec(parts: &Vec<u32>, i: usize) -> (n: u32)
    ensures
        n == component(parts@, i as int),
{
    if i < parts.len() {
        parts[i]
    } else {
        0
    }
}

/// Whether `latest` is newer than `current` (see [`spec_is_update`]).
pub fn is_update(current: &str, latest: &str) -> (r: bool)
    ensures
        r == spec_is_update(current@, latest@),
{
    let c = parse_version(current);
    let l = parse_version(latest);
    let mut i: usize = 0;
    while i < 3
        invariant
            i <= 3,
            c@ == version_parts(current@),
            l@ == version_parts(latest@),
            forall|k: int| 0 <= k < i ==> component(l@, k) == component(c@, k),
        decreases 3 - i,
    {
        let cv = component_exec(&c, i);
        let lv = component_exec(&l, i);
        if lv > cv {
            return true;
        }
        if lv < cv {
            return false;
        }
        i = i + 1;
    }
    false
}

/// The version named by a release tag: the tag with every `quo-v` removed.
pub fn release_version(tag_name: &str) -> (r: String)
    ensures
        r@ == replace_all(tag_name@, "quo-v"@, Seq::empty()),
{
    let c = chars_of(tag_name);
    let pat = chars_of("quo-v");
    proof {
        reveal_strlit("quo-v");
    }
    let empty: Vec<char> = Vec::new();
    let r = crate::text::replace_chars(c.as_slice(), pat.as_slice(), empty.as_slice());
    assert(empty@ =~= Seq::<char>::empty());
    string_of(r.as_slice())
}

/// No version is newer than itself.
pub proof fn lemma_not_update_of_itself(v: Seq<char>)
    ensures
        !spec_is_update(v, v),
{
}

/// Of two versions at most one is newer than the other.
pub proof fn lemma_update_is_asymmetric(a: Seq<char>, b: Seq<char>)
    ensures
        spec_is_update(a, b) ==> !spec_is_update(b, a),
{
}

} // verus!
