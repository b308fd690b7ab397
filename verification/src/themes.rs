//! The colour themes the settings screen offers: the names found on disk,
//! sorted, with the default theme in front.

use vstd::prelude::*;
use crate::dumps::{
    chars_lt, find_string, lemma_seq_lt_irreflexive, lemma_seq_lt_transitive, position_of, seq_lt,
    uids_view,
};
use crate::text::{chars_of, string_of};

verus! {

/// The name of the theme Quo ships as its default.
pub open spec fn default_theme() -> Seq<char> {
    "Quo (default)"@
}

/// Where `x` goes in the ascending `s`: after every name it does not sort
/// before.
pub open spec fn name_insert_pos(s: Seq<Seq<char>>, x: Seq<char>) -> nat
    decreases s.len(),
{
    if s.len() == 0 {
        0
    } else if seq_lt(x, s[0]) {
        0
    } else {
        1 + name_insert_pos(s.drop_first(), x)
    }
}

/// `s` in ascending order (what sorting a list of `String`s gives).
pub open spec fn sorted_names(s: Seq<Seq<char>>) -> Seq<Seq<char>>
    decreases s.len(),
{
    if s.len() == 0 {
        s
    } else {
        let t = sorted_names(s.drop_last());
        t.insert(name_insert_pos(t, s.last()) as int, s.last())
    }
}

/// The names that are ordered: those found, or the default theme alone when
/// none was found.
pub open spec fn theme_base(found: Seq<Seq<char>>) -> Seq<Seq<char>> {
    if found.len() == 0 {
        seq![default_theme()]
    } else {
        found
    }
}

/// The offered themes: the names sorted, then the first default theme moved
/// to the front.
pub open spec fn spec_order_themes(found: Seq<Seq<char>>) -> Seq<Seq<char>> {
    let sorted = sorted_names(theme_base(found));
    match position_of(sorted, default_theme()) {
        Some(p) => sorted.remove(p).insert(0, default_theme()),
        None => sorted,
    }
}

/// A list is ascending between `lo` and its end.
pub open spec fn ascending_from(s: Seq<Seq<char>>, lo: int) -> bool {
    forall|i: int, j: int| lo <= i < j < s.len() ==> !seq_lt(#[trigger] s[j], #[trigger] s[i])
}

proof fn lemma_name_insert_pos(s: Seq<Seq<char>>, x: Seq<char>)
    ensures
        name_insert_pos(s, x) <= s.len(),
        forall|k: int| 0 <= k < name_insert_pos(s, x) ==> !seq_lt(x, #[trigger] s[k]),
        name_insert_pos(s, x) < s.len() ==> seq_lt(x, s[name_insert_pos(s, x) as int]),
    decreases s.len(),
{
    if s.len() > 0 && !seq_lt(x, s[0]) {
        let t = s.drop_first();
        lemma_name_insert_pos(t, x);
        assert forall|k: int| 0 <= k < name_insert_pos(s, x) implies !seq_lt(x, #[trigger] s[k]) by {
            if k > 0 {
                assert(s[k] == t[k - 1]);
            }
        }
    }
}

proof fn lemma_sorted_names(s: Seq<Seq<char>>)
    ensures
        sorted_names(s).len() == s.len(),
        sorted_names(s).to_multiset() == s.to_multiset(),
        ascending_from(sorted_names(s), 0),
    decreases s.len(),
{
    broadcast use vstd::seq_lib::group_to_multiset_ensures;

    if s.len() > 0 {
        let t = sorted_names(s.drop_last());
        let x = s.last();
        lemma_sorted_names(s.drop_last());
        lemma_name_insert_pos(t, x);
        let p = name_insert_pos(t, x) as int;
        let r = t.insert(p, x);
        assert(s.drop_last().push(x) =~= s);
        assert forall|i: int, j: int| 0 <= i < j < r.len() implies !seq_lt(#[trigger] r[j], #[trigger] r[i]) by {
            if j < p {
                assert(r[i] == t[i] && r[j] == t[j]);
            } else if j == p {
                assert(r[i] == t[i]);
            } else if i == p {
                assert(r[j] == t[j - 1]);
                if seq_lt(t[j - 1], x) {
                    lemma_seq_lt_transitive(t[j - 1], x, t[p]);
                    if j - 1 > p {
                        assert(!seq_lt(t[j - 1], t[p]));
                    } else {
                        lemma_seq_lt_irreflexive(t[p]);
                    }
                }
            } else if i < p {
                assert(r[i] == t[i] && r[j] == t[j - 1]);
            } else {
                assert(r[i] == t[i - 1] && r[j] == t[j - 1]);
            }
        }
    }
}

/// What the settings screen offers is exactly the names found (or the
/// default theme alone when none was found), each as often as it was found;
/// the default theme comes first whenever it is among them, and the other
/// names follow in ascending order.
pub proof fn lemma_theme_order(found: Seq<Seq<char>>)
    ensures
        spec_order_themes(found).len() == theme_base(found).len(),
        spec_order_themes(found).to_multiset() == theme_base(found).to_multiset(),
        theme_base(found).contains(default_theme()) ==> spec_order_themes(found)[0]
            == default_theme() && ascending_from(spec_order_themes(found), 1),
        !theme_base(found).contains(default_theme()) ==> ascending_from(
            spec_order_themes(found),
            0,
        ),
{
    broadcast use vstd::seq_lib::group_to_multiset_ensures;
    broadcast use vstd::multiset::group_multiset_axioms;

    let base = theme_base(found);
    let sorted = sorted_names(base);
    let d = default_theme();
    lemma_sorted_names(base);
    assert(sorted.contains(d) <==> base.contains(d)) by {
        assert(sorted.contains(d) <==> sorted.to_multiset().count(d) > 0);
        assert(base.contains(d) <==> base.to_multiset().count(d) > 0);
    }
    if sorted.contains(d) {
        let w = choose|w: int| 0 <= w < sorted.len() && sorted[w] == d;
        assert(exists|p: int|
            0 <= p < sorted.len() && sorted[p] == d && forall|m: int| 0 <= m < p ==> sorted[m] != d)
            by {
            lemma_first_position(sorted, d, w);
        }
        let p = choose|p: int|
            0 <= p < sorted.len() && sorted[p] == d && forall|m: int| 0 <= m < p ==> sorted[m] != d;
        assert(position_of(sorted, d) == Some(p));
        let q = sorted.remove(p);
        let r = q.insert(0, d);
        assert(r.to_multiset() =~= sorted.to_multiset());
        assert forall|i: int, j: int| 1 <= i < j < r.len() implies !seq_lt(#[trigger] r[j], #[trigger] r[i]) by {
            assert(r[i] == q[i - 1] && r[j] == q[j - 1]);
            if i - 1 < p {
                assert(q[i - 1] == sorted[i - 1]);
            } else {
                assert(q[i - 1] == sorted[i]);
            }
            if j - 1 < p {
                assert(q[j - 1] == sorted[j - 1]);
            } else {
                assert(q[j - 1] == sorted[j]);
            }
        }
    } else {
        assert(position_of(sorted, d) is None);
    }
}

proof fn lemma_first_position(s: Seq<Seq<char>>, x: Seq<char>, w: int)
    requires
        0 <= w < s.len(),
        s[w] == x,
    ensures
        exists|p: int| 0 <= p < s.len() && s[p] == x && forall|m: int| 0 <= m < p ==> s[m] != x,
    decreases w,
{
    if exists|m: int| 0 <= m < w && s[m] == x {
        let m = choose|m: int| 0 <= m < w && s[m] == x;
        lemma_first_position(s, x, m);
    } else {
        assert(forall|m: int| 0 <= m < w ==> s[m] != x);
    }
}

/// Orders the theme names found on disk for the settings screen: with none
/// found the default theme alone is offered; the names are sorted, and the
/// default theme, where it is among them, is moved to the front.
pub fn order_themes(found: Vec<String>) -> (r: Vec<String>)
    ensures
        uids_view(r@) == spec_order_themes(uids_view(found@)),
{
    let ghost base = theme_base(uids_view(found@));
    let mut names = found;
    if names.len() == 0 {
        let d = chars_of("Quo (default)");
        names.push(string_of(d.as_slice()));
        assert(uids_view(names@) =~= base);
    }
    assert(uids_view(names@) =~= base);
    let mut sorted = sort_names(&names);
    let ghost v = uids_view(sorted@);
    assert(v == sorted_names(base));
    match find_string(&sorted, "Quo (default)") {
        Some(k) => {
            move_to_front(&mut sorted, k);
            sorted
        },
        None => sorted,
    }
}

/// Moves the string at `k` to the front, keeping the others in order.
fn move_to_front(v: &mut Vec<String>, k: usize)
    requires
        k < old(v)@.len(),
    ensures
        uids_view(final(v)@) == uids_view(old(v)@).remove(k as int).insert(0, old(v)@[k as int]@),
{
    let ghost w = uids_view(v@);
    let front = v.remove(k);
    v.insert(0, front);
    assert(uids_view(v@) =~= w.remove(k as int).insert(0, w[k as int]));
}

/// Sorts names in ascending order (see [`sorted_names`]).
pub fn sort_names(names: &Vec<String>) -> (r: Vec<String>)
    ensures
        uids_view(r@) == sorted_names(uids_view(names@)),
{
    let ghost base = uids_view(names@);
    let rest = names;
    let n = rest.len();
    let mut sorted: Vec<String> = Vec::new();
    let mut i: usize = 0;
    while i < n
        invariant
            n == rest@.len(),
            i <= n,
            uids_view(rest@) == base,
            uids_view(sorted@) == sorted_names(base.take(i as int)),
        decreases n - i,
    {
        proof {
            lemma_sorted_names(base.take(i as int));
        }
        let x = chars_of(rest[i].as_str());
        let mut j: usize = 0;
        while j < sorted.len() && !chars_lt(x.as_slice(), chars_of(sorted[j].as_str()).as_slice())
            invariant
                j <= sorted@.len(),
                forall|k: int| 0 <= k < j ==> !seq_lt(x@, #[trigger] uids_view(sorted@)[k]),
            decreases sorted@.len() - j,
        {
            j = j + 1;
        }
        proof {
            let t = uids_view(sorted@);
            assert(x@ == base[i as int]);
            assert forall|k: int| 0 <= k < j implies !seq_lt(x@, #[trigger] t[k]) by {}
            lemma_name_insert_pos_exact(t, x@, j as int);
            assert(base.take(i + 1).drop_last() =~= base.take(i as int));
            assert(base.take(i + 1).last() == x@);
        }
        let s = string_of(x.as_slice());
        sorted.insert(j, s);
        assert(uids_view(sorted@) =~= sorted_names(base.take(i + 1)));
        i = i + 1;
    }
    assert(base.take(n as int) =~= base);
    sorted
}

proof fn lemma_name_insert_pos_exact(s: Seq<Seq<char>>, x: Seq<char>, j: int)
    requires
        0 <= j <= s.len(),
        forall|k: int| 0 <= k < j ==> !seq_lt(x, #[trigger] s[k]),
        j == s.len() || seq_lt(x, s[j]),
    ensures
        name_insert_pos(s, x) == j,
    decreases s.len(),
{
    if j > 0 {
        let t = s.drop_first();
        assert forall|k: int| 0 <= k < j - 1 implies !seq_lt(x, #[trigger] t[k]) by {
            assert(t[k] == s[k + 1]);
        }
        if j - 1 < t.len() {
            assert(t[j - 1] == s[j]);
        }
        assert(!seq_lt(x, s[0]));
        lemma_name_insert_pos_exact(t, x, j - 1);
    }
}

} // verus!
