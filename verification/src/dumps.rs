//! The dump list as the interface shows it: search, ordering, grouping of
//! dumps made by one call, deletion and selection for diffing.

use vstd::prelude::*;
use itertools::Itertools;
use crate::payloads::IncomingQuoPayload;
use crate::text::{chars_eq, chars_of, contains_chars, contains_seq, lowercase, string_of, to_lowercase};

verus! {

// ---------------------------------------------------------------------------
// Ordering
// ---------------------------------------------------------------------------

/// Lexicographic order of character sequences by code point, which is how
/// `String`s compare (byte-wise UTF-8 order agrees with it).
pub open spec fn seq_lt(a: Seq<char>, b: Seq<char>) -> bool
    decreases a.len(),
{
    if a.len() == 0 {
        b.len() > 0
    } else if b.len() == 0 {
        false
    } else if (a[0] as u32) < (b[0] as u32) {
        true
    } else if (a[0] as u32) > (b[0] as u32) {
        false
    } else {
        seq_lt(a.drop_first(), b.drop_first())
    }
}

/// Executable form of [`seq_lt`].
pub fn chars_lt(a: &[char], b: &[char]) -> (r: bool)
    ensures
        r == seq_lt(a@, b@),
{
    let mut i: usize = 0;
    assert(a@.skip(0) =~= a@);
    assert(b@.skip(0) =~= b@);
    while i < a.len() && i < b.len() && (a[i] as u32) == (b[i] as u32)
        invariant
            i <= a@.len(),
            i <= b@.len(),
            seq_lt(a@, b@) == seq_lt(a@.skip(i as int), b@.skip(i as int)),
        decreases a@.len() - i,
    {
        assert(a@.skip(i as int).drop_first() =~= a@.skip(i + 1));
        assert(b@.skip(i as int).drop_first() =~= b@.skip(i + 1));
        assert(a@.skip(i as int)[0] == a@[i as int]);
        assert(b@.skip(i as int)[0] == b@[i as int]);
        i = i + 1;
    }
    if i < a.len() && i < b.len() {
        assert(a@.skip(i as int)[0] == a@[i as int]);
        assert(b@.skip(i as int)[0] == b@[i as int]);
    }
    i == a.len() && i < b.len() || (i < a.len() && i < b.len() && (a[i] as u32) < (b[i] as u32))
}

/// [`seq_lt`] is transitive.
pub proof fn lemma_seq_lt_transitive(a: Seq<char>, b: Seq<char>, c: Seq<char>)
    requires
        seq_lt(a, b),
        seq_lt(b, c),
    ensures
        seq_lt(a, c),
    decreases a.len(),
{
    if a.len() > 0 && b.len() > 0 && c.len() > 0 && (a[0] as u32) == (b[0] as u32) && (b[0] as u32)
        == (c[0] as u32) {
        lemma_seq_lt_transitive(a.drop_first(), b.drop_first(), c.drop_first());
    }
}

/// No sequence is below itself in [`seq_lt`].
pub proof fn lemma_seq_lt_irreflexive(a: Seq<char>)
    ensures
        !seq_lt(a, a),
    decreases a.len(),
{
    if a.len() > 0 {
        lemma_seq_lt_irreflexive(a.drop_first());
    }
}

/// The orders dumps are listed in.
#[derive(Debug, Clone, Copy, PartialEq, Eq, Structural)]
pub enum PayloadOrder {
    /// Latest time first, and the higher id first at equal times.
    NewestFirst,
    /// Higher id first.
    HighestIdFirst,
    /// Origins in ascending order.
    ByOrigin,
}

/// `a` goes strictly before `b` in the given order.
pub open spec fn strictly_before(order: PayloadOrder, a: IncomingQuoPayload, b: IncomingQuoPayload) -> bool {
    match order {
        PayloadOrder::NewestFirst => a.meta.time_epoch_ms > b.meta.time_epoch_ms || (
        a.meta.time_epoch_ms == b.meta.time_epoch_ms && a.meta.id > b.meta.id),
        PayloadOrder::HighestIdFirst => a.meta.id > b.meta.id,
        PayloadOrder::ByOrigin => seq_lt(a.meta.origin@, b.meta.origin@),
    }
}

/// Where `x` goes in the sorted `s` so that it follows everything that does
/// not go strictly after it.
pub open spec fn insert_pos(order: PayloadOrder, s: Seq<IncomingQuoPayload>, x: IncomingQuoPayload) -> nat
    decreases s.len(),
{
    if s.len() == 0 {
        0
    } else if strictly_before(order, x, s[0]) {
        0
    } else {
        1 + insert_pos(order, s.drop_first(), x)
    }
}

/// `s` sorted stably in the given order (what `sort_by` returns): elements
/// are inserted one by one, each after the elements that do not go strictly
/// after it.
pub open spec fn stable_sort(order: PayloadOrder, s: Seq<IncomingQuoPayload>) -> Seq<IncomingQuoPayload>
    decreases s.len(),
{
    if s.len() == 0 {
        s
    } else {
        let t = stable_sort(order, s.drop_last());
        t.insert(insert_pos(order, t, s.last()) as int, s.last())
    }
}

proof fn lemma_insert_pos(order: PayloadOrder, s: Seq<IncomingQuoPayload>, x: IncomingQuoPayload, j: int)
    requires
        0 <= j <= s.len(),
        forall|k: int| 0 <= k < j ==> !strictly_before(order, x, #[trigger] s[k]),
        j == s.len() || strictly_before(order, x, s[j]),
    ensures
        insert_pos(order, s, x) == j,
    decreases s.len(),
{
    if j > 0 {
        let t = s.drop_first();
        assert forall|k: int| 0 <= k < j - 1 implies !strictly_before(order, x, #[trigger] t[k]) by {
            assert(t[k] == s[k + 1]);
        }
        if j - 1 < t.len() {
            assert(t[j - 1] == s[j]);
        }
        assert(!strictly_before(order, x, s[0]));
        lemma_insert_pos(order, t, x, j - 1);
    }
}

proof fn lemma_strictly_before_transitive(
    order: PayloadOrder,
    a: IncomingQuoPayload,
    b: IncomingQuoPayload,
    c: IncomingQuoPayload,
)
    requires
        strictly_before(order, a, b),
        strictly_before(order, b, c),
    ensures
        strictly_before(order, a, c),
{
    if order == PayloadOrder::ByOrigin {
        lemma_seq_lt_transitive(a.meta.origin@, b.meta.origin@, c.meta.origin@);
    }
}

proof fn lemma_strictly_before_irreflexive(order: PayloadOrder, a: IncomingQuoPayload)
    ensures
        !strictly_before(order, a, a),
{
    if order == PayloadOrder::ByOrigin {
        lemma_seq_lt_irreflexive(a.meta.origin@);
    }
}

proof fn lemma_insert_pos_props(order: PayloadOrder, s: Seq<IncomingQuoPayload>, x: IncomingQuoPayload)
    ensures
        insert_pos(order, s, x) <= s.len(),
        forall|k: int| 0 <= k < insert_pos(order, s, x) ==> !strictly_before(order, x, #[trigger] s[k]),
        insert_pos(order, s, x) < s.len() ==> strictly_before(order, x, s[insert_pos(order, s, x) as int]),
    decreases s.len(),
{
    if s.len() > 0 && !strictly_before(order, x, s[0]) {
        let t = s.drop_first();
        lemma_insert_pos_props(order, t, x);
        assert forall|k: int| 0 <= k < insert_pos(order, s, x) implies !strictly_before(order, x, #[trigger] s[k]) by {
            if k > 0 {
                assert(s[k] == t[k - 1]);
            }
        }
    }
}

/// Sorting dumps keeps every dump, as often as it occurs, and lists them in
/// the order asked for: no dump is followed by one that goes strictly before
/// it.
pub proof fn lemma_sorted_dumps(order: PayloadOrder, s: Seq<IncomingQuoPayload>)
    ensures
        stable_sort(order, s).len() == s.len(),
        stable_sort(order, s).to_multiset() == s.to_multiset(),
        forall|i: int, j: int|
            0 <= i < j < s.len() ==> !strictly_before(
                order,
                #[trigger] stable_sort(order, s)[j],
                #[trigger] stable_sort(order, s)[i],
            ),
    decreases s.len(),
{
    broadcast use vstd::seq_lib::group_to_multiset_ensures;

    if s.len() > 0 {
        let t = stable_sort(order, s.drop_last());
        let x = s.last();
        lemma_sorted_dumps(order, s.drop_last());
        lemma_insert_pos_props(order, t, x);
        let p = insert_pos(order, t, x) as int;
        let r = t.insert(p, x);
        assert(s.drop_last().push(x) =~= s);
        assert forall|i: int, j: int| 0 <= i < j < r.len() implies !strictly_before(
            order,
            #[trigger] r[j],
            #[trigger] r[i],
        ) by {
            if j < p {
                assert(r[i] == t[i] && r[j] == t[j]);
            } else if j == p {
                assert(r[i] == t[i]);
            } else if i == p {
                assert(r[j] == t[j - 1]);
                if strictly_before(order, t[j - 1], x) {
                    lemma_strictly_before_transitive(order, t[j - 1], x, t[p]);
                    if j - 1 > p {
                        assert(!strictly_before(order, t[j - 1], t[p]));
                    } else {
                        lemma_strictly_before_irreflexive(order, t[p]);
                    }
                }
            } else if i < p {
                assert(r[i] == t[i] && r[j] == t[j - 1]);
            } else {
                assert(r[i] == t[i - 1] && r[j] == t[j - 1]);
            }
        }
    }
}

/// Whether `a` goes strictly before `b` in the given order.
fn goes_before(order: PayloadOrder, a: &IncomingQuoPayload, b: &IncomingQuoPayload) -> (r: bool)
    ensures
        r == strictly_before(order, *a, *b),
{
    match order {
        PayloadOrder::NewestFirst => a.meta.time_epoch_ms > b.meta.time_epoch_ms || (
        a.meta.time_epoch_ms == b.meta.time_epoch_ms && a.meta.id > b.meta.id),
        PayloadOrder::HighestIdFirst => a.meta.id > b.meta.id,
        PayloadOrder::ByOrigin => {
            let x = crate::text::chars_of(a.meta.origin.as_str());
            let y = crate::text::chars_of(b.meta.origin.as_str());
            chars_lt(x.as_slice(), y.as_slice())
        },
    }
}

/// Sorts dumps stably in the given order (see [`stable_sort`]).
pub fn sort_payloads(payloads: Vec<IncomingQuoPayload>, order: PayloadOrder) -> (r: Vec<
    IncomingQuoPayload,
>)
    ensures
        r@ == stable_sort(order, payloads@),
{
    let ghost input = payloads@;
    assert(input.len() == payloads.len());
    let mut rest = payloads;
    let mut sorted: Vec<IncomingQuoPayload> = Vec::new();
    let mut i: usize = 0;
    assert(input.skip(0) =~= input);
    assert(input.take(0) =~= Seq::<IncomingQuoPayload>::empty());
    while rest.len() > 0
        invariant
            i + rest@.len() == input.len(),
            input.len() <= usize::MAX,
            rest@ == input.skip(i as int),
            sorted@ == stable_sort(order, input.take(i as int)),
        decreases rest@.len(),
    {
        let x = rest.remove(0);
        assert(x == input[i as int]);
        assert(rest@ =~= input.skip(i + 1));
        proof {
            lemma_sorted_dumps(order, input.take(i as int));
        }
        let mut j: usize = 0;
        while j < sorted.len() && !goes_before(order, &x, &sorted[j])
            invariant
                j <= sorted@.len(),
                forall|k: int| 0 <= k < j ==> !strictly_before(order, x, #[trigger] sorted@[k]),
            decreases sorted@.len() - j,
        {
            j = j + 1;
        }
        proof {
            lemma_insert_pos(order, sorted@, x, j as int);
            assert(input.take(i + 1).drop_last() =~= input.take(i as int));
            assert(input.take(i + 1).last() == x);
        }
        sorted.insert(j, x);
        i = i + 1;
    }
    assert(input.take(i as int) =~= input);
    sorted
}

// ---------------------------------------------------------------------------
// Grouping
// ---------------------------------------------------------------------------

/// A dump's grouping hash, empty when it has none.
pub open spec fn hash_of(p: IncomingQuoPayload) -> Seq<char> {
    match p.meta.variable.grouping_hash {
        Some(h) => h@,
        None => Seq::empty(),
    }
}

/// Runs of consecutive dumps that share a non-empty grouping hash; every
/// other dump forms a run of its own.
pub open spec fn group_runs(s: Seq<IncomingQuoPayload>) -> Seq<Seq<IncomingQuoPayload>>
    decreases s.len(),
{
    if s.len() == 0 {
        Seq::empty()
    } else {
        let g = group_runs(s.drop_last());
        let x = s.last();
        if g.len() > 0 && hash_of(x).len() > 0 && hash_of(g.last()[0]) == hash_of(x) {
            g.update(g.len() - 1, g.last().push(x))
        } else {
            g.push(seq![x])
        }
    }
}

/// Grouping loses, adds and reorders no dump: the runs joined give back the
/// list.  Every run is non-empty; the dumps of a run of two or more share one
/// non-empty grouping hash; and two neighbouring runs never share a
/// non-empty hash, so each run is as long as it can be.
pub proof fn lemma_group_runs(s: Seq<IncomingQuoPayload>)
    ensures
        group_runs(s).flatten() == s,
        forall|k: int| 0 <= k < group_runs(s).len() ==> (#[trigger] group_runs(s)[k]).len() > 0,
        forall|k: int, j: int|
            0 <= k < group_runs(s).len() && 0 < j < group_runs(s)[k].len() ==> hash_of(
                #[trigger] group_runs(s)[k][j],
            ).len() > 0 && hash_of(group_runs(s)[k][j]) == hash_of(group_runs(s)[k][0]),
        forall|k: int|
            0 <= k && k + 1 < group_runs(s).len() ==> hash_of(
                (#[trigger] group_runs(s)[k + 1])[0],
            ).len() == 0 || hash_of(group_runs(s)[k + 1][0]) != hash_of(group_runs(s)[k].last()),
    decreases s.len(),
{
    if s.len() > 0 {
        let g = group_runs(s.drop_last());
        let x = s.last();
        lemma_group_runs(s.drop_last());
        assert(s.drop_last().push(x) =~= s);
        if g.len() > 0 && hash_of(x).len() > 0 && hash_of(g.last()[0]) == hash_of(x) {
            let n = g.len() - 1;
            let r = g.update(n, g.last().push(x));
            assert(g =~= g.drop_last().push(g.last()));
            assert(r =~= g.drop_last().push(g.last().push(x)));
            g.drop_last().lemma_flatten_push(g.last());
            g.drop_last().lemma_flatten_push(g.last().push(x));
            assert(r.flatten() =~= s);
            assert forall|k: int, j: int| 0 <= k < r.len() && 0 < j < r[k].len() implies hash_of(
                #[trigger] r[k][j],
            ).len() > 0 && hash_of(r[k][j]) == hash_of(r[k][0]) by {
                if k == n && j == r[k].len() - 1 {
                    assert(r[k][j] == x);
                    assert(r[k][0] == g.last()[0]);
                }
            }
            assert forall|k: int| 0 <= k && k + 1 < r.len() implies hash_of(
                (#[trigger] r[k + 1])[0],
            ).len() == 0 || hash_of(r[k + 1][0]) != hash_of(r[k].last()) by {
                assert(r[k] == g[k]);
                assert(r[k + 1][0] == g[k + 1][0]);
            }
        } else {
            let r = g.push(seq![x]);
            g.lemma_flatten_push(seq![x]);
            assert(r.flatten() =~= s);
            assert forall|k: int| 0 <= k && k + 1 < r.len() implies hash_of(
                (#[trigger] r[k + 1])[0],
            ).len() == 0 || hash_of(r[k + 1][0]) != hash_of(r[k].last()) by {
                if k + 1 == g.len() {
                    assert(r[k + 1][0] == x);
                    assert(r[k] == g.last());
                    if hash_of(x).len() > 0 && hash_of(x) == hash_of(g.last().last()) {
                        if g.last().len() > 1 {
                            assert(hash_of(g.last()[g.last().len() - 1]) == hash_of(g.last()[0]));
                        }
                    }
                }
            }
        }
    }
}

/// One entry of the dump list: a dump on its own, or a group of dumps made
/// by one call.
#[derive(Debug, Clone, PartialEq, Eq)]
pub enum DumpEntry {
    Single(IncomingQuoPayload),
    Group(Vec<IncomingQuoPayload>),
}

/// `DumpEntry` with its list as a sequence.
pub enum DumpEntryView {
    Single(IncomingQuoPayload),
    Group(Seq<IncomingQuoPayload>),
}

impl View for DumpEntry {
    type V = DumpEntryView;

    open spec fn view(&self) -> DumpEntryView {
        match self {
            DumpEntry::Single(p) => DumpEntryView::Single(*p),
            DumpEntry::Group(v) => DumpEntryView::Group(v@),
        }
    }
}

/// A run as an entry: the run sorted by id, highest first, and unwrapped
/// when it holds one dump.
pub open spec fn entry_of(g: Seq<IncomingQuoPayload>) -> DumpEntryView {
    let sorted = stable_sort(PayloadOrder::HighestIdFirst, g);
    if sorted.len() == 1 {
        DumpEntryView::Single(sorted[0])
    } else {
        DumpEntryView::Group(sorted)
    }
}

/// The dump list: newest first, runs of dumps with the same grouping hash
/// gathered into groups (see [`group_runs`] and [`entry_of`]).
pub open spec fn spec_dump_entries(s: Seq<IncomingQuoPayload>) -> Seq<DumpEntryView> {
    group_runs(stable_sort(PayloadOrder::NewestFirst, s)).map_values(
        |g: Seq<IncomingQuoPayload>| entry_of(g),
    )
}

/// Views of a list of entries.
pub open spec fn entries_view(v: Seq<DumpEntry>) -> Seq<DumpEntryView> {
    v.map_values(|e: DumpEntry| e@)
}

/// The dumps an entry of the list shows.
pub open spec fn entry_view_dumps(e: DumpEntryView) -> Seq<IncomingQuoPayload> {
    match e {
        DumpEntryView::Single(p) => seq![p],
        DumpEntryView::Group(v) => v,
    }
}

proof fn lemma_flatten_multiset(a: Seq<Seq<IncomingQuoPayload>>, b: Seq<Seq<IncomingQuoPayload>>)
    requires
        a.len() == b.len(),
        forall|k: int| 0 <= k < a.len() ==> (#[trigger] a[k]).to_multiset() == b[k].to_multiset(),
    ensures
        a.flatten().to_multiset() == b.flatten().to_multiset(),
    decreases a.len(),
{
    if a.len() > 0 {
        lemma_flatten_multiset(a.drop_last(), b.drop_last());
        assert(a =~= a.drop_last().push(a.last()));
        assert(b =~= b.drop_last().push(b.last()));
        a.drop_last().lemma_flatten_push(a.last());
        b.drop_last().lemma_flatten_push(b.last());
        vstd::seq_lib::lemma_multiset_commutative(a.drop_last().flatten(), a.last());
        vstd::seq_lib::lemma_multiset_commutative(b.drop_last().flatten(), b.last());
    }
}

/// The dump list shows every dump received, each exactly once: its entries'
/// dumps, taken together, are the dumps given.
pub proof fn lemma_dump_entries_keep_every_dump(s: Seq<IncomingQuoPayload>)
    ensures
        spec_dump_entries(s).map_values(|e: DumpEntryView| entry_view_dumps(e)).flatten().to_multiset()
            == s.to_multiset(),
{
    let sorted = stable_sort(PayloadOrder::NewestFirst, s);
    let runs = group_runs(sorted);
    let shown = spec_dump_entries(s).map_values(|e: DumpEntryView| entry_view_dumps(e));
    lemma_sorted_dumps(PayloadOrder::NewestFirst, s);
    lemma_group_runs(sorted);
    assert forall|k: int| 0 <= k < shown.len() implies (#[trigger] shown[k]).to_multiset()
        == runs[k].to_multiset() by {
        let g = runs[k];
        lemma_sorted_dumps(PayloadOrder::HighestIdFirst, g);
        let t = stable_sort(PayloadOrder::HighestIdFirst, g);
        assert(shown[k] == entry_view_dumps(entry_of(g)));
        if t.len() == 1 {
            assert(seq![t[0]] =~= t);
        }
    }
    lemma_flatten_multiset(shown, runs);
}

/// Whether two optional hashes are the same text.
fn same_hash(a: &Option<String>, b: &Option<String>) -> (r: bool)
    ensures
        r == (match a {
            Some(h) => h@,
            None => Seq::<char>::empty(),
        } == match b {
            Some(h) => h@,
            None => Seq::<char>::empty(),
        }),
{
    let x = match a {
        Some(h) => crate::text::chars_of(h.as_str()),
        None => Vec::new(),
    };
    let y = match b {
        Some(h) => crate::text::chars_of(h.as_str()),
        None => Vec::new(),
    };
    crate::text::chars_eq(x.as_slice(), y.as_slice())
}

fn hash_is_empty(a: &Option<String>) -> (r: bool)
    ensures
        r == (match a {
            Some(h) => h@,
            None => Seq::<char>::empty(),
        }.len() == 0),
{
    match a {
        Some(h) => h.as_str().is_empty(),
        None => true,
    }
}

/// Views of a list of runs.
pub open spec fn runs_view(v: Seq<Vec<IncomingQuoPayload>>) -> Seq<Seq<IncomingQuoPayload>> {
    v.map_values(|g: Vec<IncomingQuoPayload>| g@)
}

/// Gathers runs of consecutive dumps sharing a non-empty grouping hash (see
/// [`group_runs`]).
pub fn group_consecutive(payloads: Vec<IncomingQuoPayload>) -> (r: Vec<Vec<IncomingQuoPayload>>)
    ensures
        runs_view(r@) == group_runs(payloads@),
        forall|k: int| 0 <= k < r@.len() ==> (#[trigger] r@[k])@.len() > 0,
{
    let ghost input = payloads@;
    assert(input.len() == payloads.len());
    let mut rest = payloads;
    let mut groups: Vec<Vec<IncomingQuoPayload>> = Vec::new();
    let mut i: usize = 0;
    assert(input.skip(0) =~= input);
    assert(runs_view(groups@) =~= group_runs(input.take(0)));
    while rest.len() > 0
        invariant
            i + rest@.len() == input.len(),
            input.len() <= usize::MAX,
            rest@ == input.skip(i as int),
            runs_view(groups@) == group_runs(input.take(i as int)),
            forall|k: int| 0 <= k < groups@.len() ==> (#[trigger] groups@[k])@.len() > 0,
        decreases rest@.len(),
    {
        let x = rest.remove(0);
        assert(x == input[i as int]);
        assert(rest@ =~= input.skip(i + 1));
        assert(input.take(i + 1).drop_last() =~= input.take(i as int));
        assert(input.take(i + 1).last() == x);
        let ghost g = runs_view(groups@);
        let n = groups.len();
        let merge = if n > 0 {
            assert(groups@[n - 1]@ == g.last());
            assert(groups@[n - 1]@[0] == g.last()[0]);
            !hash_is_empty(&x.meta.variable.grouping_hash) && same_hash(
                &groups[n - 1][0].meta.variable.grouping_hash,
                &x.meta.variable.grouping_hash,
            )
        } else {
            false
        };
        if merge {
            let mut last = groups.pop().unwrap();
            last.push(x);
            let ghost before = groups@;
            groups.push(last);
            assert(runs_view(groups@) =~= g.update(g.len() - 1, g.last().push(x)));
        } else {
            let ghost before = groups@;
            let mut single: Vec<IncomingQuoPayload> = Vec::new();
            single.push(x);
            groups.push(single);
            assert(runs_view(groups@) =~= g.push(seq![x]));
        }
        i = i + 1;
    }
    assert(input.take(i as int) =~= input);
    groups
}

/// Builds the dump list shown by the interface (see [`spec_dump_entries`]).
pub fn dump_entries(payloads: Vec<IncomingQuoPayload>) -> (r: Vec<DumpEntry>)
    ensures
        entries_view(r@) == spec_dump_entries(payloads@),
{
    let sorted = sort_payloads(payloads, PayloadOrder::NewestFirst);
    let groups = group_consecutive(sorted);
    let ghost gv = runs_view(groups@);
    let mut rest = groups;
    let mut entries: Vec<DumpEntry> = Vec::new();
    let mut i: usize = 0;
    assert(gv.skip(0) =~= gv);
    assert(gv.len() == rest.len());
    while rest.len() > 0
        invariant
            i + rest@.len() == gv.len(),
            gv.len() <= usize::MAX,
            runs_view(rest@) == gv.skip(i as int),
            entries@.len() == i,
            entries_view(entries@) == gv.take(i as int).map_values(
                |g: Seq<IncomingQuoPayload>| entry_of(g),
            ),
        decreases rest@.len(),
    {
        let ghost old_rest = rest@;
        let g = rest.remove(0);
        assert(runs_view(old_rest)[0] == old_rest[0]@);
        assert(gv.skip(i as int)[0] == gv[i as int]);
        assert(g@ == gv[i as int]);
        assert(runs_view(rest@) =~= gv.skip(i + 1)) by {
            assert forall|k: int| 0 <= k < rest@.len() implies runs_view(rest@)[k] == gv.skip(i + 1)[k] by {
                assert(rest@[k] == old_rest[k + 1]);
                assert(runs_view(old_rest)[k + 1] == gv.skip(i as int)[k + 1]);
            }
        }
        let sorted_group = sort_payloads(g, PayloadOrder::HighestIdFirst);
        let entry = if sorted_group.len() == 1 {
            let mut sg = sorted_group;
            DumpEntry::Single(sg.remove(0))
        } else {
            DumpEntry::Group(sorted_group)
        };
        assert(entry@ == entry_of(gv[i as int]));
        let ghost before = entries@;
        entries.push(entry);
        assert(entries_view(entries@) =~= gv.take(i + 1).map_values(
            |g: Seq<IncomingQuoPayload>| entry_of(g),
        )) by {
            assert(entries@ == before.push(entry));
            assert forall|k: int| 0 <= k < i implies entries_view(entries@)[k] == gv.take(
                i + 1,
            ).map_values(|g: Seq<IncomingQuoPayload>| entry_of(g))[k] by {
                assert(entries@[k] == before[k]);
                assert(entries_view(before)[k] == gv.take(i as int).map_values(
                    |g: Seq<IncomingQuoPayload>| entry_of(g),
                )[k]);
            }
        }
        i = i + 1;
    }
    assert(gv.take(i as int) =~= gv);
    entries
}

// ---------------------------------------------------------------------------
// Search
// ---------------------------------------------------------------------------

/// The lowercased `q` occurs in the lowercased type, name, value, origin or
/// memory address of the dump.
pub open spec fn matches_search(p: IncomingQuoPayload, q: Seq<char>) -> bool {
    let v = p.meta.variable;
    ||| contains_seq(lowercase(v.var_type@), q)
    ||| contains_seq(lowercase(v.name@), q)
    ||| contains_seq(lowercase(v.value@), q)
    ||| contains_seq(lowercase(p.meta.origin@), q)
    ||| (v.memory_address matches Some(a) && contains_seq(lowercase(a@), q))
}

/// The dumps of the selected origin (all when none is selected), narrowed to
/// those matching the lowercased search query when it is not empty.
pub open spec fn spec_filter_payloads(
    s: Seq<IncomingQuoPayload>,
    query: Seq<char>,
    group: Option<Seq<char>>,
) -> Seq<IncomingQuoPayload> {
    let by_group = match group {
        Some(g) => s.filter(|p: IncomingQuoPayload| p.meta.origin@ == g),
        None => s,
    };
    let q = lowercase(query);
    if q.len() == 0 {
        by_group
    } else {
        by_group.filter(|p: IncomingQuoPayload| matches_search(p, q))
    }
}

/// The dump belongs to the selected origin, or no origin is selected.
pub open spec fn in_group(p: IncomingQuoPayload, group: Option<Seq<char>>) -> bool {
    match group {
        Some(g) => p.meta.origin@ == g,
        None => true,
    }
}

/// The dump matches the lowercased query, or the query is empty.
pub open spec fn found_by(p: IncomingQuoPayload, q: Seq<char>) -> bool {
    q.len() == 0 || matches_search(p, q)
}

/// The search shows exactly the dumps of the selected origin that match the
/// query: every dump shown is one of those given, of the selected origin and
/// matching the lowercased query (when it is not empty), and every dump
/// given that is so is shown.
pub proof fn lemma_search_shows_exactly_matches(
    s: Seq<IncomingQuoPayload>,
    query: Seq<char>,
    group: Option<Seq<char>>,
)
    ensures
        forall|i: int|
            0 <= i < spec_filter_payloads(s, query, group).len() ==> {
                let p = #[trigger] spec_filter_payloads(s, query, group)[i];
                s.contains(p) && in_group(p, group) && found_by(p, lowercase(query))
            },
        forall|i: int|
            0 <= i < s.len() && in_group(#[trigger] s[i], group) && found_by(s[i], lowercase(query))
                ==> spec_filter_payloads(s, query, group).contains(s[i]),
{
    broadcast use vstd::seq_lib::group_filter_ensures;
    broadcast use Seq::lemma_filter_contains_rev;

    let q = lowercase(query);
    let by_group = match group {
        Some(g) => s.filter(|p: IncomingQuoPayload| p.meta.origin@ == g),
        None => s,
    };
    let r = spec_filter_payloads(s, query, group);
    assert forall|i: int| 0 <= i < r.len() implies {
        let p = #[trigger] r[i];
        s.contains(p) && in_group(p, group) && found_by(p, q)
    } by {
        let p = r[i];
        assert(r.contains(p));
        if q.len() > 0 {
            assert(by_group.contains(p));
        }
        assert(by_group.contains(p));
    }
    assert forall|i: int|
        0 <= i < s.len() && in_group(#[trigger] s[i], group) && found_by(s[i], q) implies r.contains(
        s[i],
    ) by {
        let p = s[i];
        assert(by_group.contains(p)) by {
            if let Some(g) = group {
                s.lemma_filter_contains(|p: IncomingQuoPayload| p.meta.origin@ == g, i);
            }
        }
        if q.len() > 0 {
            let k = choose|k: int| 0 <= k < by_group.len() && by_group[k] == p;
            by_group.lemma_filter_contains(|p: IncomingQuoPayload| matches_search(p, q), k);
        }
    }
}

/// The search shows a dump exactly when it belongs to the selected origin
/// (or none is selected) and the lowercased query is empty or occurs in the
/// lowercased type, name, value, origin or memory address of the dump.
pub proof fn lemma_search_looks_at_every_field(
    s: Seq<IncomingQuoPayload>,
    query: Seq<char>,
    group: Option<Seq<char>>,
    i: int,
)
    requires
        0 <= i < s.len(),
    ensures
        ({
            let p = s[i];
            let q = lowercase(query);
            let v = p.meta.variable;
            let of_group = match group {
                Some(g) => p.meta.origin@ == g,
                None => true,
            };
            let hit = q.len() == 0 || contains_seq(lowercase(v.var_type@), q) || contains_seq(
                lowercase(v.name@),
                q,
            ) || contains_seq(lowercase(v.value@), q) || contains_seq(lowercase(p.meta.origin@), q)
                || (v.memory_address matches Some(a) && contains_seq(lowercase(a@), q));
            of_group && hit <==> spec_filter_payloads(s, query, group).contains(p)
        }),
{
    lemma_search_shows_exactly_matches(s, query, group);
    let r = spec_filter_payloads(s, query, group);
    if r.contains(s[i]) {
        let k = choose|k: int| 0 <= k < r.len() && r[k] == s[i];
        assert(r[k] == s[i]);
    }
}

fn lower_contains(text: &str, q: &[char]) -> (r: bool)
    ensures
        r == contains_seq(lowercase(text@), q@),
{
    let l = to_lowercase(text);
    let c = chars_of(l.as_str());
    contains_chars(c.as_slice(), q)
}

fn matches_search_exec(p: &IncomingQuoPayload, q: &[char]) -> (r: bool)
    ensures
        r == matches_search(*p, q@),
{
    let v = &p.meta.variable;
    lower_contains(v.var_type.as_str(), q) || lower_contains(v.name.as_str(), q)
        || lower_contains(v.value.as_str(), q) || lower_contains(p.meta.origin.as_str(), q)
        || match &v.memory_address {
        Some(a) => lower_contains(a.as_str(), q),
        None => false,
    }
}

/// Keeps the dumps that belong to the selected origin and match the search
/// query (see [`spec_filter_payloads`]).
pub fn filter_payloads(
    payloads: Vec<IncomingQuoPayload>,
    search_query: &str,
    selected_group: Option<&str>,
) -> (r: Vec<IncomingQuoPayload>)
    ensures
        r@ == spec_filter_payloads(
            payloads@,
            search_query@,
            match selected_group {
                Some(g) => Some(g@),
                None => None,
            },
        ),
{
    let ghost input = payloads@;
    let ghost group = match selected_group {
        Some(g) => Some(g@),
        None => None::<Seq<char>>,
    };
    let lowered = to_lowercase(search_query);
    let q = chars_of(lowered.as_str());
    let g = match selected_group {
        Some(g) => Some(chars_of(g)),
        None => None,
    };
    let mut rest = payloads;
    let mut kept: Vec<IncomingQuoPayload> = Vec::new();
    let mut i: usize = 0;
    assert(input.len() == rest.len());
    assert(input.skip(0) =~= input);
    proof {
        reveal(Seq::filter);
        assert(input.take(0) =~= Seq::<IncomingQuoPayload>::empty());
    }
    while rest.len() > 0
        invariant
            i + rest@.len() == input.len(),
            input.len() <= usize::MAX,
            rest@ == input.skip(i as int),
            q@ == lowercase(search_query@),
            g matches Some(gc) ==> group == Some(gc@),
            g is None ==> group is None,
            kept@ == ({
                let bg = match group {
                    Some(gg) => input.take(i as int).filter(
                        |p: IncomingQuoPayload| p.meta.origin@ == gg,
                    ),
                    None => input.take(i as int),
                };
                if q@.len() == 0 {
                    bg
                } else {
                    bg.filter(|p: IncomingQuoPayload| matches_search(p, q@))
                }
            }),
        decreases rest@.len(),
    {
        let x = rest.remove(0);
        assert(x == input[i as int]);
        assert(rest@ =~= input.skip(i + 1));
        assert(input.take(i + 1) =~= input.take(i as int).push(x));
        let ghost bg_old = match group {
            Some(gg) => input.take(i as int).filter(|p: IncomingQuoPayload| p.meta.origin@ == gg),
            None => input.take(i as int),
        };
        let in_group = match &g {
            Some(gc) => {
                let oc = chars_of(x.meta.origin.as_str());
                chars_eq(oc.as_slice(), gc.as_slice())
            },
            None => true,
        };
        proof {
            match group {
                Some(gg) => {
                    input.take(i as int).lemma_filter_push(
                        x,
                        |p: IncomingQuoPayload| p.meta.origin@ == gg,
                    );
                },
                None => {},
            }
        }
        if in_group {
            proof {
                bg_old.lemma_filter_push(x, |p: IncomingQuoPayload| matches_search(p, q@));
            }
            if q.len() == 0 || matches_search_exec(&x, q.as_slice()) {
                kept.push(x);
            }
        }
        i = i + 1;
    }
    assert(input.take(i as int) =~= input);
    kept
}

// ---------------------------------------------------------------------------
// Origins
// ---------------------------------------------------------------------------

/// The dumps of all chunks, in order.
pub open spec fn chunks_flatten(c: Seq<(String, Vec<IncomingQuoPayload>)>) -> Seq<IncomingQuoPayload> {
    c.map_values(|x: (String, Vec<IncomingQuoPayload>)| x.1@).flatten()
}

/// `c` cuts `s` into maximal runs of dumps with the same origin, each keyed
/// by that origin.
pub open spec fn chunked_by_origin(c: Seq<(String, Vec<IncomingQuoPayload>)>, s: Seq<IncomingQuoPayload>) -> bool {
    &&& chunks_flatten(c) == s
    &&& forall|k: int|
        0 <= k < c.len() ==> (#[trigger] c[k]).1@.len() > 0 && forall|j: int|
            0 <= j < c[k].1@.len() ==> c[k].1@[j].meta.origin@ == c[k].0@
    &&& forall|k: int| 0 <= k < c.len() - 1 ==> (#[trigger] c[k]).0@ != c[k + 1].0@
}

proof fn lemma_char_code_injective(x: char, y: char)
    requires
        (x as u32) == (y as u32),
    ensures
        x == y,
{
}

/// Of two different sequences, one is below the other in [`seq_lt`].
pub proof fn lemma_seq_lt_total(a: Seq<char>, b: Seq<char>)
    requires
        a != b,
    ensures
        seq_lt(a, b) || seq_lt(b, a),
    decreases a.len(),
{
    if a.len() > 0 && b.len() > 0 && (a[0] as u32) == (b[0] as u32) {
        lemma_char_code_injective(a[0], b[0]);
        if a.drop_first() == b.drop_first() {
            assert(a =~= seq![a[0]] + a.drop_first());
            assert(b =~= seq![b[0]] + b.drop_first());
        }
        lemma_seq_lt_total(a.drop_first(), b.drop_first());
    } else if a.len() == 0 && b.len() == 0 {
        assert(a =~= b);
    }
}

proof fn lemma_flatten_neighbours(x: Seq<Seq<IncomingQuoPayload>>, k: int)
    requires
        0 <= k && k + 1 < x.len(),
        forall|m: int| 0 <= m < x.len() ==> (#[trigger] x[m]).len() > 0,
    ensures
        exists|i: int|
            #![trigger x.flatten()[i]]
            0 <= i && i + 1 < x.flatten().len() && x.flatten()[i] == x[k].last() && x.flatten()[i
                + 1] == x[k + 1][0],
    decreases k,
{
    let rest = x.drop_first();
    assert(x.flatten() == x[0] + rest.flatten());
    assert(rest[0] == x[1]);
    assert(rest.flatten() == rest[0] + rest.drop_first().flatten());
    if k == 0 {
        let i = x[0].len() - 1;
        assert(x.flatten()[i] == x[0].last());
        assert(x.flatten()[i + 1] == rest.flatten()[0]);
    } else {
        assert forall|m: int| 0 <= m < rest.len() implies (#[trigger] rest[m]).len() > 0 by {
            assert(rest[m] == x[m + 1]);
        }
        lemma_flatten_neighbours(rest, k - 1);
        let j = choose|j: int|
            #![trigger rest.flatten()[j]]
            0 <= j && j + 1 < rest.flatten().len() && rest.flatten()[j] == rest[k - 1].last()
                && rest.flatten()[j + 1] == rest[k][0];
        let i = x[0].len() + j;
        assert(x.flatten()[i] == rest.flatten()[j]);
        assert(x.flatten()[i + 1] == rest.flatten()[j + 1]);
        assert(rest[k - 1] == x[k] && rest[k] == x[k + 1]);
    }
}

proof fn lemma_keys_ascend(c: Seq<(String, Vec<IncomingQuoPayload>)>, k1: int, k2: int)
    requires
        0 <= k1 < k2 < c.len(),
        forall|k: int| 0 <= k && k + 1 < c.len() ==> seq_lt(#[trigger] c[k].0@, c[k + 1].0@),
    ensures
        seq_lt(c[k1].0@, c[k2].0@),
    decreases k2 - k1,
{
    if k1 + 1 < k2 {
        lemma_keys_ascend(c, k1 + 1, k2);
        assert(seq_lt(c[k1].0@, c[k1 + 1].0@));
        lemma_seq_lt_transitive(c[k1].0@, c[k1 + 1].0@, c[k2].0@);
    } else {
        assert(seq_lt(c[k1].0@, c[k1 + 1].0@));
    }
}

/// The sidebar lists every origin once: its groups hold all the dumps, each
/// as often as it was received, and no two groups share an origin.
pub proof fn lemma_origin_groups_list_each_origin_once(
    c: Seq<(String, Vec<IncomingQuoPayload>)>,
    s: Seq<IncomingQuoPayload>,
)
    requires
        chunked_by_origin(c, stable_sort(PayloadOrder::ByOrigin, s)),
    ensures
        chunks_flatten(c).to_multiset() == s.to_multiset(),
        forall|k1: int, k2: int| 0 <= k1 < k2 < c.len() ==> c[k1].0@ != c[k2].0@,
{
    let sorted = stable_sort(PayloadOrder::ByOrigin, s);
    lemma_sorted_dumps(PayloadOrder::ByOrigin, s);
    let x = c.map_values(|e: (String, Vec<IncomingQuoPayload>)| e.1@);
    assert forall|m: int| 0 <= m < x.len() implies (#[trigger] x[m]).len() > 0 by {
        assert(x[m] == c[m].1@);
    }
    assert forall|k: int| 0 <= k && k + 1 < c.len() implies seq_lt(#[trigger] c[k].0@, c[k + 1].0@) by {
        lemma_flatten_neighbours(x, k);
        let i = choose|i: int|
            #![trigger x.flatten()[i]]
            0 <= i && i + 1 < x.flatten().len() && x.flatten()[i] == x[k].last() && x.flatten()[i + 1]
                == x[k + 1][0];
        assert(x[k] == c[k].1@ && x[k + 1] == c[k + 1].1@);
        assert(x.flatten() == sorted);
        assert(!strictly_before(PayloadOrder::ByOrigin, sorted[i + 1], sorted[i]));
        assert(c[k].1@.last().meta.origin@ == c[k].0@);
        assert(c[k + 1].1@[0].meta.origin@ == c[k + 1].0@);
        lemma_seq_lt_total(c[k].0@, c[k + 1].0@);
    }
    assert forall|k1: int, k2: int| 0 <= k1 < k2 < c.len() implies c[k1].0@ != c[k2].0@ by {
        lemma_keys_ascend(c, k1, k2);
        lemma_seq_lt_irreflexive(c[k1].0@);
    }
}

/// `Itertools::chunk_by` keyed by origin, with each chunk collected.  Its
/// contract restates the documented behaviour: consecutive dumps with equal
/// origins form one chunk, keyed by that origin, and the chunks hold all
/// dumps in order.
#[verifier::external_body]
fn chunk_by_origin(payloads: Vec<IncomingQuoPayload>) -> (r: Vec<(String, Vec<IncomingQuoPayload>)>)
    ensures
        chunked_by_origin(r@, payloads@),
{
    payloads.into_iter().chunk_by(|p| p.meta.origin.clone()).into_iter().map(
        |(k, g)| (k, g.collect()),
    ).collect()
}

/// The sidebar's groups: the dumps sorted by origin and cut into one chunk
/// per origin.
pub fn origin_groups(payloads: Vec<IncomingQuoPayload>) -> (r: Vec<(String, Vec<IncomingQuoPayload>)>)
    ensures
        chunked_by_origin(r@, stable_sort(PayloadOrder::ByOrigin, payloads@)),
{
    let sorted = sort_payloads(payloads, PayloadOrder::ByOrigin);
    chunk_by_origin(sorted)
}

// ---------------------------------------------------------------------------
// Deleting and selecting
// ---------------------------------------------------------------------------

/// The dumps whose uid is not `uid`, in order.
pub open spec fn without_uid(s: Seq<IncomingQuoPayload>, uid: Seq<char>) -> Seq<IncomingQuoPayload> {
    s.filter(|p: IncomingQuoPayload| p.meta.uid@ != uid)
}

/// Shows a received dump: it goes in front of the list.
pub fn receive_payload(payloads: &mut Vec<IncomingQuoPayload>, payload: IncomingQuoPayload)
    ensures
        final(payloads)@ == seq![payload] + old(payloads)@,
{
    payloads.insert(0, payload);
    assert(payloads@ =~= seq![payload] + old(payloads)@);
}

/// Removes the dumps with the given uid.  The flag tells whether exactly one
/// dump went away (the interface reports success only then).
pub fn delete_payload(payloads: Vec<IncomingQuoPayload>, uid: &str) -> (r: (
    Vec<IncomingQuoPayload>,
    bool,
))
    ensures
        r.0@ == without_uid(payloads@, uid@),
        r.1 == (r.0@.len() + 1 == payloads@.len()),
{
    let ghost input = payloads@;
    let n = payloads.len();
    let u = chars_of(uid);
    let mut rest = payloads;
    let mut kept: Vec<IncomingQuoPayload> = Vec::new();
    let mut i: usize = 0;
    assert(input.skip(0) =~= input);
    proof {
        reveal(Seq::filter);
        assert(input.take(0) =~= Seq::<IncomingQuoPayload>::empty());
    }
    while rest.len() > 0
        invariant
            i + rest@.len() == input.len(),
            n == input.len(),
            rest@ == input.skip(i as int),
            u@ == uid@,
            kept@ == input.take(i as int).filter(|p: IncomingQuoPayload| p.meta.uid@ != uid@),
        decreases rest@.len(),
    {
        let x = rest.remove(0);
        assert(x == input[i as int]);
        assert(rest@ =~= input.skip(i + 1));
        assert(input.take(i + 1) =~= input.take(i as int).push(x));
        proof {
            input.take(i as int).lemma_filter_push(x, |p: IncomingQuoPayload| p.meta.uid@ != uid@);
        }
        let xc = chars_of(x.meta.uid.as_str());
        if !chars_eq(xc.as_slice(), u.as_slice()) {
            kept.push(x);
        }
        i = i + 1;
    }
    assert(input.take(i as int) =~= input);
    proof {
        input.lemma_filter_len(|p: IncomingQuoPayload| p.meta.uid@ != uid@);
    }
    let deleted_one = kept.len() < n && kept.len() + 1 == n;
    (kept, deleted_one)
}

proof fn lemma_without_uid_keeps_others(s: Seq<IncomingQuoPayload>, uid: Seq<char>)
    requires
        forall|i: int| 0 <= i < s.len() ==> (#[trigger] s[i]).meta.uid@ != uid,
    ensures
        without_uid(s, uid) == s,
    decreases s.len(),
{
    reveal(Seq::filter);
    if s.len() > 0 {
        lemma_without_uid_keeps_others(s.drop_last(), uid);
        s.drop_last().lemma_filter_push(s.last(), |p: IncomingQuoPayload| p.meta.uid@ != uid);
        assert(s.drop_last().push(s.last()) =~= s);
    }
}

/// Deleting a dump just received, whose uid no other shown dump has, gives
/// back the list as it was and counts as the deletion of one dump.
pub proof fn lemma_delete_undoes_receive(s: Seq<IncomingQuoPayload>, p: IncomingQuoPayload)
    requires
        forall|i: int| 0 <= i < s.len() ==> (#[trigger] s[i]).meta.uid@ != p.meta.uid@,
    ensures
        without_uid(seq![p] + s, p.meta.uid@) == s,
        without_uid(seq![p] + s, p.meta.uid@).len() + 1 == (seq![p] + s).len(),
{
    s.lemma_filter_prepend(p, |q: IncomingQuoPayload| q.meta.uid@ != p.meta.uid@);
    lemma_without_uid_keeps_others(s, p.meta.uid@);
    assert(Seq::<IncomingQuoPayload>::empty() + s =~= s);
}

/// Index of the first of `uids` equal to `uid`.
pub open spec fn position_of(uids: Seq<Seq<char>>, uid: Seq<char>) -> Option<int> {
    if exists|i: int| 0 <= i < uids.len() && uids[i] == uid {
        Some(choose|i: int| 0 <= i < uids.len() && uids[i] == uid && forall|j: int| 0 <= j < i ==> uids[j] != uid)
    } else {
        None
    }
}

/// Views of a list of strings.
pub open spec fn uids_view(v: Seq<String>) -> Seq<Seq<char>> {
    v.map_values(|s: String| s@)
}

/// Index of the first string of `v` equal to `s` (see [`position_of`]).
pub fn find_string(v: &Vec<String>, s: &str) -> (r: Option<usize>)
    ensures
        match r {
            Some(i) => i < v@.len() && v@[i as int]@ == s@ && position_of(uids_view(v@), s@) == Some(
                i as int,
            ),
            None => position_of(uids_view(v@), s@) is None,
        },
{
    let ghost w = uids_view(v@);
    let u = chars_of(s);
    let mut i: usize = 0;
    while i < v.len()
        invariant
            i <= v@.len(),
            w == uids_view(v@),
            u@ == s@,
            forall|j: int| 0 <= j < i ==> w[j] != s@,
        decreases v@.len() - i,
    {
        let c = chars_of(v[i].as_str());
        if chars_eq(c.as_slice(), u.as_slice()) {
            assert(w[i as int] == s@);
            assert(position_of(w, s@) == Some(i as int)) by {
                let p = choose|p: int|
                    0 <= p < w.len() && w[p] == s@ && forall|j: int| 0 <= j < p ==> w[j] != s@;
                assert(exists|p: int|
                    0 <= p < w.len() && w[p] == s@ && forall|j: int| 0 <= j < p ==> w[j] != s@);
                if p < i {
                } else if p > i {
                    assert(w[i as int] != s@);
                }
            }
            return Some(i);
        }
        i = i + 1;
    }
    None
}

/// Selects or deselects a dump for diffing: a selected uid is removed, an
/// unselected one is added while fewer than two are selected, and otherwise
/// nothing changes and `false` is returned (the interface then warns that at
/// most two dumps can be compared).
pub fn toggle_selection(uids: &mut Vec<String>, uid: &str) -> (accepted: bool)
    ensures
        match position_of(uids_view(old(uids)@), uid@) {
            Some(p) => accepted && uids_view(final(uids)@) == uids_view(old(uids)@).remove(p),
            None => if old(uids)@.len() < 2 {
                accepted && uids_view(final(uids)@) == uids_view(old(uids)@).push(uid@)
            } else {
                !accepted && final(uids)@ == old(uids)@
            },
        },
        old(uids)@.len() <= 2 ==> final(uids)@.len() <= 2,
{
    let ghost v = uids_view(uids@);
    match find_string(uids, uid) {
        Some(i) => {
            uids.remove(i);
            assert(uids_view(uids@) =~= v.remove(i as int));
            true
        },
        None => {
            if uids.len() < 2 {
                let u = chars_of(uid);
                uids.push(string_of(u.as_slice()));
                assert(uids_view(uids@) =~= v.push(uid@));
                true
            } else {
                false
            }
        },
    }
}

/// Clearing the entries (from the sidebar or through the endpoint): no dump
/// is shown or selected, diff mode is off and no origin is filtered on.
pub fn clear_entries(
    payloads: &mut Vec<IncomingQuoPayload>,
    selected_uids: &mut Vec<String>,
    diff_mode: &mut bool,
    selected_group: &mut Option<String>,
)
    ensures
        final(payloads)@.len() == 0,
        final(selected_uids)@.len() == 0,
        !*final(diff_mode),
        *final(selected_group) is None,
{
    payloads.clear();
    selected_uids.clear();
    *diff_mode = false;
    *selected_group = None;
}

} // verus!
