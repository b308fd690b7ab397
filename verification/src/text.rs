//! Character-level string helpers shared by the rest of the crate.
//!
//! Strings are modelled by their `Seq<char>` view.  Searching, splitting and
//! trimming work on `Vec<char>` and are specified by the spec functions below.

use vstd::prelude::*;

verus! {

/// What `str::to_lowercase` returns for a text: its characters mapped to
/// their Unicode lowercase forms.
pub uninterp spec fn lowercase(s: Seq<char>) -> Seq<char>;

/// `str::to_lowercase`; its result is named by [`lowercase`].
#[verifier::external_body]
pub(crate) fn to_lowercase(s: &str) -> (r: String)
    ensures
        r@ == lowercase(s@),
{
    s.to_lowercase()
}

/// Pushes one character onto a `String` (`String::push`).
#[verifier::external_body]
pub(crate) fn push_char(s: &mut String, c: char)
    ensures
        final(s)@ == old(s)@.push(c),
{
    s.push(c);
}

/// The characters of a string slice, in order.
pub fn chars_of(s: &str) -> (v: Vec<char>)
    ensures
        v@ == s@,
{
    let mut v: Vec<char> = Vec::new();
    for c in iter: s.chars()
        invariant
            v@ == iter.seq().take(iter.index() as int),
    {
        v.push(c);
    }
    v
}

/// Builds a `String` holding exactly the given characters.
pub fn string_of(v: &[char]) -> (s: String)
    ensures
        s@ == v@,
{
    let mut s = String::new();
    let mut i: usize = 0;
    while i < v.len()
        invariant
            i <= v@.len(),
            s@ == v@.take(i as int),
        decreases v@.len() - i,
    {
        push_char(&mut s, v[i]);
        i = i + 1;
        assert(s@ == v@.take(i as int));
    }
    assert(v@.take(v@.len() as int) == v@);
    s
}

/// Appends all characters of `v` to `out`.
pub fn push_all(out: &mut Vec<char>, v: &[char])
    ensures
        final(out)@ == old(out)@ + v@,
{
    let mut i: usize = 0;
    while i < v.len()
        invariant
            i <= v@.len(),
            out@ == old(out)@ + v@.take(i as int),
        decreases v@.len() - i,
    {
        out.push(v[i]);
        i = i + 1;
        assert(out@ == old(out)@ + v@.take(i as int));
    }
    assert(v@.take(v@.len() as int) == v@);
}

/// Appends the characters of `s` to `out`.
pub fn push_str(out: &mut Vec<char>, s: &str)
    ensures
        final(out)@ == old(out)@ + s@,
{
    let v = chars_of(s);
    push_all(out, v.as_slice());
}

/// Appends `n` space characters to `out`.
pub fn push_spaces(out: &mut Vec<char>, n: usize)
    ensures
        final(out)@ == old(out)@ + spaces(n as nat),
{
    let mut i: usize = 0;
    while i < n
        invariant
            i <= n,
            out@ == old(out)@ + spaces(i as nat),
        decreases n - i,
    {
        out.push(' ');
        i = i + 1;
        assert(out@ == old(out)@ + spaces(i as nat));
    }
}

/// A run of `n` spaces.
pub open spec fn spaces(n: nat) -> Seq<char> {
    Seq::new(n, |_i: int| ' ')
}

// ---------------------------------------------------------------------------
// Whitespace
// ---------------------------------------------------------------------------

/// The Unicode `White_Space` property, which is what `char::is_whitespace`
/// tests.
pub open spec fn is_ws(c: char) -> bool {
    let u = c as u32;
    ||| 0x09 <= u <= 0x0D
    ||| u == 0x20
    ||| u == 0x85
    ||| u == 0xA0
    ||| u == 0x1680
    ||| 0x2000 <= u <= 0x200A
    ||| u == 0x2028
    ||| u == 0x2029
    ||| u == 0x202F
    ||| u == 0x205F
    ||| u == 0x3000
}

/// Executable form of [`is_ws`].
pub fn is_whitespace(c: char) -> (b: bool)
    ensures
        b == is_ws(c),
{
    let u = c as u32;
    (0x09 <= u && u <= 0x0D) || u == 0x20 || u == 0x85 || u == 0xA0 || u == 0x1680 || (0x2000
        <= u && u <= 0x200A) || u == 0x2028 || u == 0x2029 || u == 0x202F || u == 0x205F || u
        == 0x3000
}

/// Number of leading whitespace characters of `s`.
pub open spec fn leading_ws(s: Seq<char>) -> nat
    decreases s.len(),
{
    if s.len() > 0 && is_ws(s[0]) {
        1 + leading_ws(s.drop_first())
    } else {
        0
    }
}

/// Number of trailing whitespace characters of `s`.
pub open spec fn trailing_ws(s: Seq<char>) -> nat
    decreases s.len(),
{
    if s.len() > 0 && is_ws(s.last()) {
        1 + trailing_ws(s.drop_last())
    } else {
        0
    }
}

/// `str::trim_start`: `s` without its leading whitespace.
pub open spec fn trim_start(s: Seq<char>) -> Seq<char> {
    s.skip(leading_ws(s) as int)
}

/// `str::trim_end`: `s` without its trailing whitespace.
pub open spec fn trim_end(s: Seq<char>) -> Seq<char> {
    s.take(s.len() - trailing_ws(s))
}

/// `str::trim`: `s` without leading and trailing whitespace.
pub open spec fn trim(s: Seq<char>) -> Seq<char> {
    trim_end(trim_start(s))
}

/// `s` with every whitespace character removed.
pub open spec fn strip_ws(s: Seq<char>) -> Seq<char> {
    s.filter(|c: char| !is_ws(c))
}

pub proof fn lemma_leading_ws(s: Seq<char>)
    ensures
        leading_ws(s) <= s.len(),
        forall|i: int| 0 <= i < leading_ws(s) ==> is_ws(#[trigger] s[i]),
        leading_ws(s) < s.len() ==> !is_ws(s[leading_ws(s) as int]),
    decreases s.len(),
{
    if s.len() > 0 && is_ws(s[0]) {
        lemma_leading_ws(s.drop_first());
        assert forall|i: int| 0 <= i < leading_ws(s) implies is_ws(#[trigger] s[i]) by {
            if i > 0 {
                assert(s[i] == s.drop_first()[i - 1]);
            }
        }
    }
}

pub proof fn lemma_trailing_ws(s: Seq<char>)
    ensures
        trailing_ws(s) <= s.len(),
        forall|i: int| s.len() - trailing_ws(s) <= i < s.len() ==> is_ws(#[trigger] s[i]),
        trailing_ws(s) < s.len() ==> !is_ws(s[s.len() - trailing_ws(s) - 1]),
    decreases s.len(),
{
    if s.len() > 0 && is_ws(s.last()) {
        lemma_trailing_ws(s.drop_last());
        assert forall|i: int| s.len() - trailing_ws(s) <= i < s.len() implies is_ws(
            #[trigger] s[i],
        ) by {
            if i < s.len() - 1 {
                assert(s[i] == s.drop_last()[i]);
            }
        }
    }
}

pub proof fn lemma_strip_ws_concat(a: Seq<char>, b: Seq<char>)
    ensures
        strip_ws(a + b) == strip_ws(a) + strip_ws(b),
{
    Seq::filter_distributes_over_add(a, b, |c: char| !is_ws(c));
}

pub proof fn lemma_strip_ws_push(s: Seq<char>, c: char)
    ensures
        strip_ws(s.push(c)) == if is_ws(c) {
            strip_ws(s)
        } else {
            strip_ws(s).push(c)
        },
{
    s.lemma_filter_push(c, |c: char| !is_ws(c));
}

pub proof fn lemma_strip_ws_empty()
    ensures
        strip_ws(Seq::<char>::empty()) == Seq::<char>::empty(),
{
    reveal(Seq::filter);
}

pub proof fn lemma_strip_ws_all_ws(s: Seq<char>)
    requires
        forall|i: int| 0 <= i < s.len() ==> is_ws(#[trigger] s[i]),
    ensures
        strip_ws(s) == Seq::<char>::empty(),
    decreases s.len(),
{
    if s.len() == 0 {
        lemma_strip_ws_empty();
        assert(s =~= Seq::<char>::empty());
    } else {
        let t = s.drop_last();
        assert forall|i: int| 0 <= i < t.len() implies is_ws(#[trigger] t[i]) by {
            assert(t[i] == s[i]);
        }
        lemma_strip_ws_all_ws(t);
        assert(t.push(s.last()) =~= s);
        lemma_strip_ws_push(t, s.last());
    }
}

pub proof fn lemma_strip_ws_first(s: Seq<char>)
    requires
        s.len() > 0,
    ensures
        strip_ws(s) == (if is_ws(s[0]) {
            Seq::<char>::empty()
        } else {
            seq![s[0]]
        }) + strip_ws(s.drop_first()),
{
    assert(s =~= seq![s[0]] + s.drop_first());
    lemma_strip_ws_concat(seq![s[0]], s.drop_first());
    lemma_strip_ws_empty();
    assert(seq![s[0]] =~= Seq::<char>::empty().push(s[0]));
    lemma_strip_ws_push(Seq::<char>::empty(), s[0]);
    assert(Seq::<char>::empty().push(s[0]) =~= seq![s[0]]);
}

pub proof fn lemma_strip_ws_trim(s: Seq<char>)
    ensures
        strip_ws(trim(s)) == strip_ws(s),
{
    lemma_leading_ws(s);
    let a = leading_ws(s) as int;
    let t = trim_start(s);
    assert(s =~= s.take(a) + t);
    assert forall|i: int| 0 <= i < s.take(a).len() implies is_ws(#[trigger] s.take(a)[i]) by {
        assert(s.take(a)[i] == s[i]);
    }
    lemma_strip_ws_all_ws(s.take(a));
    lemma_strip_ws_concat(s.take(a), t);
    lemma_trailing_ws(t);
    let b = t.len() - trailing_ws(t);
    assert(t =~= t.take(b) + t.skip(b));
    assert forall|i: int| 0 <= i < t.skip(b).len() implies is_ws(#[trigger] t.skip(b)[i]) by {
        assert(t.skip(b)[i] == t[b + i]);
    }
    lemma_strip_ws_all_ws(t.skip(b));
    lemma_strip_ws_concat(t.take(b), t.skip(b));
    assert(strip_ws(s.take(a)) + strip_ws(t) =~= strip_ws(t));
    assert(strip_ws(t.take(b)) + strip_ws(t.skip(b)) =~= strip_ws(t.take(b)));
}

/// Index of the first non-whitespace character of `v` (or its length).
pub fn count_leading_ws(v: &[char]) -> (n: usize)
    ensures
        n == leading_ws(v@),
{
    let mut i: usize = 0;
    while i < v.len() && is_whitespace(v[i])
        invariant
            i <= v@.len(),
            forall|k: int| 0 <= k < i ==> is_ws(#[trigger] v@[k]),
        decreases v@.len() - i,
    {
        i = i + 1;
    }
    proof {
        lemma_leading_ws_exact(v@, i as nat);
    }
    i
}

/// Number of trailing whitespace characters of `v`.
pub fn count_trailing_ws(v: &[char]) -> (n: usize)
    ensures
        n == trailing_ws(v@),
{
    let mut n: usize = 0;
    while n < v.len() && is_whitespace(v[v.len() - 1 - n])
        invariant
            n <= v@.len(),
            forall|k: int| v@.len() - n <= k < v@.len() ==> is_ws(#[trigger] v@[k]),
        decreases v@.len() - n,
    {
        n = n + 1;
    }
    proof {
        lemma_trailing_ws_exact(v@, n as nat);
    }
    n
}

/// `leading_ws` is characterised by its two defining properties.
pub proof fn lemma_leading_ws_exact(s: Seq<char>, n: nat)
    requires
        n <= s.len(),
        forall|k: int| 0 <= k < n ==> is_ws(#[trigger] s[k]),
        n == s.len() || !is_ws(s[n as int]),
    ensures
        leading_ws(s) == n,
    decreases s.len(),
{
    if n > 0 {
        let t = s.drop_first();
        assert forall|k: int| 0 <= k < n - 1 implies is_ws(#[trigger] t[k]) by {
            assert(t[k] == s[k + 1]);
        }
        if n - 1 < t.len() {
            assert(t[n - 1] == s[n as int]);
        }
        lemma_leading_ws_exact(t, (n - 1) as nat);
        assert(is_ws(s[0]));
    }
}

/// `trailing_ws` is characterised by its two defining properties.
pub proof fn lemma_trailing_ws_exact(s: Seq<char>, n: nat)
    requires
        n <= s.len(),
        forall|k: int| s.len() - n <= k < s.len() ==> is_ws(#[trigger] s[k]),
        n == s.len() || !is_ws(s[s.len() - n - 1]),
    ensures
        trailing_ws(s) == n,
    decreases s.len(),
{
    if n > 0 {
        let t = s.drop_last();
        assert forall|k: int| t.len() - (n - 1) <= k < t.len() implies is_ws(#[trigger] t[k]) by {
            assert(t[k] == s[k]);
        }
        if n - 1 < t.len() {
            assert(t[t.len() - (n - 1) - 1] == s[s.len() - n - 1]);
        }
        lemma_trailing_ws_exact(t, (n - 1) as nat);
        assert(is_ws(s.last()));
    }
}

/// `str::trim_start` on a character slice.
pub fn trim_start_chars(v: &[char]) -> (r: Vec<char>)
    ensures
        r@ == trim_start(v@),
{
    let a = count_leading_ws(v);
    proof {
        lemma_leading_ws(v@);
    }
    slice_chars(v, a, v.len())
}

/// `str::trim_end` on a character slice.
pub fn trim_end_chars(v: &[char]) -> (r: Vec<char>)
    ensures
        r@ == trim_end(v@),
{
    let b = count_trailing_ws(v);
    proof {
        lemma_trailing_ws(v@);
    }
    slice_chars(v, 0, v.len() - b)
}

/// `str::trim` on a character slice.
pub fn trim_chars(v: &[char]) -> (r: Vec<char>)
    ensures
        r@ == trim(v@),
{
    let t = trim_start_chars(v);
    trim_end_chars(t.as_slice())
}

// ---------------------------------------------------------------------------
// Searching and splitting
// ---------------------------------------------------------------------------

/// `pat` occurs in `s` at position `i`.
pub open spec fn matches_at(s: Seq<char>, pat: Seq<char>, i: int) -> bool {
    0 <= i && i + pat.len() <= s.len() && s.subrange(i, i + pat.len()) == pat
}

/// Position of the first occurrence of `pat` in `s` at or after `from`.
pub open spec fn find_from(s: Seq<char>, pat: Seq<char>, from: int) -> Option<int>
    decreases s.len() + 1 - from,
{
    if from < 0 || from + pat.len() > s.len() {
        None
    } else if matches_at(s, pat, from) {
        Some(from)
    } else {
        find_from(s, pat, from + 1)
    }
}

/// `str::contains`: `pat` occurs somewhere in `s`.
pub open spec fn contains_seq(s: Seq<char>, pat: Seq<char>) -> bool {
    find_from(s, pat, 0) is Some
}

/// `str::starts_with`.
pub open spec fn starts_with(s: Seq<char>, pat: Seq<char>) -> bool {
    pat.len() <= s.len() && s.take(pat.len() as int) == pat
}

/// `str::ends_with`.
pub open spec fn ends_with(s: Seq<char>, pat: Seq<char>) -> bool {
    pat.len() <= s.len() && s.skip(s.len() - pat.len()) == pat
}

pub proof fn lemma_find_from(s: Seq<char>, pat: Seq<char>, from: int)
    requires
        0 <= from,
    ensures
        find_from(s, pat, from) matches Some(i) ==> from <= i && i + pat.len() <= s.len()
            && matches_at(s, pat, i) && forall|j: int| from <= j < i ==> !matches_at(s, pat, j),
        find_from(s, pat, from) is None ==> forall|j: int|
            from <= j ==> !#[trigger] matches_at(s, pat, j),
    decreases s.len() + 1 - from,
{
    if from + pat.len() > s.len() {
    } else if matches_at(s, pat, from) {
    } else {
        lemma_find_from(s, pat, from + 1);
    }
}

/// The pieces of `s` from `start` on, cut at the non-overlapping occurrences
/// of `sep` found from left to right (`str::split`).
pub open spec fn split_from(s: Seq<char>, sep: Seq<char>, start: int) -> Seq<Seq<char>>
    decreases s.len() - start,
    when 0 <= start <= s.len() && sep.len() > 0
{
    match find_from(s, sep, start) {
        None => seq![s.subrange(start, s.len() as int)],
        Some(i) => {
            proof {
                lemma_find_from(s, sep, start);
            }
            seq![s.subrange(start, i)] + split_from(s, sep, i + sep.len())
        },
    }
}

/// `str::split` with a non-empty separator.
pub open spec fn split_by(s: Seq<char>, sep: Seq<char>) -> Seq<Seq<char>> {
    split_from(s, sep, 0)
}

/// Whether `pat` occurs in `s` at position `i`.
pub fn matches_at_exec(s: &[char], pat: &[char], i: usize) -> (b: bool)
    ensures
        b == matches_at(s@, pat@, i as int),
{
    if i > s.len() || pat.len() > s.len() - i {
        return false;
    }
    let mut k: usize = 0;
    while k < pat.len()
        invariant
            k <= pat.len(),
            i + pat.len() <= s.len(),
            forall|j: int| 0 <= j < k ==> s@[i + j] == pat@[j],
        decreases pat@.len() - k,
    {
        if s[i + k] != pat[k] {
            assert(s@.subrange(i as int, i + pat@.len())[k as int] != pat@[k as int]);
            return false;
        }
        k = k + 1;
    }
    assert(s@.subrange(i as int, i + pat@.len()) =~= pat@);
    true
}

/// `find_from` on character slices.
pub fn find_chars(s: &[char], pat: &[char], from: usize) -> (r: Option<usize>)
    ensures
        match r {
            Some(i) => find_from(s@, pat@, from as int) == Some(i as int),
            None => find_from(s@, pat@, from as int) is None,
        },
{
    if pat.len() > s.len() {
        return None;
    }
    let mut i = from;
    while i <= s.len() - pat.len()
        invariant
            from <= i,
            pat.len() <= s.len(),
            find_from(s@, pat@, from as int) == find_from(s@, pat@, i as int),
        decreases s@.len() + 1 - i,
    {
        if matches_at_exec(s, pat, i) {
            return Some(i);
        }
        if pat.len() == 0 {
            assert(s@.subrange(i as int, i as int) =~= pat@);
        }
        i = i + 1;
    }
    None
}

/// Position of the last occurrence of `pat` in `s` starting at or before
/// `i`.
pub open spec fn rfind_upto(s: Seq<char>, pat: Seq<char>, i: int) -> Option<int>
    decreases i + 1,
{
    if i < 0 {
        None
    } else if matches_at(s, pat, i) {
        Some(i)
    } else {
        rfind_upto(s, pat, i - 1)
    }
}

/// `str::rfind`: position of the last occurrence of `pat` in `s`.
pub open spec fn rfind_seq(s: Seq<char>, pat: Seq<char>) -> Option<int> {
    rfind_upto(s, pat, s.len() - pat.len())
}

/// `rfind_seq` on character slices.
pub fn rfind_chars(s: &[char], pat: &[char]) -> (r: Option<usize>)
    ensures
        match r {
            Some(i) => rfind_seq(s@, pat@) == Some(i as int) && matches_at(s@, pat@, i as int),
            None => rfind_seq(s@, pat@) is None,
        },
{
    if pat.len() > s.len() {
        return None;
    }
    let mut i: usize = s.len() - pat.len();
    loop
        invariant
            pat.len() <= s.len(),
            i <= s.len() - pat.len(),
            rfind_seq(s@, pat@) == rfind_upto(s@, pat@, i as int),
        decreases i,
    {
        if matches_at_exec(s, pat, i) {
            return Some(i);
        }
        if i == 0 {
            return None;
        }
        i = i - 1;
    }
}

/// `str::contains` on character slices.
pub fn contains_chars(s: &[char], pat: &[char]) -> (b: bool)
    ensures
        b == contains_seq(s@, pat@),
{
    find_chars(s, pat, 0).is_some()
}

/// `str::starts_with` on character slices.
pub fn starts_with_chars(s: &[char], pat: &[char]) -> (b: bool)
    ensures
        b == starts_with(s@, pat@),
{
    if pat.len() > s.len() {
        return false;
    }
    let b = matches_at_exec(s, pat, 0);
    assert(s@.subrange(0, pat@.len() as int) == s@.take(pat@.len() as int));
    b
}

/// `str::ends_with` on character slices.
pub fn ends_with_chars(s: &[char], pat: &[char]) -> (b: bool)
    ensures
        b == ends_with(s@, pat@),
{
    if pat.len() > s.len() {
        return false;
    }
    let b = matches_at_exec(s, pat, s.len() - pat.len());
    assert(s@.subrange(s@.len() - pat@.len(), s@.len() as int) == s@.skip(
        s@.len() - pat@.len(),
    ));
    b
}

/// Copies `s[a..b]`.
pub fn slice_chars(s: &[char], a: usize, b: usize) -> (r: Vec<char>)
    requires
        a <= b <= s@.len(),
    ensures
        r@ == s@.subrange(a as int, b as int),
{
    let mut r: Vec<char> = Vec::new();
    let mut i = a;
    while i < b
        invariant
            a <= i <= b,
            b <= s@.len(),
            r@ == s@.subrange(a as int, i as int),
        decreases b - i,
    {
        r.push(s[i]);
        i = i + 1;
    }
    r
}

/// `str::split` on character slices: the pieces between the non-overlapping
/// occurrences of `sep`.
pub fn split_chars(s: &[char], sep: &[char]) -> (parts: Vec<Vec<char>>)
    requires
        sep@.len() > 0,
    ensures
        parts.deep_view() == split_by(s@, sep@),
{
    let mut parts: Vec<Vec<char>> = Vec::new();
    let mut start: usize = 0;
    loop
        invariant
            start <= s@.len(),
            sep@.len() > 0,
            parts.deep_view() + split_from(s@, sep@, start as int) == split_by(s@, sep@),
        decreases s@.len() - start,
    {
        match find_chars(s, sep, start) {
            None => {
                let piece = slice_chars(s, start, s.len());
                let ghost before = parts.deep_view();
                assert(piece.deep_view() =~= piece@);
                parts.push(piece);
                assert(parts.deep_view() =~= before.push(piece@));
                assert(split_from(s@, sep@, start as int) == seq![s@.subrange(
                    start as int,
                    s@.len() as int,
                )]);
                assert(parts.deep_view() =~= before + split_from(s@, sep@, start as int));
                return parts;
            },
            Some(i) => {
                proof {
                    lemma_find_from(s@, sep@, start as int);
                }
                assert(start <= i && i + sep@.len() <= s@.len());
                assert(i + sep.len() <= s.len());
                let piece = slice_chars(s, start, i);
                let ghost before = parts.deep_view();
                assert(piece.deep_view() =~= piece@);
                parts.push(piece);
                assert(parts.deep_view() =~= before.push(piece@));
                let next = i + sep.len();
                assert(split_from(s@, sep@, start as int) == seq![s@.subrange(start as int, i as int)]
                    + split_from(s@, sep@, next as int));
                assert(parts.deep_view() + split_from(s@, sep@, next as int) =~= before
                    + split_from(s@, sep@, start as int));
                start = next;
            },
        }
    }
}

/// `str::split` yields at least one piece.
pub proof fn lemma_split_from_nonempty(s: Seq<char>, sep: Seq<char>, start: int)
    requires
        0 <= start <= s.len(),
        sep.len() > 0,
    ensures
        split_from(s, sep, start).len() >= 1,
{
    match find_from(s, sep, start) {
        None => {},
        Some(i) => {
            lemma_find_from(s, sep, start);
        },
    }
}

/// The first match of `pat` at or after `from` is at `i`.
pub proof fn lemma_find_from_exact(s: Seq<char>, pat: Seq<char>, from: int, i: int)
    requires
        0 <= from <= i,
        matches_at(s, pat, i),
        forall|j: int| from <= j < i ==> !#[trigger] matches_at(s, pat, j),
    ensures
        find_from(s, pat, from) == Some(i),
    decreases i - from,
{
    if from < i {
        assert(!matches_at(s, pat, from));
        lemma_find_from_exact(s, pat, from + 1, i);
    }
}

/// No match of `pat` at or after `from`.
pub proof fn lemma_find_from_absent(s: Seq<char>, pat: Seq<char>, from: int)
    requires
        0 <= from,
        forall|j: int| from <= j ==> !#[trigger] matches_at(s, pat, j),
    ensures
        find_from(s, pat, from) is None,
    decreases s.len() + 1 - from,
{
    if from + pat.len() <= s.len() {
        assert(!matches_at(s, pat, from));
        lemma_find_from_absent(s, pat, from + 1);
    }
}

/// Splitting `a + sep + m + sep + b` gives the three pieces when `sep`
/// occurs nowhere else.
pub proof fn lemma_split_three(r: Seq<char>, sep: Seq<char>, a: Seq<char>, m: Seq<char>, b: Seq<char>)
    requires
        sep.len() > 0,
        r == a + sep + m + sep + b,
        forall|j: int| 0 <= j < a.len() ==> !#[trigger] matches_at(r, sep, j),
        forall|j: int|
            a.len() + sep.len() <= j < a.len() + sep.len() + m.len() ==> !#[trigger] matches_at(
                r,
                sep,
                j,
            ),
        forall|j: int| a.len() + 2 * sep.len() + m.len() <= j ==> !#[trigger] matches_at(r, sep, j),
    ensures
        split_by(r, sep) == seq![a, m, b],
{
    let i1 = a.len() as int;
    let i2 = i1 + sep.len() + m.len();
    let i3 = i2 + sep.len();
    assert(r.subrange(i1, i1 + sep.len()) =~= sep);
    assert(r.subrange(i2, i2 + sep.len()) =~= sep);
    lemma_find_from_exact(r, sep, 0, i1);
    lemma_find_from_exact(r, sep, i1 + sep.len(), i2);
    lemma_find_from_absent(r, sep, i3);
    assert(r.subrange(0, i1) =~= a);
    assert(r.subrange(i1 + sep.len(), i2) =~= m);
    assert(r.subrange(i3, r.len() as int) =~= b);
    assert(split_from(r, sep, i3) == seq![b]);
    assert(split_from(r, sep, i1 + sep.len()) == seq![m] + seq![b]);
    assert(split_by(r, sep) == seq![a] + (seq![m] + seq![b]));
    assert(seq![a] + (seq![m] + seq![b]) =~= seq![a, m, b]);
}

/// The last piece of a split from `start`: the text from some `k` on, with
/// no match of `sep` from `k` on, and `k` past the first match when there is
/// one.
pub proof fn lemma_split_last(s: Seq<char>, sep: Seq<char>, start: int) -> (k: int)
    requires
        0 <= start <= s.len(),
        sep.len() > 0,
    ensures
        start <= k <= s.len(),
        split_from(s, sep, start).len() >= 1,
        split_from(s, sep, start).last() == s.subrange(k, s.len() as int),
        find_from(s, sep, k) is None,
        find_from(s, sep, start) matches Some(i) ==> k >= i + sep.len(),
    decreases s.len() - start,
{
    lemma_find_from(s, sep, start);
    match find_from(s, sep, start) {
        None => start,
        Some(i) => {
            let k = lemma_split_last(s, sep, i + sep.len());
            let rest = split_from(s, sep, i + sep.len());
            assert((seq![s.subrange(start, i)] + rest).last() == rest.last());
            k
        },
    }
}

/// Splitting from `start` gives more than two pieces exactly when there is a
/// match at or after `start` and another one after it.
pub proof fn lemma_split_len(s: Seq<char>, sep: Seq<char>, start: int)
    requires
        0 <= start <= s.len(),
        sep.len() > 0,
    ensures
        find_from(s, sep, start) is None ==> split_from(s, sep, start).len() == 1,
        find_from(s, sep, start) matches Some(i) ==> {
            &&& i + sep.len() <= s.len()
            &&& split_from(s, sep, start)[0] == s.subrange(start, i)
            &&& (split_from(s, sep, start).len() > 2 <==> find_from(s, sep, i + sep.len()) is Some)
        },
{
    lemma_find_from(s, sep, start);
    match find_from(s, sep, start) {
        None => {},
        Some(i) => {
            lemma_find_from(s, sep, i + sep.len());
            lemma_split_from_nonempty(s, sep, i + sep.len());
            match find_from(s, sep, i + sep.len()) {
                None => {},
                Some(i2) => {
                    lemma_split_from_nonempty(s, sep, i2 + sep.len());
                },
            }
        },
    }
}

/// Position of the last occurrence of `c` in `s` (`str::rfind`).
pub open spec fn last_index_of(s: Seq<char>, c: char) -> Option<int>
    decreases s.len(),
{
    if s.len() == 0 {
        None
    } else if s.last() == c {
        Some(s.len() - 1)
    } else {
        last_index_of(s.drop_last(), c)
    }
}

pub proof fn lemma_last_index_of(s: Seq<char>, c: char)
    ensures
        last_index_of(s, c) matches Some(i) ==> 0 <= i < s.len() && s[i] == c && forall|j: int|
            i < j < s.len() ==> s[j] != c,
        last_index_of(s, c) is None ==> forall|j: int| 0 <= j < s.len() ==> s[j] != c,
    decreases s.len(),
{
    if s.len() > 0 && s.last() != c {
        lemma_last_index_of(s.drop_last(), c);
        assert forall|j: int| 0 <= j < s.len() - 1 implies s[j] == s.drop_last()[j] by {}
    }
}

/// `str::rfind` for one character.
pub fn last_index_of_char(s: &[char], c: char) -> (r: Option<usize>)
    ensures
        match r {
            Some(i) => last_index_of(s@, c) == Some(i as int),
            None => last_index_of(s@, c) is None,
        },
{
    let mut k: usize = s.len();
    assert(s@.take(k as int) =~= s@);
    while k > 0
        invariant
            k <= s@.len(),
            last_index_of(s@, c) == last_index_of(s@.take(k as int), c),
        decreases k,
    {
        assert(s@.take(k as int).drop_last() =~= s@.take(k - 1));
        if s[k - 1] == c {
            return Some(k - 1);
        }
        k = k - 1;
    }
    None
}

// ---------------------------------------------------------------------------
// Lines
// ---------------------------------------------------------------------------

/// The `i`-th line of a text cut at `'\n'` into `parts`: a `'\r'` that
/// precedes the line's `'\n'` is dropped.
pub open spec fn line_at(parts: Seq<Seq<char>>, i: int) -> Seq<char> {
    let p = parts[i];
    if i < parts.len() - 1 && p.len() > 0 && p.last() == '\r' {
        p.drop_last()
    } else {
        p
    }
}

/// `str::lines`: the text cut at `"\n"` and `"\r\n"`; a final line ending
/// adds no empty line, and the empty text has no lines.
pub open spec fn lines_of(s: Seq<char>) -> Seq<Seq<char>> {
    if s.len() == 0 {
        Seq::empty()
    } else {
        let parts = split_by(s, seq!['\n']);
        let n: int = if s.last() == '\n' {
            parts.len() - 1
        } else {
            parts.len() as int
        };
        Seq::new(n as nat, |i: int| line_at(parts, i))
    }
}

/// `str::lines` on a character slice.
pub fn lines_chars(s: &[char]) -> (r: Vec<Vec<char>>)
    ensures
        r.deep_view() == lines_of(s@),
{
    let mut r: Vec<Vec<char>> = Vec::new();
    if s.len() == 0 {
        assert(r.deep_view() =~= lines_of(s@));
        return r;
    }
    let nl: Vec<char> = vec!['\n'];
    assert(nl@ =~= seq!['\n']);
    let parts = split_chars(s, nl.as_slice());
    proof {
        lemma_split_from_nonempty(s@, nl@, 0);
    }
    let ghost pv = parts.deep_view();
    let count = if s[s.len() - 1] == '\n' {
        if parts.len() == 0 {
            0
        } else {
            parts.len() - 1
        }
    } else {
        parts.len()
    };
    assert(count == lines_of(s@).len());
    let mut i: usize = 0;
    while i < count
        invariant
            i <= count,
            count <= parts@.len(),
            count == lines_of(s@).len(),
            pv == parts.deep_view(),
            pv == split_by(s@, seq!['\n']),
            s@.len() > 0,
            r.deep_view() =~= lines_of(s@).take(i as int),
        decreases count - i,
    {
        let p = &parts[i];
        assert(p@ == pv[i as int]);
        let line = if i + 1 < parts.len() && p.len() > 0 && p[p.len() - 1] == '\r' {
            slice_chars(p.as_slice(), 0, p.len() - 1)
        } else {
            slice_chars(p.as_slice(), 0, p.len())
        };
        assert(line@ == line_at(pv, i as int));
        assert(line.deep_view() =~= line@);
        let ghost before = r.deep_view();
        r.push(line);
        assert(r.deep_view() =~= before.push(line@));
        i = i + 1;
    }
    r
}

/// The lines joined with `'\n'` between them.
pub open spec fn join_lines(ls: Seq<Seq<char>>) -> Seq<char>
    decreases ls.len(),
{
    if ls.len() == 0 {
        Seq::empty()
    } else if ls.len() == 1 {
        ls[0]
    } else {
        join_lines(ls.drop_last()) + seq!['\n'] + ls.last()
    }
}

// ---------------------------------------------------------------------------
// UTF-8 byte positions
// ---------------------------------------------------------------------------

/// Number of bytes of `c` in UTF-8.
pub open spec fn utf8_width(c: char) -> nat {
    let u = c as u32;
    if u < 0x80 {
        1
    } else if u < 0x800 {
        2
    } else if u < 0x10000 {
        3
    } else {
        4
    }
}

/// Number of bytes of `s` in UTF-8 (`str::len`).
pub open spec fn utf8_len(s: Seq<char>) -> nat
    decreases s.len(),
{
    if s.len() == 0 {
        0
    } else {
        utf8_width(s[0]) + utf8_len(s.drop_first())
    }
}

/// The number of characters that make up the first `m` bytes of `s`, if
/// byte `m` starts a character (or ends the text).
pub open spec fn byte_boundary(s: Seq<char>, m: nat) -> Option<nat>
    decreases s.len(),
{
    if m == 0 {
        Some(0)
    } else if s.len() == 0 || utf8_width(s[0]) > m {
        None
    } else {
        match byte_boundary(s.drop_first(), (m - utf8_width(s[0])) as nat) {
            Some(k) => Some(k + 1),
            None => None,
        }
    }
}

/// Executable form of [`utf8_width`] (`char::len_utf8`).
pub fn char_width(c: char) -> (w: usize)
    ensures
        w == utf8_width(c),
        1 <= w <= 4,
{
    let u = c as u32;
    if u < 0x80 {
        1
    } else if u < 0x800 {
        2
    } else if u < 0x10000 {
        3
    } else {
        4
    }
}

/// Whether `s` takes at least `m` bytes in UTF-8.
pub fn utf8_len_at_least(s: &[char], m: usize) -> (b: bool)
    ensures
        b == (utf8_len(s@) >= m),
{
    let mut k: usize = 0;
    let mut acc: usize = 0;
    assert(s@.skip(0) =~= s@);
    while k < s.len()
        invariant
            k <= s@.len(),
            acc < m || m == 0,
            acc + utf8_len(s@.skip(k as int)) == utf8_len(s@),
        decreases s@.len() - k,
    {
        if m == 0 {
            return true;
        }
        let w = char_width(s[k]);
        assert(s@.skip(k as int).drop_first() =~= s@.skip(k + 1));
        if w >= m - acc {
            return true;
        }
        acc = acc + w;
        k = k + 1;
    }
    assert(s@.skip(k as int) =~= Seq::<char>::empty());
    m == 0
}

/// Executable form of [`byte_boundary`].
pub fn byte_boundary_exec(s: &[char], m: usize) -> (r: Option<usize>)
    ensures
        match r {
            Some(k) => byte_boundary(s@, m as nat) == Some(k as nat),
            None => byte_boundary(s@, m as nat) is None,
        },
{
    let mut k: usize = 0;
    let mut rem: usize = m;
    assert(s@.skip(0) =~= s@);
    while rem > 0 && k < s.len() && char_width(s[k]) <= rem
        invariant
            k <= s@.len(),
            rem <= m,
            byte_boundary(s@, m as nat) == match byte_boundary(s@.skip(k as int), rem as nat) {
                Some(j) => Some((j + k) as nat),
                None => None,
            },
        decreases s@.len() - k,
    {
        assert(s@.skip(k as int).drop_first() =~= s@.skip(k + 1));
        assert(s@.skip(k as int)[0] == s@[k as int]);
        rem = rem - char_width(s[k]);
        k = k + 1;
    }
    if rem == 0 {
        Some(k)
    } else {
        if k < s.len() {
            assert(s@.skip(k as int)[0] == s@[k as int]);
        }
        None
    }
}

// ---------------------------------------------------------------------------
// Comparison and numbers
// ---------------------------------------------------------------------------

/// Whether two character slices are equal.
pub fn chars_eq(a: &[char], b: &[char]) -> (r: bool)
    ensures
        r == (a@ == b@),
{
    if a.len() != b.len() {
        return false;
    }
    let mut i: usize = 0;
    while i < a.len()
        invariant
            i <= a@.len(),
            a@.len() == b@.len(),
            forall|k: int| 0 <= k < i ==> a@[k] == b@[k],
        decreases a@.len() - i,
    {
        if a[i] != b[i] {
            return false;
        }
        i = i + 1;
    }
    assert(a@ =~= b@);
    true
}

/// Whether two strings are equal.
pub fn str_eq(a: &str, b: &str) -> (r: bool)
    ensures
        r == (a@ == b@),
{
    let x = chars_of(a);
    let y = chars_of(b);
    chars_eq(x.as_slice(), y.as_slice())
}

/// The decimal digit for `d < 10`.
pub open spec fn digit_char(d: nat) -> char {
    if d == 0 {
        '0'
    } else if d == 1 {
        '1'
    } else if d == 2 {
        '2'
    } else if d == 3 {
        '3'
    } else if d == 4 {
        '4'
    } else if d == 5 {
        '5'
    } else if d == 6 {
        '6'
    } else if d == 7 {
        '7'
    } else if d == 8 {
        '8'
    } else {
        '9'
    }
}

/// The decimal notation of `n`, without leading zeros (`u64::to_string`).
pub open spec fn decimal(n: nat) -> Seq<char>
    decreases n,
{
    if n < 10 {
        seq![digit_char(n)]
    } else {
        decimal(n / 10).push(digit_char(n % 10))
    }
}

fn digit_exec(d: u64) -> (c: char)
    requires
        d < 10,
    ensures
        c == digit_char(d as nat),
{
    if d == 0 {
        '0'
    } else if d == 1 {
        '1'
    } else if d == 2 {
        '2'
    } else if d == 3 {
        '3'
    } else if d == 4 {
        '4'
    } else if d == 5 {
        '5'
    } else if d == 6 {
        '6'
    } else if d == 7 {
        '7'
    } else if d == 8 {
        '8'
    } else {
        '9'
    }
}

/// Appends the decimal notation of `n` (see [`decimal`]).
pub fn push_decimal(out: &mut Vec<char>, n: u64)
    ensures
        final(out)@ == old(out)@ + decimal(n as nat),
    decreases n,
{
    if n < 10 {
        out.push(digit_exec(n));
        assert(decimal(n as nat) == seq![digit_char(n as nat)]);
    } else {
        push_decimal(out, n / 10);
        out.push(digit_exec(n % 10));
    }
}

// ---------------------------------------------------------------------------
// Joining and replacing
// ---------------------------------------------------------------------------

/// The pieces joined with `sep` between them (`[&str]::join`).
pub open spec fn join_with(ls: Seq<Seq<char>>, sep: Seq<char>) -> Seq<char>
    decreases ls.len(),
{
    if ls.len() == 0 {
        Seq::empty()
    } else if ls.len() == 1 {
        ls[0]
    } else {
        join_with(ls.drop_last(), sep) + sep + ls.last()
    }
}

/// `str::replace`: every non-overlapping occurrence of `from` (found from
/// left to right) replaced by `to`.
pub open spec fn replace_all(s: Seq<char>, from: Seq<char>, to: Seq<char>) -> Seq<char> {
    join_with(split_by(s, from), to)
}

/// Executable form of [`join_with`].
pub fn join_chars(ls: &Vec<Vec<char>>, sep: &[char]) -> (r: Vec<char>)
    ensures
        r@ == join_with(ls.deep_view(), sep@),
{
    let ghost lv = ls.deep_view();
    let mut r: Vec<char> = Vec::new();
    let mut i: usize = 0;
    while i < ls.len()
        invariant
            i <= ls@.len(),
            lv == ls.deep_view(),
            r@ == join_with(lv.take(i as int), sep@),
        decreases ls@.len() - i,
    {
        assert(ls[i as int]@ == lv[i as int]);
        assert(lv.take(i + 1).drop_last() =~= lv.take(i as int));
        if i > 0 {
            push_all(&mut r, sep);
        } else {
            assert(r@ =~= Seq::<char>::empty());
        }
        push_all(&mut r, ls[i].as_slice());
        i = i + 1;
    }
    assert(lv.take(ls.len() as int) =~= lv);
    r
}

/// `str::replace` on character slices.
pub fn replace_chars(s: &[char], from: &[char], to: &[char]) -> (r: Vec<char>)
    requires
        from@.len() > 0,
    ensures
        r@ == replace_all(s@, from@, to@),
{
    let parts = split_chars(s, from);
    join_chars(&parts, to)
}

/// `str::replace` with a one-character pattern and replacement.
pub fn replace_char(s: &str, from: char, to: char) -> (r: String)
    ensures
        r@ == replace_all(s@, seq![from], seq![to]),
{
    let v = chars_of(s);
    let f: Vec<char> = vec![from];
    let t: Vec<char> = vec![to];
    assert(f@ =~= seq![from]);
    assert(t@ =~= seq![to]);
    let r = replace_chars(v.as_slice(), f.as_slice(), t.as_slice());
    string_of(r.as_slice())
}

/// `str::trim_end_matches` with one character: `s` without the run of `c`
/// at its end.
pub open spec fn trim_end_char(s: Seq<char>, c: char) -> Seq<char>
    decreases s.len(),
{
    if s.len() > 0 && s.last() == c {
        trim_end_char(s.drop_last(), c)
    } else {
        s
    }
}

/// Executable form of [`trim_end_char`].
pub fn trim_end_char_exec(s: &[char], c: char) -> (r: Vec<char>)
    ensures
        r@ == trim_end_char(s@, c),
{
    let mut n = s.len();
    assert(s@.take(n as int) =~= s@);
    while n > 0 && s[n - 1] == c
        invariant
            n <= s@.len(),
            trim_end_char(s@.take(n as int), c) == trim_end_char(s@, c),
        decreases n,
    {
        assert(s@.take(n as int).drop_last() =~= s@.take(n - 1));
        n = n - 1;
    }
    slice_chars(s, 0, n)
}

} // verus!
