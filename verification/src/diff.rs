//! Comparing two rendered dumps line by line.

use vstd::prelude::*;
use similar::{ChangeTag, TextDiff};
use crate::formatter::{format_by_language, renders_as, value_fits};
use crate::payloads::IncomingQuoPayload;
use crate::text::{
    chars_eq, chars_of, lines_chars, lines_of, push_all, push_str, slice_chars, starts_with,
    string_of, trim_start, trim_start_chars,
};

verus! {

/// What happened to a line between the two texts.
#[derive(Debug, Clone, Copy, PartialEq, Eq, Structural)]
pub enum ChangeKind {
    Equal,
    Delete,
    Insert,
}

/// The changes `similar`'s line diff (`TextDiff::from_lines` followed by
/// `iter_all_changes`) reports between two texts, each with its tag and its
/// line as `Change`'s `Display` writes it (with a line break added when the
/// line had none).
pub uninterp spec fn line_diff(first: Seq<char>, second: Seq<char>) -> Seq<(ChangeKind, Seq<char>)>;

/// Views of a list of changes.
pub open spec fn changes_view(v: Seq<(ChangeKind, String)>) -> Seq<(ChangeKind, Seq<char>)> {
    v.map_values(|c: (ChangeKind, String)| (c.0, c.1@))
}

/// `TextDiff::from_lines(first, second).iter_all_changes()`, each change
/// turned into its tag and its `Display` text; the result is named by
/// [`line_diff`].
#[verifier::external_body]
fn diff_lines(first: &str, second: &str) -> (r: Vec<(ChangeKind, String)>)
    ensures
        changes_view(r@) == line_diff(first@, second@),
{
    TextDiff::from_lines(first, second).iter_all_changes().map(
        |c| {
            let kind = match c.tag() {
                ChangeTag::Equal => ChangeKind::Equal,
                ChangeTag::Delete => ChangeKind::Delete,
                ChangeTag::Insert => ChangeKind::Insert,
            };
            (kind, c.to_string())
        },
    ).collect()
}

/// The sign a change is prefixed with: `-` deleted, `+` inserted, a space
/// for an unchanged line.
pub open spec fn sign_of(k: ChangeKind) -> char {
    match k {
        ChangeKind::Delete => '-',
        ChangeKind::Insert => '+',
        ChangeKind::Equal => ' ',
    }
}

/// The changes written one after another, each behind its sign.
pub open spec fn render_diff(cs: Seq<(ChangeKind, Seq<char>)>) -> Seq<char>
    decreases cs.len(),
{
    if cs.len() == 0 {
        Seq::empty()
    } else {
        render_diff(cs.drop_last()) + seq![sign_of(cs.last().0)] + cs.last().1
    }
}

/// Writes the changes one after another, each behind its sign (see
/// [`render_diff`]).
pub fn render_changes(changes: &Vec<(ChangeKind, String)>) -> (r: String)
    ensures
        r@ == render_diff(changes_view(changes@)),
{
    let ghost cv = changes_view(changes@);
    let mut out: Vec<char> = Vec::new();
    let mut i: usize = 0;
    while i < changes.len()
        invariant
            i <= changes@.len(),
            cv == changes_view(changes@),
            out@ == render_diff(cv.take(i as int)),
        decreases changes@.len() - i,
    {
        assert(cv.take(i + 1).drop_last() =~= cv.take(i as int));
        assert(cv[i as int] == (changes@[i as int].0, changes@[i as int].1@));
        let sign = match changes[i].0 {
            ChangeKind::Delete => '-',
            ChangeKind::Insert => '+',
            ChangeKind::Equal => ' ',
        };
        out.push(sign);
        push_str(&mut out, changes[i].1.as_str());
        i = i + 1;
    }
    assert(cv.take(i as int) =~= cv);
    string_of(out.as_slice())
}

/// The line diff of two rendered dumps: every line of either text behind
/// `-` (only in the first), `+` (only in the second) or a space (in both).
pub fn get_diff_for_snippets(first: String, second: String) -> (r: String)
    ensures
        r@ == render_diff(line_diff(first@, second@)),
{
    let changes = diff_lines(first.as_str(), second.as_str());
    render_changes(&changes)
}

// ---------------------------------------------------------------------------
// Showing a diff
// ---------------------------------------------------------------------------

/// How a line of the diff is shown.
#[derive(Debug, Clone, Copy, PartialEq, Eq, Structural)]
pub enum DiffLineKind {
    Added,
    Removed,
    Unchanged,
}

impl DiffLineKind {
    /// The badge next to the line: `Comparison` for added lines, `Source`
    /// for removed ones, nothing otherwise.
    pub fn label(&self) -> (s: &'static str)
        ensures
            s@ == match self {
                DiffLineKind::Added => "Comparison"@,
                DiffLineKind::Removed => "Source"@,
                DiffLineKind::Unchanged => ""@,
            },
    {
        match self {
            DiffLineKind::Added => "Comparison",
            DiffLineKind::Removed => "Source",
            DiffLineKind::Unchanged => "",
        }
    }

    /// The style class of the line.
    pub fn class(&self) -> (s: &'static str)
        ensures
            s@ == match self {
                DiffLineKind::Added => "added"@,
                DiffLineKind::Removed => "removed"@,
                DiffLineKind::Unchanged => "unchanged"@,
            },
    {
        match self {
            DiffLineKind::Added => "added",
            DiffLineKind::Removed => "removed",
            DiffLineKind::Unchanged => "unchanged",
        }
    }
}

/// A line starting with `+` was added, one starting with `-` removed.
pub open spec fn line_kind(line: Seq<char>) -> DiffLineKind {
    if line.len() > 0 && line[0] == '+' {
        DiffLineKind::Added
    } else if line.len() > 0 && line[0] == '-' {
        DiffLineKind::Removed
    } else {
        DiffLineKind::Unchanged
    }
}

/// The text shown for line `i` of `n`: the first and last lines lose their
/// leading whitespace.
pub open spec fn shown_line(line: Seq<char>, i: int, n: int) -> Seq<char> {
    if i == 0 || i == n - 1 {
        trim_start(line)
    } else {
        line
    }
}

/// The lines of a diff as the diff window shows them, each with its kind
/// (decided before trimming).
pub fn diff_view_lines(diff: &str) -> (r: Vec<(DiffLineKind, String)>)
    ensures
        r@.len() == lines_of(diff@).len(),
        forall|i: int|
            0 <= i < r@.len() ==> (#[trigger] r@[i]).0 == line_kind(lines_of(diff@)[i]) && r@[i].1@
                == shown_line(lines_of(diff@)[i], i, r@.len() as int),
{
    let c = chars_of(diff);
    let ls = lines_chars(c.as_slice());
    let ghost lv = ls.deep_view();
    let n = ls.len();
    let mut r: Vec<(DiffLineKind, String)> = Vec::new();
    let mut i: usize = 0;
    while i < n
        invariant
            i <= n,
            n == ls@.len(),
            lv == ls.deep_view(),
            lv == lines_of(diff@),
            r@.len() == i,
            forall|k: int|
                0 <= k < i ==> (#[trigger] r@[k]).0 == line_kind(lv[k]) && r@[k].1@ == shown_line(
                    lv[k],
                    k,
                    n as int,
                ),
        decreases n - i,
    {
        let line = &ls[i];
        assert(line@ == lv[i as int]);
        let kind = if line.len() > 0 && line[0] == '+' {
            DiffLineKind::Added
        } else if line.len() > 0 && line[0] == '-' {
            DiffLineKind::Removed
        } else {
            DiffLineKind::Unchanged
        };
        let text = if i == 0 || i + 1 == n {
            trim_start_chars(line.as_slice())
        } else {
            slice_chars(line.as_slice(), 0, line.len())
        };
        r.push((kind, string_of(text.as_slice())));
        i = i + 1;
    }
    r
}

/// Index of the first dump with the given uid.
pub fn find_payload(payloads: &Vec<IncomingQuoPayload>, uid: &str) -> (r: Option<usize>)
    ensures
        match r {
            Some(i) => i < payloads@.len() && payloads@[i as int].meta.uid@ == uid@ && forall|j: int|
                0 <= j < i ==> payloads@[j].meta.uid@ != uid@,
            None => forall|j: int| 0 <= j < payloads@.len() ==> payloads@[j].meta.uid@ != uid@,
        },
{
    let u = chars_of(uid);
    let mut i: usize = 0;
    while i < payloads.len()
        invariant
            i <= payloads@.len(),
            u@ == uid@,
            forall|j: int| 0 <= j < i ==> payloads@[j].meta.uid@ != uid@,
        decreases payloads@.len() - i,
    {
        let c = chars_of(payloads[i].meta.uid.as_str());
        if chars_eq(c.as_slice(), u.as_slice()) {
            return Some(i);
        }
        i = i + 1;
    }
    None
}

/// Dump `i` is the first with the given uid.
pub open spec fn first_with_uid(s: Seq<IncomingQuoPayload>, uid: Seq<char>, i: int) -> bool {
    &&& 0 <= i < s.len()
    &&& s[i].meta.uid@ == uid
    &&& forall|j: int| 0 <= j < i ==> s[j].meta.uid@ != uid
}

/// Some dump has the given uid.
pub open spec fn has_uid(s: Seq<IncomingQuoPayload>, uid: Seq<char>) -> bool {
    exists|i: int| 0 <= i < s.len() && #[trigger] s[i].meta.uid@ == uid
}

/// The two texts the diff window compares: with exactly two uids selected
/// and a dump for each, the renderings (type names untruncated) of the first
/// dump with the first uid and of the first dump with the second; `None`
/// otherwise.
pub fn diff_sources(payloads: &Vec<IncomingQuoPayload>, uids: &Vec<String>) -> (r: Option<(String, String)>)
    requires
        forall|k: int| 0 <= k < payloads@.len() ==> value_fits(#[trigger] payloads@[k].meta.variable),
    ensures
        r is Some <==> (uids@.len() == 2 && has_uid(payloads@, uids@[0]@) && has_uid(
            payloads@,
            uids@[1]@,
        )),
        r matches Some(texts) ==> exists|i: int, j: int|
            #![trigger first_with_uid(payloads@, uids@[0]@, i), first_with_uid(payloads@, uids@[1]@, j)]
            first_with_uid(payloads@, uids@[0]@, i) && first_with_uid(payloads@, uids@[1]@, j)
                && renders_as(payloads@[i], false, texts.0@) && renders_as(
                payloads@[j],
                false,
                texts.1@,
            ),
{
    if uids.len() != 2 {
        return None;
    }
    let i = match find_payload(payloads, uids[0].as_str()) {
        Some(i) => i,
        None => {
            assert(!has_uid(payloads@, uids@[0]@));
            return None;
        },
    };
    let j = match find_payload(payloads, uids[1].as_str()) {
        Some(j) => j,
        None => {
            assert(!has_uid(payloads@, uids@[1]@));
            return None;
        },
    };
    let a = format_by_language(&payloads[i], false);
    let b = format_by_language(&payloads[j], false);
    assert(first_with_uid(payloads@, uids@[0]@, i as int));
    assert(first_with_uid(payloads@, uids@[1]@, j as int));
    Some((a, b))
}

} // verus!
