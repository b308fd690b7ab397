//! Small pieces of text and state the interface derives from dumps.

use vstd::prelude::*;
use crate::dumps::DumpEntry;
use crate::formatter::{format_by_language, renders_as, value_fits};
use crate::payloads::{IncomingQuoPayload, QuoPayloadLanguage};
use crate::text::{
    chars_of, decimal, join_chars, join_with, lines_chars, lines_of, push_decimal, push_str,
    replace_all, replace_char, split_by, split_chars, string_of,
};

verus! {

/// Number of lines of a text (`str::lines().count()`).
pub fn line_count(text: &str) -> (n: usize)
    ensures
        n == lines_of(text@).len(),
{
    let c = chars_of(text);
    let ls = lines_chars(c.as_slice());
    ls.len()
}

/// A dump's code box starts collapsed: as the user last set it, or, when
/// untouched, when auto-expand is off and the code has more than six lines.
pub fn is_collapsed(manual_expanded: Option<bool>, auto_expand: bool, content_lines: usize) -> (r:
    bool)
    ensures
        r == match manual_expanded {
            Some(expanded) => !expanded,
            None => !auto_expand && content_lines > 6,
        },
{
    match manual_expanded {
        Some(expanded) => !expanded,
        None => !auto_expand && content_lines > 6,
    }
}

/// Whether any entry can be expanded or collapsed, given the rendered code
/// of its dumps (`rendered[k]` for entry `k`): a group can when dumps are
/// grouped, and any entry can when one of its dumps renders to more than six
/// lines.
pub open spec fn spec_any_expandable(
    entries: Seq<DumpEntry>,
    auto_group: bool,
    rendered: Seq<Seq<Seq<char>>>,
) -> bool {
    exists|k: int|
        0 <= k < entries.len() && {
            ||| (entries[k] is Group && auto_group)
            ||| exists|j: int|
                0 <= j < rendered[k].len() && lines_of(#[trigger] rendered[k][j]).len() > 6
        }
}

/// Decides [`spec_any_expandable`] for the given renderings.
pub fn has_expandable_items_with(
    entries: &Vec<DumpEntry>,
    auto_group: bool,
    rendered: &Vec<Vec<String>>,
) -> (r: bool)
    requires
        rendered@.len() == entries@.len(),
    ensures
        r == spec_any_expandable(entries@, auto_group, rendered@.map_values(
            |v: Vec<String>| v@.map_values(|s: String| s@),
        )),
{
    let ghost rv = rendered@.map_values(|v: Vec<String>| v@.map_values(|s: String| s@));
    let mut k: usize = 0;
    while k < entries.len()
        invariant
            k <= entries@.len(),
            rendered@.len() == entries@.len(),
            rv == rendered@.map_values(|v: Vec<String>| v@.map_values(|s: String| s@)),
            forall|i: int|
                0 <= i < k ==> !((entries@[i] is Group && auto_group) || exists|j: int|
                    0 <= j < rv[i].len() && lines_of(#[trigger] rv[i][j]).len() > 6),
        decreases entries@.len() - k,
    {
        let is_group = match &entries[k] {
            DumpEntry::Group(_) => true,
            DumpEntry::Single(_) => false,
        };
        if is_group && auto_group {
            return true;
        }
        let texts = &rendered[k];
        let mut j: usize = 0;
        while j < texts.len()
            invariant
                j <= texts@.len(),
                k < rendered@.len(),
                rendered@.len() == entries@.len(),
                texts == rendered@[k as int],
                rv == rendered@.map_values(|v: Vec<String>| v@.map_values(|s: String| s@)),
                forall|m: int| 0 <= m < j ==> lines_of(#[trigger] rv[k as int][m]).len() <= 6,
            decreases texts@.len() - j,
        {
            assert(rv[k as int][j as int] == texts@[j as int]@);
            if line_count(texts[j].as_str()) > 6 {
                assert(lines_of(rv[k as int][j as int]).len() > 6);
                assert(0 <= k < entries@.len() && ({
                    ||| (entries@[k as int] is Group && auto_group)
                    ||| exists|jj: int|
                        0 <= jj < rv[k as int].len() && lines_of(#[trigger] rv[k as int][jj]).len()
                            > 6
                }));
                return true;
            }
            j = j + 1;
        }
        k = k + 1;
    }
    false
}

/// The dumps an entry shows.
pub open spec fn entry_dumps(e: DumpEntry) -> Seq<IncomingQuoPayload> {
    match e {
        DumpEntry::Single(p) => seq![p],
        DumpEntry::Group(v) => v@,
    }
}

/// Every dump of every entry has a value whose rendering fits in memory.
pub open spec fn all_values_fit(entries: Seq<DumpEntry>) -> bool {
    forall|k: int, j: int|
        0 <= k < entries.len() && 0 <= j < entry_dumps(entries[k]).len() ==> value_fits(
            #[trigger] entry_dumps(entries[k])[j].meta.variable,
        )
}

/// `r` is a rendering that [`format_by_language`] may give for the dump.
pub open spec fn rendering_of(p: IncomingQuoPayload, truncate: bool, r: Seq<char>) -> bool {
    renders_as(p, truncate, r)
}

/// `rv[k][j]` is a rendering of dump `j` of entry `k`.
pub open spec fn renderings_of(entries: Seq<DumpEntry>, truncate: bool, rv: Seq<Seq<Seq<char>>>) -> bool {
    &&& rv.len() == entries.len()
    &&& forall|k: int|
        0 <= k < entries.len() ==> (#[trigger] rv[k]).len() == entry_dumps(entries[k]).len()
    &&& forall|k: int, j: int|
        0 <= k < entries.len() && 0 <= j < entry_dumps(entries[k]).len() ==> rendering_of(
            entry_dumps(entries[k])[j],
            truncate,
            #[trigger] rv[k][j],
        )
}

/// The texts of a list of rendering lists.
pub open spec fn rendered_view(v: Seq<Vec<String>>) -> Seq<Seq<Seq<char>>> {
    v.map_values(|w: Vec<String>| w@.map_values(|s: String| s@))
}

/// Renders every dump of every entry with [`format_by_language`].
pub fn render_entries(entries: &Vec<DumpEntry>, truncate: bool) -> (rendered: Vec<Vec<String>>)
    requires
        all_values_fit(entries@),
    ensures
        renderings_of(entries@, truncate, rendered_view(rendered@)),
{
    let mut out: Vec<Vec<String>> = Vec::new();
    let mut k: usize = 0;
    while k < entries.len()
        invariant
            k <= entries@.len(),
            out@.len() == k,
            all_values_fit(entries@),
            forall|m: int|
                0 <= m < k ==> (#[trigger] rendered_view(out@)[m]).len() == entry_dumps(
                    entries@[m],
                ).len(),
            forall|m: int, j: int|
                0 <= m < k && 0 <= j < entry_dumps(entries@[m]).len() ==> rendering_of(
                    entry_dumps(entries@[m])[j],
                    truncate,
                    #[trigger] rendered_view(out@)[m][j],
                ),
        decreases entries@.len() - k,
    {
        let ghost dumps = entry_dumps(entries@[k as int]);
        let mut texts: Vec<String> = Vec::new();
        match &entries[k] {
            DumpEntry::Single(p) => {
                assert(dumps[0] == *p);
                assert(value_fits(entry_dumps(entries@[k as int])[0].meta.variable));
                let t = format_by_language(p, truncate);
                texts.push(t);
            },
            DumpEntry::Group(v) => {
                let mut j: usize = 0;
                while j < v.len()
                    invariant
                        j <= v@.len(),
                        dumps == v@,
                        texts@.len() == j,
                        k < entries@.len(),
                        all_values_fit(entries@),
                        dumps == entry_dumps(entries@[k as int]),
                        forall|i: int|
                            0 <= i < j ==> rendering_of(dumps[i], truncate, #[trigger] texts@[i]@),
                    decreases v@.len() - j,
                {
                    assert(value_fits(entry_dumps(entries@[k as int])[j as int].meta.variable));
                    let t = format_by_language(&v[j], truncate);
                    texts.push(t);
                    j = j + 1;
                }
            },
        }
        assert(texts@.len() == dumps.len());
        let ghost before = out@;
        out.push(texts);
        proof {
            assert forall|m: int| 0 <= m <= k implies (#[trigger] rendered_view(out@)[m]).len()
                == entry_dumps(entries@[m]).len() by {
                if m < k {
                    assert(out@[m] == before[m]);
                    assert(rendered_view(out@)[m] == rendered_view(before)[m]);
                } else {
                    assert(rendered_view(out@)[m].len() == texts@.len());
                }
            }
            assert forall|m: int, j: int|
                0 <= m <= k && 0 <= j < entry_dumps(entries@[m]).len() implies rendering_of(
                entry_dumps(entries@[m])[j],
                truncate,
                #[trigger] rendered_view(out@)[m][j],
            ) by {
                if m < k {
                    assert(out@[m] == before[m]);
                    assert(rendered_view(out@)[m] == rendered_view(before)[m]);
                } else {
                    assert(rendered_view(out@)[m][j] == texts@[j]@);
                }
            }
        }
        k = k + 1;
    }
    out
}

/// Whether any entry of the dump list can be expanded or collapsed, with
/// every dump rendered by [`format_by_language`]: a group can when dumps are
/// grouped, and any entry can when one of its dumps renders to more than six
/// lines.
pub fn has_expandable_items(entries: &Vec<DumpEntry>, auto_group: bool, truncate: bool) -> (r: bool)
    requires
        all_values_fit(entries@),
    ensures
        exists|rv: Seq<Seq<Seq<char>>>|
            renderings_of(entries@, truncate, rv) && r == spec_any_expandable(
                entries@,
                auto_group,
                rv,
            ),
        (auto_group && exists|k: int| 0 <= k < entries@.len() && entries@[k] is Group) ==> r,
{
    let rendered = render_entries(entries, truncate);
    let r = has_expandable_items_with(entries, auto_group, &rendered);
    assert(rendered_view(rendered@) == rendered@.map_values(
        |v: Vec<String>| v@.map_values(|s: String| s@),
    ));
    r
}

/// The origin filter after an origin badge was clicked: clicking the
/// selected origin clears the filter, any other origin becomes the filter.
pub open spec fn spec_toggle_origin(selected: Option<Seq<char>>, origin: Seq<char>) -> Option<Seq<char>> {
    if selected == Some(origin) {
        None
    } else {
        Some(origin)
    }
}

/// The origin filter after an origin badge was clicked (see
/// [`spec_toggle_origin`]).
pub fn toggle_origin_filter(selected: Option<&str>, origin: &str) -> (r: Option<String>)
    ensures
        (match r {
            Some(f) => Some(f@),
            None => None,
        }) == spec_toggle_origin(
            match selected {
                Some(s) => Some(s@),
                None => None,
            },
            origin@,
        ),
{
    let same = match selected {
        Some(s) => crate::text::str_eq(s, origin),
        None => false,
    };
    if same {
        None
    } else {
        let c = chars_of(origin);
        Some(string_of(c.as_slice()))
    }
}

/// Clicking an origin badge twice, starting without a filter or with that
/// origin's filter, leaves the filter as it was.
pub proof fn lemma_origin_filter_toggles_back(selected: Option<Seq<char>>, origin: Seq<char>)
    requires
        selected is None || selected == Some(origin),
    ensures
        spec_toggle_origin(spec_toggle_origin(selected, origin), origin) == selected,
{
}

/// A dump's expansion after an expand-all (`expand`) or collapse-all
/// command: dumps of more than six lines follow the command, the others keep
/// their state.
pub fn manual_state_after_command(current: Option<bool>, expand: bool, content_lines: usize) -> (r:
    Option<bool>)
    ensures
        r == if content_lines > 6 {
            Some(expand)
        } else {
            current
        },
{
    if content_lines > 6 {
        Some(expand)
    } else {
        current
    }
}

/// A group's collapsed state after an expand-all or collapse-all
/// (`collapse`) command: groups follow it while dumps are grouped.
pub fn group_collapsed_after_command(collapsed: bool, collapse: bool, auto_group: bool) -> (r: bool)
    ensures
        r == if auto_group {
            collapse
        } else {
            collapsed
        },
{
    if auto_group {
        collapse
    } else {
        collapsed
    }
}

/// The count shown under the search box: nothing without a query,
/// `1 result`, or `<n> results`.
pub open spec fn spec_search_results_label(query: Seq<char>, count: nat) -> Seq<char> {
    if query.len() == 0 {
        Seq::empty()
    } else if count == 1 {
        "1 result"@
    } else {
        decimal(count) + " results"@
    }
}

/// The count shown under the search box (see [`spec_search_results_label`]).
pub fn search_results_label(query: &str, count: usize) -> (r: String)
    ensures
        r@ == spec_search_results_label(query@, count as nat),
{
    if query.is_empty() {
        return String::new();
    }
    let mut out: Vec<char> = Vec::new();
    if count == 1 {
        push_str(&mut out, "1 result");
    } else {
        push_decimal(&mut out, count as u64);
        push_str(&mut out, " results");
    }
    string_of(out.as_slice())
}

/// The last `/`-separated segment of a path.
pub open spec fn last_segment(path: Seq<char>) -> Seq<char> {
    split_by(path, seq!['/']).last()
}

/// A dump's file as shown: the whole path with `/` separators, or only its
/// file name.
pub open spec fn spec_file_path_label(filepath: Seq<char>, show_full: bool) -> Seq<char> {
    let normalized = replace_all(filepath, seq!['\\'], seq!['/']);
    if show_full {
        normalized
    } else {
        last_segment(normalized)
    }
}

fn last_segment_exec(path: &[char]) -> (r: Vec<char>)
    ensures
        r@ == last_segment(path@),
{
    let slash: Vec<char> = vec!['/'];
    assert(slash@ =~= seq!['/']);
    let parts = split_chars(path, slash.as_slice());
    proof {
        crate::text::lemma_split_from_nonempty(path@, slash@, 0);
    }
    let ghost pv = parts.deep_view();
    let last = parts.len() - 1;
    assert(parts[last as int]@ == pv[last as int]);
    let p = &parts[last];
    crate::text::slice_chars(p.as_slice(), 0, p.len())
}

/// A dump's file as shown (see [`spec_file_path_label`]).
pub fn file_path_label(filepath: &str, show_full: bool) -> (r: String)
    ensures
        r@ == spec_file_path_label(filepath@, show_full),
{
    let normalized = replace_char(filepath, '\\', '/');
    if show_full {
        normalized
    } else {
        let n = chars_of(normalized.as_str());
        let last = last_segment_exec(n.as_slice());
        string_of(last.as_slice())
    }
}

/// The call site shown in a group's header: the file name of the first
/// dump's origin, or nothing for an empty group.
pub fn call_site(dumps: &Vec<IncomingQuoPayload>) -> (r: String)
    ensures
        r@ == if dumps@.len() > 0 {
            last_segment(dumps@[0].meta.sender_origin@)
        } else {
            Seq::empty()
        },
{
    if dumps.len() == 0 {
        return String::new();
    }
    let c = chars_of(dumps[0].meta.sender_origin.as_str());
    let last = last_segment_exec(c.as_slice());
    string_of(last.as_slice())
}

/// The names of a group's variables, separated by `, `.
pub fn var_names(dumps: &Vec<IncomingQuoPayload>) -> (r: String)
    ensures
        r@ == join_with(dumps@.map_values(|d: IncomingQuoPayload| d.meta.variable.name@), ", "@),
{
    let mut names: Vec<Vec<char>> = Vec::new();
    let mut i: usize = 0;
    while i < dumps.len()
        invariant
            i <= dumps@.len(),
            names.deep_view() =~= dumps@.take(i as int).map_values(
                |d: IncomingQuoPayload| d.meta.variable.name@,
            ),
        decreases dumps@.len() - i,
    {
        let n = chars_of(dumps[i].meta.variable.name.as_str());
        let ghost before = names.deep_view();
        assert(n.deep_view() =~= n@);
        names.push(n);
        assert(names.deep_view() =~= before.push(n@));
        i = i + 1;
    }
    assert(dumps@.take(i as int) =~= dumps@);
    let sep = chars_of(", ");
    let joined = join_chars(&names, sep.as_slice());
    string_of(joined.as_slice())
}

/// The badge of a selected dump: `Source` for the first selection,
/// `Comparison` for the second, nothing when unselected.
pub fn selection_label(index: Option<usize>) -> (s: &'static str)
    ensures
        s@ == match index {
            None => ""@,
            Some(0) => "Source"@,
            Some(_) => "Comparison"@,
        },
{
    match index {
        None => "",
        Some(0) => "Source",
        Some(_) => "Comparison",
    }
}

} // verus!
