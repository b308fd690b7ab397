//! The interface's copy of the settings: the list received from the desktop
//! side and the display flags kept in step with it.

use vstd::prelude::*;
use crate::config::{self, spec_category_label, SettingValue, SettingValueView};
use crate::text::{chars_eq, chars_of, replace_all, str_eq, string_of};
use crate::version::{is_update, release_version, spec_is_update};

verus! {

/// A setting as the interface receives it.
#[derive(Debug, PartialEq, Eq)]
pub struct SettingDto {
    pub id: String,
    pub category: String,
    pub label: String,
    pub description: String,
    pub show_in_sidebar: bool,
    pub value: SettingValue,
}

impl Clone for SettingDto {
    fn clone(&self) -> (r: Self)
        ensures
            r == *self,
    {
        SettingDto {
            id: self.id.clone(),
            category: self.category.clone(),
            label: self.label.clone(),
            description: self.description.clone(),
            show_in_sidebar: self.show_in_sidebar,
            value: self.value.clone(),
        }
    }
}

/// `SettingDto` with its texts as character sequences.
pub struct SettingDtoView {
    pub id: Seq<char>,
    pub category: Seq<char>,
    pub label: Seq<char>,
    pub description: Seq<char>,
    pub show_in_sidebar: bool,
    pub value: SettingValueView,
}

impl View for SettingDto {
    type V = SettingDtoView;

    open spec fn view(&self) -> SettingDtoView {
        SettingDtoView {
            id: self.id@,
            category: self.category@,
            label: self.label@,
            description: self.description@,
            show_in_sidebar: self.show_in_sidebar,
            value: self.value@,
        }
    }
}

/// Views of a list of settings.
pub open spec fn dtos_view(v: Seq<SettingDto>) -> Seq<SettingDtoView> {
    v.map_values(|d: SettingDto| d@)
}

fn owned(s: &str) -> (r: String)
    ensures
        r@ == s@,
{
    let c = chars_of(s);
    string_of(c.as_slice())
}

impl SettingDto {
    /// The interface's form of a setting sent by the desktop side: its
    /// fields flattened, the category by its shown name.
    pub fn from_backend(dto: &config::SettingDto) -> (r: SettingDto)
        ensures
            r@ == (SettingDtoView {
                id: dto.setting.id@,
                category: spec_category_label(dto.setting.category),
                label: dto.setting.label@,
                description: dto.setting.description@,
                show_in_sidebar: dto.setting.show_in_sidebar,
                value: dto.value@,
            }),
    {
        SettingDto {
            id: owned(dto.setting.id),
            category: owned(dto.setting.category.label()),
            label: owned(dto.setting.label),
            description: owned(dto.setting.description),
            show_in_sidebar: dto.setting.show_in_sidebar,
            value: dto.value.clone(),
        }
    }
}

/// Index of the first setting called `id`.
#[verifier::opaque]
pub open spec fn first_with_id(all: Seq<SettingDtoView>, id: Seq<char>) -> Option<int> {
    if exists|i: int| 0 <= i < all.len() && all[i].id == id {
        Some(
            choose|i: int|
                0 <= i < all.len() && all[i].id == id && forall|j: int|
                    0 <= j < i ==> all[j].id != id,
        )
    } else {
        None
    }
}

/// The boolean value of the first setting called `id`, if it has one.
pub open spec fn spec_bool_setting(all: Seq<SettingDtoView>, id: Seq<char>) -> Option<bool> {
    match first_with_id(all, id) {
        Some(i) => match all[i].value {
            SettingValueView::Bool(b) => Some(b),
            _ => None,
        },
        None => None,
    }
}

/// Finds the first setting called `id`.
pub fn find_setting(all: &Vec<SettingDto>, id: &str) -> (r: Option<usize>)
    ensures
        match r {
            Some(i) => first_with_id(dtos_view(all@), id@) == Some(i as int) && i < all@.len()
                && all@[i as int].id@ == id@,
            None => first_with_id(dtos_view(all@), id@) is None,
        },
{
    let ghost v = dtos_view(all@);
    let u = chars_of(id);
    let mut i: usize = 0;
    while i < all.len()
        invariant
            i <= all@.len(),
            v == dtos_view(all@),
            u@ == id@,
            forall|j: int| 0 <= j < i ==> v[j].id != id@,
        decreases all@.len() - i,
    {
        assert(v[i as int] == all@[i as int]@);
        let c = chars_of(all[i].id.as_str());
        if chars_eq(c.as_slice(), u.as_slice()) {
            proof {
                reveal(first_with_id);
                let p = choose|p: int|
                    0 <= p < v.len() && v[p].id == id@ && forall|j: int| 0 <= j < p ==> v[j].id != id@;
                assert(exists|p: int|
                    0 <= p < v.len() && v[p].id == id@ && forall|j: int| 0 <= j < p ==> v[j].id != id@);
                if p > i {
                    assert(v[i as int].id != id@);
                }
            }
            return Some(i);
        }
        i = i + 1;
    }
    proof {
        reveal(first_with_id);
    }
    None
}

/// The boolean value of the setting called `id` (see [`spec_bool_setting`]).
pub fn bool_setting(all: &Vec<SettingDto>, id: &str) -> (r: Option<bool>)
    ensures
        r == spec_bool_setting(dtos_view(all@), id@),
{
    match find_setting(all, id) {
        Some(i) => {
            assert(dtos_view(all@)[i as int] == all@[i as int]@);
            match &all[i].value {
                SettingValue::Bool(b) => Some(*b),
                _ => None,
            }
        },
        None => None,
    }
}

/// Anonymous analytics are sent only when the `analytics` setting is `true`.
pub fn analytics_enabled(all: &Vec<SettingDto>) -> (r: bool)
    ensures
        r == (spec_bool_setting(dtos_view(all@), "analytics"@) == Some(true)),
{
    match bool_setting(all, "analytics") {
        Some(b) => b,
        None => false,
    }
}

/// The settings shown in the sidebar's quick settings.
pub fn sidebar_settings(all: &Vec<SettingDto>) -> (r: Vec<SettingDto>)
    ensures
        dtos_view(r@) == dtos_view(all@).filter(|d: SettingDtoView| d.show_in_sidebar),
{
    let ghost v = dtos_view(all@);
    let mut r: Vec<SettingDto> = Vec::new();
    let mut i: usize = 0;
    proof {
        reveal(Seq::filter);
        assert(v.take(0) =~= Seq::<SettingDtoView>::empty());
    }
    while i < all.len()
        invariant
            i <= all@.len(),
            v == dtos_view(all@),
            dtos_view(r@) == v.take(i as int).filter(|d: SettingDtoView| d.show_in_sidebar),
        decreases all@.len() - i,
    {
        assert(v.take(i + 1) =~= v.take(i as int).push(v[i as int]));
        assert(v[i as int] == all@[i as int]@);
        proof {
            v.take(i as int).lemma_filter_push(v[i as int], |d: SettingDtoView| d.show_in_sidebar);
        }
        if all[i].show_in_sidebar {
            let ghost before = r@;
            r.push(all[i].clone());
            assert(dtos_view(r@) =~= dtos_view(before).push(all@[i as int]@));
        }
        i = i + 1;
    }
    assert(v.take(i as int) =~= v);
    r
}

/// The settings of the category shown under `category`.
pub fn settings_in_category(all: &Vec<SettingDto>, category: &str) -> (r: Vec<SettingDto>)
    ensures
        dtos_view(r@) == dtos_view(all@).filter(|d: SettingDtoView| d.category == category@),
{
    let ghost v = dtos_view(all@);
    let cat = chars_of(category);
    let mut r: Vec<SettingDto> = Vec::new();
    let mut i: usize = 0;
    proof {
        reveal(Seq::filter);
        assert(v.take(0) =~= Seq::<SettingDtoView>::empty());
    }
    while i < all.len()
        invariant
            i <= all@.len(),
            v == dtos_view(all@),
            cat@ == category@,
            dtos_view(r@) == v.take(i as int).filter(|d: SettingDtoView| d.category == category@),
        decreases all@.len() - i,
    {
        assert(v.take(i + 1) =~= v.take(i as int).push(v[i as int]));
        assert(v[i as int] == all@[i as int]@);
        proof {
            v.take(i as int).lemma_filter_push(
                v[i as int],
                |d: SettingDtoView| d.category == category@,
            );
        }
        let c = chars_of(all[i].category.as_str());
        if chars_eq(c.as_slice(), cat.as_slice()) {
            let ghost before = r@;
            r.push(all[i].clone());
            assert(dtos_view(r@) =~= dtos_view(before).push(all@[i as int]@));
        }
        i = i + 1;
    }
    assert(v.take(i as int) =~= v);
    r
}

// ---------------------------------------------------------------------------
// The interface's settings state
// ---------------------------------------------------------------------------

/// The settings as the interface holds them: the full list and the flags
/// the dump list reacts to directly.
#[derive(Debug, PartialEq, Eq)]
pub struct AppSettings {
    pub all_settings: Vec<SettingDto>,
    pub auto_group: bool,
    pub long_file_path: bool,
    pub auto_expand: bool,
    pub truncate_large_var_types: bool,
    pub theme: String,
    pub update_available: bool,
    pub latest_version: Option<String>,
}

/// The value of flag `id` after a list was loaded: the loaded boolean when
/// the list has one, the current value otherwise.
pub open spec fn loaded_flag(all: Seq<SettingDtoView>, id: Seq<char>, current: bool) -> bool {
    match spec_bool_setting(all, id) {
        Some(b) => b,
        None => current,
    }
}

/// `all` with the value of the first setting called `id` replaced.
pub open spec fn with_value(all: Seq<SettingDtoView>, id: Seq<char>, v: SettingValueView) -> Seq<SettingDtoView> {
    match first_with_id(all, id) {
        Some(i) => all.update(
            i,
            SettingDtoView {
                id: all[i].id,
                category: all[i].category,
                label: all[i].label,
                description: all[i].description,
                show_in_sidebar: all[i].show_in_sidebar,
                value: v,
            },
        ),
        None => all,
    }
}

/// The flag a setting drives, if any: `auto-group-dumps`, `long-file-path`,
/// `auto-expand` and `truncate-large-var-types`.
#[derive(Debug, Clone, Copy, PartialEq, Eq, Structural)]
pub enum DisplayFlag {
    AutoGroup,
    LongFilePath,
    AutoExpand,
    TruncateLargeVarTypes,
}

/// The flag driven by the setting `id`.
pub open spec fn spec_flag_of(id: Seq<char>) -> Option<DisplayFlag> {
    if id == "auto-group-dumps"@ {
        Some(DisplayFlag::AutoGroup)
    } else if id == "long-file-path"@ {
        Some(DisplayFlag::LongFilePath)
    } else if id == "auto-expand"@ {
        Some(DisplayFlag::AutoExpand)
    } else if id == "truncate-large-var-types"@ {
        Some(DisplayFlag::TruncateLargeVarTypes)
    } else {
        None
    }
}

/// The flag driven by the setting `id` (see [`spec_flag_of`]).
pub fn flag_of(id: &str) -> (r: Option<DisplayFlag>)
    ensures
        r == spec_flag_of(id@),
{
    if str_eq(id, "auto-group-dumps") {
        Some(DisplayFlag::AutoGroup)
    } else if str_eq(id, "long-file-path") {
        Some(DisplayFlag::LongFilePath)
    } else if str_eq(id, "auto-expand") {
        Some(DisplayFlag::AutoExpand)
    } else if str_eq(id, "truncate-large-var-types") {
        Some(DisplayFlag::TruncateLargeVarTypes)
    } else {
        None
    }
}

/// Replaces the value of the first setting called `id`.
fn set_value(all: &mut Vec<SettingDto>, id: &str, v: SettingValue)
    ensures
        dtos_view(final(all)@) == with_value(dtos_view(old(all)@), id@, v@),
{
    match find_setting(all, id) {
        Some(i) => {
            let old_dto = all.remove(i);
            let updated = SettingDto {
                id: old_dto.id,
                category: old_dto.category,
                label: old_dto.label,
                description: old_dto.description,
                show_in_sidebar: old_dto.show_in_sidebar,
                value: v,
            };
            all.insert(i, updated);
            assert(dtos_view(all@) =~= with_value(dtos_view(old(all)@), id@, v@));
        },
        None => {},
    }
}

/// What [`first_with_id`] returns.
pub proof fn lemma_first_with_id(all: Seq<SettingDtoView>, id: Seq<char>)
    ensures
        first_with_id(all, id) matches Some(i) ==> 0 <= i < all.len() && all[i].id == id && forall|j: int|
            0 <= j < i ==> all[j].id != id,
        first_with_id(all, id) is None ==> forall|j: int| 0 <= j < all.len() ==> all[j].id != id,
{
    reveal(first_with_id);
    if exists|i: int| 0 <= i < all.len() && all[i].id == id {
        let w = choose|i: int| 0 <= i < all.len() && all[i].id == id;
        lemma_first_index_exists(all, id, w);
    }
}

/// Replacing a value keeps every id, so the first setting called `id` is
/// the same before and after.
pub proof fn lemma_with_value_keeps_position(all: Seq<SettingDtoView>, id: Seq<char>, key: Seq<char>, v: SettingValueView)
    ensures
        first_with_id(with_value(all, key, v), id) == first_with_id(all, id),
        with_value(all, key, v).len() == all.len(),
{
    lemma_first_with_id(all, key);
    reveal(first_with_id);
    let after = with_value(all, key, v);
    assert(after.len() == all.len());
    assert forall|i: int| 0 <= i < all.len() implies after[i].id == all[i].id by {}
    if exists|i: int| 0 <= i < all.len() && all[i].id == id {
        let w = choose|i: int| 0 <= i < all.len() && all[i].id == id;
        lemma_first_index_exists(all, id, w);
        let p = choose|i: int|
            0 <= i < all.len() && all[i].id == id && forall|j: int| 0 <= j < i ==> all[j].id != id;
        let q = choose|i: int|
            0 <= i < after.len() && after[i].id == id && forall|j: int|
                0 <= j < i ==> after[j].id != id;
        assert(0 <= p < all.len() && after[p].id == id && forall|j: int| 0 <= j < p ==> after[j].id != id);
        if q < p {
            assert(all[q].id == id);
        } else if q > p {
            assert(after[p].id == id);
        }
    }
}

/// When some setting is called `id`, a first one is.
pub proof fn lemma_first_index_exists(all: Seq<SettingDtoView>, id: Seq<char>, w: int)
    requires
        0 <= w < all.len(),
        all[w].id == id,
    ensures
        exists|i: int|
            0 <= i < all.len() && all[i].id == id && forall|j: int| 0 <= j < i ==> all[j].id != id,
    decreases w,
{
    if exists|j: int| 0 <= j < w && all[j].id == id {
        let j = choose|j: int| 0 <= j < w && all[j].id == id;
        lemma_first_index_exists(all, id, j);
    } else {
        assert(forall|j: int| 0 <= j < w ==> all[j].id != id);
    }
}

impl Default for AppSettings {
    /// The same as [`AppSettings::new`].
    fn default() -> (s: Self)
        ensures
            s.all_settings@.len() == 0,
            s.auto_group,
            !s.long_file_path,
            s.auto_expand,
            !s.truncate_large_var_types,
            s.theme@ == "Quo (default)"@,
            !s.update_available,
            s.latest_version is None,
    {
        Self::new()
    }
}

impl AppSettings {
    /// The settings before any were loaded: no list, groups and expansion
    /// on, full paths and type truncation off, the default theme, no update.
    pub fn new() -> (s: Self)
        ensures
            s.all_settings@.len() == 0,
            s.auto_group,
            !s.long_file_path,
            s.auto_expand,
            !s.truncate_large_var_types,
            s.theme@ == "Quo (default)"@,
            !s.update_available,
            s.latest_version is None,
    {
        AppSettings {
            all_settings: Vec::new(),
            auto_group: true,
            long_file_path: false,
            auto_expand: true,
            truncate_large_var_types: false,
            theme: owned("Quo (default)"),
            update_available: false,
            latest_version: None,
        }
    }

    /// Takes in the list loaded from the desktop side; each of the four
    /// flags takes the list's boolean value for its setting when there is
    /// one.
    pub fn apply_loaded(&mut self, all: Vec<SettingDto>)
        ensures
            final(self).all_settings@ == all@,
            final(self).auto_group == loaded_flag(dtos_view(all@), "auto-group-dumps"@, old(self).auto_group),
            final(self).long_file_path == loaded_flag(dtos_view(all@), "long-file-path"@, old(self).long_file_path),
            final(self).auto_expand == loaded_flag(dtos_view(all@), "auto-expand"@, old(self).auto_expand),
            final(self).truncate_large_var_types == loaded_flag(
                dtos_view(all@),
                "truncate-large-var-types"@,
                old(self).truncate_large_var_types,
            ),
            final(self).theme == old(self).theme,
            final(self).update_available == old(self).update_available,
            final(self).latest_version == old(self).latest_version,
    {
        if let Some(v) = bool_setting(&all, "auto-group-dumps") {
            self.auto_group = v;
        }
        if let Some(v) = bool_setting(&all, "long-file-path") {
            self.long_file_path = v;
        }
        if let Some(v) = bool_setting(&all, "auto-expand") {
            self.auto_expand = v;
        }
        if let Some(v) = bool_setting(&all, "truncate-large-var-types") {
            self.truncate_large_var_types = v;
        }
        self.all_settings = all;
    }

    /// The value of flag `f`.
    pub open spec fn flag(self, f: DisplayFlag) -> bool {
        match f {
            DisplayFlag::AutoGroup => self.auto_group,
            DisplayFlag::LongFilePath => self.long_file_path,
            DisplayFlag::AutoExpand => self.auto_expand,
            DisplayFlag::TruncateLargeVarTypes => self.truncate_large_var_types,
        }
    }

    /// A toggle was switched: the setting `id` gets the boolean `value`, and
    /// the flag it drives (if any) follows.
    pub fn set_bool_setting(&mut self, id: &str, value: bool)
        ensures
            dtos_view(final(self).all_settings@) == with_value(
                dtos_view(old(self).all_settings@),
                id@,
                SettingValueView::Bool(value),
            ),
            forall|f: DisplayFlag|
                #[trigger] final(self).flag(f) == if spec_flag_of(id@) == Some(f) {
                    value
                } else {
                    old(self).flag(f)
                },
            final(self).theme == old(self).theme,
            final(self).update_available == old(self).update_available,
            final(self).latest_version == old(self).latest_version,
    {
        set_value(&mut self.all_settings, id, SettingValue::Bool(value));
        match flag_of(id) {
            Some(DisplayFlag::AutoGroup) => self.auto_group = value,
            Some(DisplayFlag::LongFilePath) => self.long_file_path = value,
            Some(DisplayFlag::AutoExpand) => self.auto_expand = value,
            Some(DisplayFlag::TruncateLargeVarTypes) => self.truncate_large_var_types = value,
            None => {},
        }
    }

    /// A choice was made: the setting `id` gets the string `value`, and the
    /// theme follows when `id` is `theme`.
    pub fn set_string_setting(&mut self, id: &str, value: &str)
        ensures
            dtos_view(final(self).all_settings@) == with_value(
                dtos_view(old(self).all_settings@),
                id@,
                SettingValueView::String(value@),
            ),
            final(self).theme@ == if id@ == "theme"@ {
                value@
            } else {
                old(self).theme@
            },
            forall|f: DisplayFlag| #[trigger] final(self).flag(f) == old(self).flag(f),
            final(self).update_available == old(self).update_available,
            final(self).latest_version == old(self).latest_version,
    {
        set_value(&mut self.all_settings, id, SettingValue::String(owned(value)));
        if str_eq(id, "theme") {
            self.theme = owned(value);
        }
    }

    /// Takes in the latest release's tag: when the version it names (the tag
    /// without `quo-v`) is newer than `current`, an update is available and
    /// that version is remembered; otherwise nothing changes.
    pub fn record_release(&mut self, current: &str, tag_name: &str)
        ensures
            ({
                let latest = replace_all(tag_name@, "quo-v"@, Seq::empty());
                if spec_is_update(current@, latest) {
                    &&& final(self).update_available
                    &&& final(self).latest_version matches Some(v) && v@ == latest
                } else {
                    &&& final(self).update_available == old(self).update_available
                    &&& final(self).latest_version == old(self).latest_version
                }
            }),
            final(self).all_settings == old(self).all_settings,
            forall|f: DisplayFlag| #[trigger] final(self).flag(f) == old(self).flag(f),
            final(self).theme == old(self).theme,
    {
        let latest = release_version(tag_name);
        if is_update(current, latest.as_str()) {
            self.latest_version = Some(latest);
            self.update_available = true;
        }
    }

    /// Whether a toggle shows as on: the setting's boolean value, off when
    /// it has none.
    pub fn checked(&self, id: &str) -> (r: bool)
        ensures
            r == (spec_bool_setting(dtos_view(self.all_settings@), id@) == Some(true)),
    {
        match bool_setting(&self.all_settings, id) {
            Some(b) => b,
            None => false,
        }
    }
}

/// After a toggle is switched to `value`, the toggle reads back `value`
/// whenever the list has a setting with that id.
pub proof fn lemma_toggle_reads_back(all: Seq<SettingDtoView>, id: Seq<char>, value: bool)
    requires
        first_with_id(all, id) is Some,
    ensures
        spec_bool_setting(with_value(all, id, SettingValueView::Bool(value)), id) == Some(value),
{
    lemma_with_value_keeps_position(all, id, id, SettingValueView::Bool(value));
    lemma_first_with_id(all, id);
}

// ---------------------------------------------------------------------------
// Categories
// ---------------------------------------------------------------------------

/// The distinct elements of `s`, in order of first appearance.
pub open spec fn distinct_in_order(s: Seq<Seq<char>>) -> Seq<Seq<char>>
    decreases s.len(),
{
    if s.len() == 0 {
        s
    } else {
        let d = distinct_in_order(s.drop_last());
        if d.contains(s.last()) {
            d
        } else {
            d.push(s.last())
        }
    }
}

/// The settings screen's sections: the categories of the settings in order
/// of first appearance, followed by `About` unless it is among them.
pub open spec fn spec_setting_categories(all: Seq<SettingDtoView>) -> Seq<Seq<char>> {
    let d = distinct_in_order(all.map_values(|s: SettingDtoView| s.category));
    if d.contains("About"@) {
        d
    } else {
        d.push("About"@)
    }
}

fn contains_string(v: &Vec<String>, s: &[char]) -> (r: bool)
    ensures
        r == v@.map_values(|x: String| x@).contains(s@),
{
    let ghost vv = v@.map_values(|x: String| x@);
    let mut i: usize = 0;
    while i < v.len()
        invariant
            i <= v@.len(),
            vv == v@.map_values(|x: String| x@),
            forall|j: int| 0 <= j < i ==> vv[j] != s@,
        decreases v@.len() - i,
    {
        let c = chars_of(v[i].as_str());
        if chars_eq(c.as_slice(), s) {
            assert(vv[i as int] == s@);
            return true;
        }
        i = i + 1;
    }
    false
}

/// The settings screen's sections (see [`spec_setting_categories`]).
pub fn setting_categories(all: &Vec<SettingDto>) -> (r: Vec<String>)
    ensures
        r@.map_values(|x: String| x@) == spec_setting_categories(dtos_view(all@)),
{
    let ghost cats = dtos_view(all@).map_values(|s: SettingDtoView| s.category);
    let mut r: Vec<String> = Vec::new();
    let mut i: usize = 0;
    assert(r@.map_values(|x: String| x@) =~= distinct_in_order(cats.take(0)));
    while i < all.len()
        invariant
            i <= all@.len(),
            cats == dtos_view(all@).map_values(|s: SettingDtoView| s.category),
            r@.map_values(|x: String| x@) == distinct_in_order(cats.take(i as int)),
        decreases all@.len() - i,
    {
        assert(cats.take(i + 1).drop_last() =~= cats.take(i as int));
        assert(cats[i as int] == all@[i as int].category@);
        let c = chars_of(all[i].category.as_str());
        if !contains_string(&r, c.as_slice()) {
            let ghost before = r@;
            r.push(all[i].category.clone());
            assert(r@.map_values(|x: String| x@) =~= before.map_values(|x: String| x@).push(
                c@,
            ));
        }
        i = i + 1;
    }
    assert(cats.take(i as int) =~= cats);
    let about = chars_of("About");
    if !contains_string(&r, about.as_slice()) {
        let ghost before = r@;
        r.push(string_of(about.as_slice()));
        assert(r@.map_values(|x: String| x@) =~= before.map_values(|x: String| x@).push(
            "About"@,
        ));
    }
    r
}

} // verus!
