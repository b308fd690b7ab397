//! The settings known to Quo, their defaults, and the rules for reading and
//! writing them.

use vstd::prelude::*;
use crate::text::{chars_of, decimal, push_decimal, push_str, str_eq, string_of};

verus! {

/// The section of the settings screen a setting belongs to.
#[derive(Debug, Clone, Copy, PartialEq, Eq, Structural, Hash)]
pub enum Category {
    Ui,
    Server,
    Privacy,
    About,
}

/// The name a category is shown (and serialised) under.
pub open spec fn spec_category_label(c: Category) -> Seq<char> {
    match c {
        Category::Ui => "Quo"@,
        Category::Server => "Server"@,
        Category::Privacy => "Privacy"@,
        Category::About => "About"@,
    }
}

impl Category {
    /// The name a category is shown under: the UI section is called `Quo`.
    pub fn label(&self) -> (s: &'static str)
        ensures
            s@ == spec_category_label(*self),
    {
        match self {
            Category::Ui => "Quo",
            Category::Server => "Server",
            Category::Privacy => "Privacy",
            Category::About => "About",
        }
    }
}

/// The categories in the order the settings screen lists them.
pub fn categories() -> (r: Vec<Category>)
    ensures
        r@ == seq![Category::Ui, Category::Server, Category::Privacy, Category::About],
{
    let r = vec![Category::Ui, Category::Server, Category::Privacy, Category::About];
    assert(r@ =~= seq![Category::Ui, Category::Server, Category::Privacy, Category::About]);
    r
}

/// A setting's default value.  A floating-point default is kept as the text
/// of its JSON number.
#[derive(Debug, Clone, Copy, PartialEq, Eq)]
pub enum DefaultValue {
    Bool(bool),
    Str(&'static str),
    Float(&'static str),
    Int(i64),
}

/// One setting and how the settings screen presents it.
#[derive(Debug, Clone, Copy, PartialEq, Eq)]
pub struct Setting {
    pub id: &'static str,
    pub category: Category,
    pub label: &'static str,
    pub description: &'static str,
    pub default: DefaultValue,
    /// Whether this setting should appear in the sidebar quick-settings panel.
    pub show_in_sidebar: bool,
}

/// A setting's value as stored: what the settings store's JSON values are
/// told apart by.  Numbers and other JSON values keep their JSON text.
#[derive(Debug, PartialEq, Eq)]
pub enum SettingValue {
    Bool(bool),
    Number(String),
    String(String),
    Other(String),
}

impl Clone for SettingValue {
    fn clone(&self) -> (r: Self)
        ensures
            r == *self,
    {
        match self {
            SettingValue::Bool(b) => SettingValue::Bool(*b),
            SettingValue::Number(t) => SettingValue::Number(t.clone()),
            SettingValue::String(t) => SettingValue::String(t.clone()),
            SettingValue::Other(t) => SettingValue::Other(t.clone()),
        }
    }
}


/// `SettingValue` with its texts as character sequences.
pub enum SettingValueView {
    Bool(bool),
    Number(Seq<char>),
    String(Seq<char>),
    Other(Seq<char>),
}

impl View for SettingValue {
    type V = SettingValueView;

    open spec fn view(&self) -> SettingValueView {
        match self {
            SettingValue::Bool(b) => SettingValueView::Bool(*b),
            SettingValue::Number(t) => SettingValueView::Number(t@),
            SettingValue::String(t) => SettingValueView::String(t@),
            SettingValue::Other(t) => SettingValueView::Other(t@),
        }
    }
}

/// The decimal notation of a signed integer.
pub open spec fn decimal_i64(i: int) -> Seq<char> {
    if i < 0 {
        seq!['-'] + decimal((-i) as nat)
    } else {
        decimal(i as nat)
    }
}

/// `DefaultValue` with its texts as character sequences.
pub enum DefaultValueView {
    Bool(bool),
    Str(Seq<char>),
    Float(Seq<char>),
    Int(i64),
}

impl View for DefaultValue {
    type V = DefaultValueView;

    open spec fn view(&self) -> DefaultValueView {
        match self {
            DefaultValue::Bool(b) => DefaultValueView::Bool(*b),
            DefaultValue::Str(t) => DefaultValueView::Str(t@),
            DefaultValue::Float(t) => DefaultValueView::Float(t@),
            DefaultValue::Int(i) => DefaultValueView::Int(*i),
        }
    }
}

/// `Setting` with its texts as character sequences.
pub struct SettingView {
    pub id: Seq<char>,
    pub category: Category,
    pub label: Seq<char>,
    pub description: Seq<char>,
    pub default: DefaultValueView,
    pub show_in_sidebar: bool,
}

impl View for Setting {
    type V = SettingView;

    open spec fn view(&self) -> SettingView {
        SettingView {
            id: self.id@,
            category: self.category,
            label: self.label@,
            description: self.description@,
            default: self.default@,
            show_in_sidebar: self.show_in_sidebar,
        }
    }
}

/// The settings, in the order they are listed.
pub open spec fn spec_settings() -> Seq<SettingView> {
    seq![
        SettingView {
            id: "auto-expand"@,
            category: Category::Ui,
            label: "Auto-expand structures"@,
            description: "Automatically expand larger data structures"@,
            default: DefaultValueView::Bool(true),
            show_in_sidebar: true,
        },
        SettingView {
            id: "auto-group-dumps"@,
            category: Category::Ui,
            label: "Group dumps"@,
            description: "Group multiple variables dumped at once"@,
            default: DefaultValueView::Bool(true),
            show_in_sidebar: true,
        },
        SettingView {
            id: "long-file-path"@,
            category: Category::Ui,
            label: "Show full file path"@,
            description: "Show full path instead of truncated version"@,
            default: DefaultValueView::Bool(false),
            show_in_sidebar: true,
        },
        SettingView {
            id: "truncate-large-var-types"@,
            category: Category::Ui,
            label: "Truncate large types"@,
            description: "Show truncated version of large variable types."@,
            default: DefaultValueView::Bool(false),
            show_in_sidebar: true,
        },
        SettingView {
            id: "notifications"@,
            category: Category::Ui,
            label: "Notifications"@,
            description: "Get a notification when a new payload was received by Quo."@,
            default: DefaultValueView::Bool(false),
            show_in_sidebar: false,
        },
        SettingView {
            id: "server-port"@,
            category: Category::Server,
            label: "Listening port"@,
            description: "Port the Quo server listens on"@,
            default: DefaultValueView::Int(7779),
            show_in_sidebar: false,
        },
        SettingView {
            id: "analytics"@,
            category: Category::Privacy,
            label: "Send anonymous analytics"@,
            description: "Help improve Quo by sending anonymous usage data"@,
            default: DefaultValueView::Bool(false),
            show_in_sidebar: false,
        },
    ]
}

/// Views of a list of settings.
pub open spec fn settings_view(v: Seq<Setting>) -> Seq<SettingView> {
    v.map_values(|s: Setting| s@)
}

/// The settings known to Quo (see [`spec_settings`]).
pub fn settings() -> (r: Vec<Setting>)
    ensures
        settings_view(r@) == spec_settings(),
{
    let r = vec![
        Setting {
            id: "auto-expand",
            category: Category::Ui,
            label: "Auto-expand structures",
            description: "Automatically expand larger data structures",
            default: DefaultValue::Bool(true),
            show_in_sidebar: true,
        },
        Setting {
            id: "auto-group-dumps",
            category: Category::Ui,
            label: "Group dumps",
            description: "Group multiple variables dumped at once",
            default: DefaultValue::Bool(true),
            show_in_sidebar: true,
        },
        Setting {
            id: "long-file-path",
            category: Category::Ui,
            label: "Show full file path",
            description: "Show full path instead of truncated version",
            default: DefaultValue::Bool(false),
            show_in_sidebar: true,
        },
        Setting {
            id: "truncate-large-var-types",
            category: Category::Ui,
            label: "Truncate large types",
            description: "Show truncated version of large variable types.",
            default: DefaultValue::Bool(false),
            show_in_sidebar: true,
        },
        Setting {
            id: "notifications",
            category: Category::Ui,
            label: "Notifications",
            description: "Get a notification when a new payload was received by Quo.",
            default: DefaultValue::Bool(false),
            show_in_sidebar: false,
        },
        Setting {
            id: "server-port",
            category: Category::Server,
            label: "Listening port",
            description: "Port the Quo server listens on",
            default: DefaultValue::Int(7779),
            show_in_sidebar: false,
        },
        Setting {
            id: "analytics",
            category: Category::Privacy,
            label: "Send anonymous analytics",
            description: "Help improve Quo by sending anonymous usage data",
            default: DefaultValue::Bool(false),
            show_in_sidebar: false,
        },
    ];
    assert(settings_view(r@) =~= spec_settings());
    r
}

/// The settings of one category, in table order (`SETTINGS` filtered).
pub fn settings_for(category: Category) -> (r: Vec<Setting>)
    ensures
        settings_view(r@) == spec_settings().filter(|s: SettingView| s.category == category),
{
    let all = settings();
    let mut r: Vec<Setting> = Vec::new();
    let mut i: usize = 0;
    while i < all.len()
        invariant
            i <= all@.len(),
            settings_view(all@) == spec_settings(),
            settings_view(r@) == settings_view(all@.take(i as int)).filter(
                |s: SettingView| s.category == category,
            ),
        decreases all@.len() - i,
    {
        let s = all[i];
        proof {
            assert(settings_view(all@.take(i + 1)) =~= settings_view(all@.take(i as int)).push(
                s@,
            ));
            settings_view(all@.take(i as int)).lemma_filter_push(
                s@,
                |s: SettingView| s.category == category,
            );
        }
        if s.category == category {
            let ghost before = r@;
            r.push(s);
            assert(settings_view(r@) =~= settings_view(before).push(s@));
        }
        i = i + 1;
    }
    assert(all@.take(all@.len() as int) =~= all@);
    r
}

// ---------------------------------------------------------------------------
// Reading and writing values
// ---------------------------------------------------------------------------

/// The stored form of a default value.
pub open spec fn spec_default_value(d: DefaultValueView) -> SettingValueView {
    match d {
        DefaultValueView::Bool(b) => SettingValueView::Bool(b),
        DefaultValueView::Str(t) => SettingValueView::String(t),
        DefaultValueView::Float(t) => SettingValueView::Number(t),
        DefaultValueView::Int(i) => SettingValueView::Number(decimal_i64(i as int)),
    }
}

/// The value a setting falls back to when nothing is stored for it.
pub fn default_value(d: &DefaultValue) -> (v: SettingValue)
    ensures
        v@ == spec_default_value(d@),
{
    match d {
        DefaultValue::Bool(b) => SettingValue::Bool(*b),
        DefaultValue::Str(t) => {
            let c = chars_of(t);
            SettingValue::String(string_of(c.as_slice()))
        },
        DefaultValue::Float(t) => {
            let c = chars_of(t);
            SettingValue::Number(string_of(c.as_slice()))
        },
        DefaultValue::Int(i) => {
            let mut out: Vec<char> = Vec::new();
            if *i < 0 {
                out.push('-');
                let magnitude: u64 = ((-(*i + 1)) as u64) + 1;
                assert(magnitude == -(*i as int));
                push_decimal(&mut out, magnitude);
            } else {
                push_decimal(&mut out, *i as u64);
            }
            assert(out@ =~= decimal_i64(*i as int));
            SettingValue::Number(string_of(out.as_slice()))
        },
    }
}

/// Index of the setting called `id`, if there is one.
pub open spec fn setting_index(id: Seq<char>) -> Option<int> {
    if exists|i: int| 0 <= i < spec_settings().len() && spec_settings()[i].id == id {
        Some(choose|i: int| 0 <= i < spec_settings().len() && spec_settings()[i].id == id)
    } else {
        None
    }
}

/// A value may be stored for a setting with the given default: booleans for
/// booleans, numbers for numbers, strings for strings.
pub open spec fn type_ok(d: DefaultValueView, v: SettingValueView) -> bool {
    match (d, v) {
        (DefaultValueView::Bool(_), SettingValueView::Bool(_)) => true,
        (DefaultValueView::Float(_), SettingValueView::Number(_)) => true,
        (DefaultValueView::Int(_), SettingValueView::Number(_)) => true,
        (DefaultValueView::Str(_), SettingValueView::String(_)) => true,
        _ => false,
    }
}

/// The index under which writing `v` to the setting `id` is accepted.
pub open spec fn accepted_index(id: Seq<char>, v: SettingValueView) -> Option<int> {
    match setting_index(id) {
        Some(i) => if type_ok(spec_settings()[i].default, v) {
            Some(i)
        } else {
            None
        },
        None => None,
    }
}

/// Why a setting could not be written.
#[derive(Debug, Clone, PartialEq, Eq)]
pub enum SettingError {
    /// No setting has this id.
    UnknownSetting(String),
    /// The value's kind does not match the setting's.
    TypeMismatch(String),
}

impl SettingError {
    /// The message shown for the error: `Unknown setting: <id>` or
    /// `Type mismatch for setting: <id>`.
    pub fn message(&self) -> (s: String)
        ensures
            s@ == match self {
                SettingError::UnknownSetting(id) => "Unknown setting: "@ + id@,
                SettingError::TypeMismatch(id) => "Type mismatch for setting: "@ + id@,
            },
    {
        let mut out: Vec<char> = Vec::new();
        match self {
            SettingError::UnknownSetting(id) => {
                push_str(&mut out, "Unknown setting: ");
                push_str(&mut out, id.as_str());
            },
            SettingError::TypeMismatch(id) => {
                push_str(&mut out, "Type mismatch for setting: ");
                push_str(&mut out, id.as_str());
            },
        }
        string_of(out.as_slice())
    }
}

fn value_kind_ok(d: &DefaultValue, v: &SettingValue) -> (b: bool)
    ensures
        b == type_ok(d@, v@),
{
    match (d, v) {
        (DefaultValue::Bool(_), SettingValue::Bool(_)) => true,
        (DefaultValue::Float(_), SettingValue::Number(_)) => true,
        (DefaultValue::Int(_), SettingValue::Number(_)) => true,
        (DefaultValue::Str(_), SettingValue::String(_)) => true,
        _ => false,
    }
}

/// Decides whether `value` may be written to the setting `id`: `Ok` with
/// the setting's index when the setting exists and the value has its kind,
/// `UnknownSetting` when no setting has that id, `TypeMismatch` otherwise.
pub fn validate_setting_update(id: &str, value: &SettingValue) -> (r: Result<usize, SettingError>)
    ensures
        match setting_index(id@) {
            None => r matches Err(SettingError::UnknownSetting(e)) && e@ == id@,
            Some(i) => if type_ok(spec_settings()[i].default, value@) {
                r == Ok::<usize, SettingError>(i as usize)
            } else {
                r matches Err(SettingError::TypeMismatch(e)) && e@ == id@
            },
        },
        r matches Ok(i) ==> accepted_index(id@, value@) == Some(i as int),
        r is Err ==> accepted_index(id@, value@) is None,
{
    let all = settings();
    let mut i: usize = 0;
    while i < all.len()
        invariant
            i <= all@.len(),
            settings_view(all@) == spec_settings(),
            forall|k: int| 0 <= k < i ==> spec_settings()[k].id != id@,
        decreases all@.len() - i,
    {
        assert(settings_view(all@)[i as int] == all@[i as int]@);
        if str_eq(all[i].id, id) {
            assert(spec_settings()[i as int].id == id@);
            assert(setting_index(id@) == Some(i as int)) by {
                let j = choose|j: int| 0 <= j < spec_settings().len() && spec_settings()[j].id == id@;
                lemma_setting_ids_distinct(j, i as int);
            }
            let c = chars_of(id);
            if value_kind_ok(&all[i].default, value) {
                return Ok(i);
            } else {
                return Err(SettingError::TypeMismatch(string_of(c.as_slice())));
            }
        }
        i = i + 1;
    }
    let c = chars_of(id);
    Err(SettingError::UnknownSetting(string_of(c.as_slice())))
}

/// No two settings share an id.
pub proof fn lemma_setting_ids_distinct(i: int, j: int)
    requires
        0 <= i < spec_settings().len(),
        0 <= j < spec_settings().len(),
        spec_settings()[i].id == spec_settings()[j].id,
    ensures
        i == j,
{
    reveal_strlit("auto-expand");
    reveal_strlit("auto-group-dumps");
    reveal_strlit("long-file-path");
    reveal_strlit("truncate-large-var-types");
    reveal_strlit("notifications");
    reveal_strlit("server-port");
    reveal_strlit("analytics");
    if i != j {
        let a = spec_settings()[i].id;
        let b = spec_settings()[j].id;
        assert(a.len() != b.len() || a[0] != b[0] || a[5] != b[5]);
    }
}

/// A setting together with its current value, as the settings screen
/// receives it.
#[derive(Debug, Clone, PartialEq, Eq)]
pub struct SettingDto {
    pub setting: Setting,
    pub value: SettingValue,
}

/// The value shown for setting `i`: what is stored, or else its default.
pub open spec fn spec_resolved_value(stored: Seq<Option<SettingValueView>>, i: int) -> SettingValueView {
    match stored[i] {
        Some(v) => v,
        None => spec_default_value(spec_settings()[i].default),
    }
}

/// Views of optional stored values.
pub open spec fn stored_view(stored: Seq<Option<SettingValue>>) -> Seq<Option<SettingValueView>> {
    stored.map_values(
        |o: Option<SettingValue>|
            match o {
                Some(v) => Some(v@),
                None => None,
            },
    )
}

/// Pairs every setting with its value: `stored[i]` is what the settings
/// store holds for the `i`-th setting, if anything; a setting with nothing
/// stored shows its default.
pub fn settings_with_values(stored: &Vec<Option<SettingValue>>) -> (r: Vec<SettingDto>)
    requires
        stored@.len() == spec_settings().len(),
    ensures
        r@.len() == spec_settings().len(),
        forall|i: int|
            0 <= i < r@.len() ==> #[trigger] r@[i].setting@ == spec_settings()[i] && r@[i].value@
                == spec_resolved_value(stored_view(stored@), i),
{
    let all = settings();
    let mut r: Vec<SettingDto> = Vec::new();
    let mut i: usize = 0;
    while i < all.len()
        invariant
            i <= all@.len(),
            all@.len() == stored@.len(),
            settings_view(all@) == spec_settings(),
            r@.len() == i,
            forall|k: int|
                0 <= k < i ==> #[trigger] r@[k].setting@ == spec_settings()[k] && r@[k].value@
                    == spec_resolved_value(stored_view(stored@), k),
        decreases all@.len() - i,
    {
        assert(settings_view(all@)[i as int] == all@[i as int]@);
        assert(stored_view(stored@)[i as int] == match stored@[i as int] {
            Some(v) => Some(v@),
            None => None::<SettingValueView>,
        });
        let value = match &stored[i] {
            Some(v) => v.clone(),
            None => default_value(&all[i].default),
        };
        r.push(SettingDto { setting: all[i], value });
        i = i + 1;
    }
    r
}

/// The value the settings screen reads back for the setting at index `i`
/// after `v` was written to it is `v`, and writing leaves every other
/// setting's value as it was.
pub proof fn lemma_written_value_is_read_back(
    stored: Seq<Option<SettingValueView>>,
    id: Seq<char>,
    v: SettingValueView,
)
    requires
        stored.len() == spec_settings().len(),
        accepted_index(id, v) is Some,
    ensures
        ({
            let i = accepted_index(id, v)->0;
            &&& spec_settings()[i].id == id
            &&& spec_resolved_value(stored.update(i, Some(v)), i) == v
            &&& forall|j: int|
                0 <= j < stored.len() && j != i ==> spec_resolved_value(stored.update(i, Some(v)), j)
                    == spec_resolved_value(stored, j)
        }),
{
}

} // verus!
