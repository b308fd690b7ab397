use quo_client::config::{
    categories, default_value, settings, settings_for, settings_with_values, validate_setting_update,
    Category, DefaultValue, SettingError, SettingValue,
};
use quo_client::settings::{
    analytics_enabled, bool_setting, find_setting, flag_of, setting_categories, settings_in_category,
    sidebar_settings, AppSettings, DisplayFlag, SettingDto,
};
use quo_client::themes::{order_themes, sort_names};

fn frontend_settings(stored: Vec<Option<SettingValue>>) -> Vec<SettingDto> {
    settings_with_values(&stored).iter().map(SettingDto::from_backend).collect()
}

#[test]
fn categories_are_listed_in_screen_order() {
    assert_eq!(categories(), vec![Category::Ui, Category::Server, Category::Privacy, Category::About]);
    assert_eq!(Category::Ui.label(), "Quo");
    assert_eq!(Category::About.label(), "About");
}

#[test]
fn settings_table_has_known_ids_and_defaults() {
    let all = settings();
    let ids: Vec<&str> = all.iter().map(|s| s.id).collect();
    assert_eq!(
        ids,
        vec![
            "auto-expand",
            "auto-group-dumps",
            "long-file-path",
            "truncate-large-var-types",
            "notifications",
            "server-port",
            "analytics"
        ]
    );
    assert_eq!(all[5].default, DefaultValue::Int(7779));
    assert_eq!(settings_for(Category::Privacy).len(), 1);
    assert_eq!(settings_for(Category::Ui).len(), 5);
    assert_eq!(settings_for(Category::About).len(), 0);
}

#[test]
fn defaults_become_values() {
    assert_eq!(default_value(&DefaultValue::Bool(true)), SettingValue::Bool(true));
    assert_eq!(default_value(&DefaultValue::Int(-12)), SettingValue::Number("-12".to_string()));
    assert_eq!(default_value(&DefaultValue::Str("x")), SettingValue::String("x".to_string()));
    assert_eq!(default_value(&DefaultValue::Float("0.5")), SettingValue::Number("0.5".to_string()));
}

#[test]
fn unknown_setting_is_refused() {
    let err = validate_setting_update("nope", &SettingValue::Bool(true)).unwrap_err();
    assert_eq!(err, SettingError::UnknownSetting("nope".to_string()));
    assert_eq!(err.message(), "Unknown setting: nope");
}

#[test]
fn mistyped_value_is_refused() {
    let err = validate_setting_update("auto-expand", &SettingValue::String("yes".to_string())).unwrap_err();
    assert_eq!(err, SettingError::TypeMismatch("auto-expand".to_string()));
    assert_eq!(err.message(), "Type mismatch for setting: auto-expand");
    assert!(validate_setting_update("server-port", &SettingValue::Bool(true)).is_err());
}

#[test]
fn well_typed_value_is_accepted() {
    assert_eq!(validate_setting_update("server-port", &SettingValue::Number("7000".to_string())), Ok(5));
    assert_eq!(validate_setting_update("analytics", &SettingValue::Bool(true)), Ok(6));
}

#[test]
fn stored_values_win_over_defaults() {
    let mut stored: Vec<Option<SettingValue>> = vec![None; 7];
    stored[2] = Some(SettingValue::Bool(true));
    let dtos = settings_with_values(&stored);
    assert_eq!(dtos.len(), 7);
    assert_eq!(dtos[0].value, SettingValue::Bool(true));
    assert_eq!(dtos[2].value, SettingValue::Bool(true));
    assert_eq!(dtos[3].value, SettingValue::Bool(false));
    assert_eq!(dtos[5].value, SettingValue::Number("7779".to_string()));
}

#[test]
fn frontend_reads_flags_from_the_list() {
    let all = frontend_settings(vec![None; 7]);
    assert_eq!(all[0].category, "Quo");
    assert_eq!(find_setting(&all, "analytics"), Some(6));
    assert_eq!(bool_setting(&all, "auto-expand"), Some(true));
    assert_eq!(bool_setting(&all, "server-port"), None);
    assert_eq!(bool_setting(&all, "missing"), None);
    assert!(!analytics_enabled(&all));
    assert_eq!(sidebar_settings(&all).len(), 4);
    assert_eq!(settings_in_category(&all, "Privacy").len(), 1);
    assert_eq!(setting_categories(&all), vec!["Quo".to_string(), "Server".to_string(), "Privacy".to_string(), "About".to_string()]);
}

#[test]
fn toggling_a_setting_reads_back() {
    let mut app = AppSettings::new();
    assert!(app.auto_group);
    assert_eq!(app.theme, "Quo (default)");
    app.apply_loaded(frontend_settings(vec![None; 7]));
    assert!(!app.checked("analytics"));
    app.set_bool_setting("analytics", true);
    assert!(app.checked("analytics"));
    assert!(analytics_enabled(&app.all_settings));
    app.set_bool_setting("auto-group-dumps", false);
    assert!(!app.auto_group);
    assert!(!app.checked("auto-group-dumps"));
    app.set_string_setting("theme", "Dark");
    assert_eq!(app.theme, "Dark");
    assert_eq!(flag_of("long-file-path"), Some(DisplayFlag::LongFilePath));
    assert_eq!(flag_of("analytics"), None);
}

#[test]
fn loaded_flags_follow_the_list() {
    let mut stored: Vec<Option<SettingValue>> = vec![None; 7];
    stored[0] = Some(SettingValue::Bool(false));
    stored[3] = Some(SettingValue::Bool(true));
    let mut app = AppSettings::new();
    app.apply_loaded(frontend_settings(stored));
    assert!(!app.auto_expand);
    assert!(app.truncate_large_var_types);
    assert!(app.auto_group);
    assert!(!app.long_file_path);
}

#[test]
fn themes_are_sorted_with_default_first() {
    let found = vec!["Solar".to_string(), "Quo (default)".to_string(), "Dark".to_string(), "Abyss".to_string()];
    assert_eq!(order_themes(found), vec!["Quo (default)", "Abyss", "Dark", "Solar"]);
    assert_eq!(order_themes(vec![]), vec!["Quo (default)"]);
    assert_eq!(order_themes(vec!["b".to_string(), "B".to_string(), "a".to_string()]), vec!["B", "a", "b"]);
    assert_eq!(sort_names(&vec!["b".to_string(), "a".to_string(), "b".to_string()]), vec!["a", "b", "b"]);
}

#[test]
fn newer_release_is_remembered() {
    let mut app = AppSettings::new();
    app.record_release("1.2.0", "quo-v1.1.9");
    assert!(!app.update_available);
    assert_eq!(app.latest_version, None);
    app.record_release("1.2.0", "quo-v1.3.0");
    assert!(app.update_available);
    assert_eq!(app.latest_version, Some("1.3.0".to_string()));
}

#[test]
fn default_settings_match_new() {
    let d = AppSettings::default();
    assert_eq!(d, AppSettings::new());
    assert!(d.auto_expand);
    assert_eq!(d.latest_version, None);
}
