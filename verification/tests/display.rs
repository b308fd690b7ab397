use quo_client::display::{
    call_site, file_path_label, group_collapsed_after_command, has_expandable_items, is_collapsed,
    line_count, manual_state_after_command, search_results_label, selection_label,
    toggle_origin_filter, var_names,
};
use quo_client::dumps::DumpEntry;
use quo_client::events::{
    address_label, clear_button_outcome, connection_address, connection_event, copied_address,
    notification_body, notifications_enabled,
};
use quo_client::config::SettingValue;
use quo_client::payloads::{IncomingQuoPayload, QuoPayloadLanguage};

fn js_dump(name: &str, value: &str) -> IncomingQuoPayload {
    let mut p = IncomingQuoPayload::default();
    p.language = QuoPayloadLanguage::Javascript;
    p.meta.variable.name = name.to_string();
    p.meta.variable.var_type = "object".to_string();
    p.meta.variable.value = value.to_string();
    p.meta.sender_origin = "C:/project/src/app.js:10".to_string();
    p
}

#[test]
fn lines_are_counted_like_str_lines() {
    assert_eq!(line_count(""), 0);
    assert_eq!(line_count("a"), 1);
    assert_eq!(line_count("a\nb\nc"), 3);
    assert_eq!(line_count("a\n"), 1);
    assert_eq!(line_count("a\r\nb"), 2);
}

#[test]
fn long_code_starts_collapsed_unless_expanded() {
    assert!(is_collapsed(None, false, 7));
    assert!(!is_collapsed(None, false, 6));
    assert!(!is_collapsed(None, true, 100));
    assert!(!is_collapsed(Some(true), false, 100));
    assert!(is_collapsed(Some(false), true, 1));
}

#[test]
fn expandable_items_are_detected() {
    let short = DumpEntry::Single(js_dump("a", "1"));
    assert!(!has_expandable_items(&vec![short.clone()], true, false));
    let group = DumpEntry::Group(vec![js_dump("a", "1"), js_dump("b", "2")]);
    assert!(has_expandable_items(&vec![short.clone(), group.clone()], true, false));
    assert!(!has_expandable_items(&vec![short.clone(), group], false, false));
    let long = DumpEntry::Single(js_dump("c", "[1, 2, 3, 4, 5, 6]"));
    assert!(has_expandable_items(&vec![short, long], false, true));
}

#[test]
fn search_count_is_worded() {
    assert_eq!(search_results_label("", 5), "");
    assert_eq!(search_results_label("x", 1), "1 result");
    assert_eq!(search_results_label("x", 0), "0 results");
    assert_eq!(search_results_label("x", 12), "12 results");
}

#[test]
fn file_paths_are_normalised() {
    assert_eq!(file_path_label("C:\\src\\main.rs:12", false), "main.rs:12");
    assert_eq!(file_path_label("C:\\src\\main.rs:12", true), "C:/src/main.rs:12");
    assert_eq!(file_path_label("main.rs", false), "main.rs");
    assert_eq!(file_path_label("dir/", false), "");
}

#[test]
fn group_headers_name_call_site_and_variables() {
    let dumps = vec![js_dump("first", "1"), js_dump("second", "2")];
    assert_eq!(call_site(&dumps), "app.js:10");
    assert_eq!(var_names(&dumps), "first, second");
    assert_eq!(call_site(&vec![]), "");
    assert_eq!(var_names(&vec![]), "");
}

#[test]
fn diff_selection_is_labelled() {
    assert_eq!(selection_label(None), "");
    assert_eq!(selection_label(Some(0)), "Source");
    assert_eq!(selection_label(Some(1)), "Comparison");
}

#[test]
fn connection_is_shown_once_known() {
    let event = connection_event(7312);
    assert_eq!(event.host, "127.0.0.1");
    assert_eq!(connection_address(&event), Some(("127.0.0.1".to_string(), "7312".to_string())));
    let mut failed = event.clone();
    failed.success = false;
    assert_eq!(connection_address(&failed), None);
    assert_eq!(address_label("127.0.0.1", "7312"), "http://127.0.0.1:7312");
    assert_eq!(address_label("", "7312"), "Waiting for Quo server...");
    assert_eq!(address_label("127.0.0.1", "0"), "Waiting for Quo server...");
    assert_eq!(copied_address("127.0.0.1", "7312"), "127.0.0.1:7312");
}

#[test]
fn notifications_follow_the_setting() {
    assert_eq!(notification_body("src/main.rs:3"), "Received a new payload from src/main.rs:3");
    assert!(notifications_enabled(&Some(SettingValue::Bool(true))));
    assert!(!notifications_enabled(&Some(SettingValue::Bool(false))));
    assert!(!notifications_enabled(&Some(SettingValue::String("true".to_string()))));
    assert!(!notifications_enabled(&None));
}

#[test]
fn clear_button_reports_what_it_did() {
    assert_eq!(clear_button_outcome(true), (true, "Clearing..."));
    assert_eq!(clear_button_outcome(false), (false, "Nothing to delete"));
}

#[test]
fn origin_badge_toggles_the_filter() {
    assert_eq!(toggle_origin_filter(None, "src/a.rs"), Some("src/a.rs".to_string()));
    assert_eq!(toggle_origin_filter(Some("src/a.rs"), "src/a.rs"), None);
    assert_eq!(toggle_origin_filter(Some("src/b.rs"), "src/a.rs"), Some("src/a.rs".to_string()));
    let once = toggle_origin_filter(None, "x");
    assert_eq!(toggle_origin_filter(once.as_deref(), "x"), None);
}

#[test]
fn expand_and_collapse_commands() {
    assert_eq!(manual_state_after_command(None, true, 7), Some(true));
    assert_eq!(manual_state_after_command(Some(true), false, 9), Some(false));
    assert_eq!(manual_state_after_command(None, true, 6), None);
    assert_eq!(manual_state_after_command(Some(false), true, 2), Some(false));
    assert!(group_collapsed_after_command(false, true, true));
    assert!(!group_collapsed_after_command(false, true, false));
    assert!(!group_collapsed_after_command(true, false, true));
}
