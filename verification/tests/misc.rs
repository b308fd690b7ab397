use quo_client::diff::{diff_sources, diff_view_lines, find_payload, get_diff_for_snippets, render_changes, ChangeKind, DiffLineKind};
use quo_client::highlight::{finish_highlight, highlight_source, syntax_extension, Highlighter};
use quo_client::payloads::{IncomingQuoPayload, QuoPayloadLanguage};
use quo_client::timestamps::{datetime_format, datetime_label, diff_time_label, is_fresh, is_fresh_now};
use quo_client::toast::{deletion_notice, selection_full_notice, toast_class, ToastQueue, ToastType};
use quo_client::version::{is_update, parse_version, release_version};

const THEME: &str = r#"<?xml version="1.0" encoding="UTF-8"?>
<!DOCTYPE plist PUBLIC "-//Apple//DTD PLIST 1.0//EN" "http://www.apple.com/DTDs/PropertyList-1.0.dtd">
<plist version="1.0">
<dict>
    <key>name</key>
    <string>Plain</string>
    <key>settings</key>
    <array>
        <dict>
            <key>settings</key>
            <dict>
                <key>background</key>
                <string>#FFFFFF</string>
                <key>foreground</key>
                <string>#000000</string>
            </dict>
        </dict>
    </array>
</dict>
</plist>
"#;

#[test]
fn newer_releases_are_updates() {
    assert!(is_update("1.2.3", "1.3.0"));
    assert!(!is_update("1.3.0", "1.2.3"));
    assert!(is_update("1.2", "1.2.1"));
    assert!(is_update("0.9.9", "1.0.0"));
    assert!(!is_update("1.2.3", "1.2.3"));
    assert!(!is_update("1.10.0", "1.9.9"));
    assert!(!is_update("2.0.0", "1.99.99"));
    assert!(is_update("abc", "0.0.1"));
    assert!(!is_update("1.0.0.9", "1.0.0.10"));
}

#[test]
fn versions_are_read_leniently() {
    assert_eq!(parse_version("1.x.3"), vec![1, 3]);
    assert_eq!(parse_version("+1.2"), vec![1, 2]);
    assert_eq!(parse_version("-1.2"), vec![2]);
    assert_eq!(parse_version("4294967296.1"), vec![1]);
    assert_eq!(parse_version(""), Vec::<u32>::new());
    assert_eq!(release_version("quo-v1.4.0"), "1.4.0");
    assert_eq!(release_version("v2.0"), "v2.0");
}

#[test]
fn toasts_get_increasing_ids_and_can_be_removed() {
    let mut q = ToastQueue::new();
    let a = q.add_toast("Copied".to_string(), ToastType::Success);
    let b = q.add_toast("Dump not deleted".to_string(), ToastType::Error);
    assert_eq!((a, b), (0, 1));
    assert_eq!(q.toasts().len(), 2);
    q.remove_toast(a);
    assert_eq!(q.toasts().len(), 1);
    assert_eq!(q.toasts()[0].id, 1);
    assert_eq!(q.toasts()[0].text, "Dump not deleted");
    assert_eq!(q.toasts()[0].toast_type, ToastType::Error);
    let c = q.add_toast("x".to_string(), ToastType::Info);
    q.remove_toast(c);
    assert_eq!(q.toasts().len(), 1);
    assert_eq!(q.toasts()[0].id, 1);
}

#[test]
fn toasts_fade_before_they_go() {
    let mut q = ToastQueue::new();
    let a = q.add_toast("one".to_string(), ToastType::Warning);
    let b = q.add_toast("two".to_string(), ToastType::Info);
    assert!(q.toasts()[0].visible);
    q.hide_toast(a);
    assert!(!q.toasts()[0].visible);
    assert!(q.toasts()[1].visible);
    assert_eq!(toast_class(q.toasts()[0].visible), "toast hidden");
    assert_eq!(toast_class(q.toasts()[1].visible), "toast visible");
    assert_eq!(q.toasts()[1].id, b);
    assert_eq!(ToastType::Warning.class(), "warning");
    assert_eq!(ToastType::Error.class(), "error");
}

#[test]
fn snippets_are_diffed_line_by_line() {
    assert_eq!(get_diff_for_snippets("a\nb\n".to_string(), "a\nc\n".to_string()), " a\n-b\n+c\n");
    assert_eq!(get_diff_for_snippets("x".to_string(), "y".to_string()), "-x\n+y\n");
    assert_eq!(get_diff_for_snippets("same\n".to_string(), "same\n".to_string()), " same\n");
    assert_eq!(
        render_changes(&vec![(ChangeKind::Insert, "n\n".to_string()), (ChangeKind::Equal, "e\n".to_string())]),
        "+n\n e\n"
    );
}

#[test]
fn diff_lines_are_classified() {
    let lines = diff_view_lines("  same\n-old\n+new\n  last");
    assert_eq!(lines.len(), 4);
    assert_eq!(lines[0], (DiffLineKind::Unchanged, "same".to_string()));
    assert_eq!(lines[1], (DiffLineKind::Removed, "-old".to_string()));
    assert_eq!(lines[2], (DiffLineKind::Added, "+new".to_string()));
    assert_eq!(lines[3], (DiffLineKind::Unchanged, "last".to_string()));
    assert_eq!(DiffLineKind::Added.label(), "Comparison");
    assert_eq!(DiffLineKind::Removed.class(), "removed");
    let mut p = IncomingQuoPayload::default();
    p.meta.uid = "u2".to_string();
    assert_eq!(find_payload(&vec![IncomingQuoPayload::default(), p], "u2"), Some(1));
    assert_eq!(find_payload(&vec![], "u2"), None);
}

#[test]
fn languages_map_to_syntax_extensions() {
    assert_eq!(syntax_extension(QuoPayloadLanguage::Typescript), "js");
    assert_eq!(syntax_extension(QuoPayloadLanguage::Rust), "rs");
    assert_eq!(syntax_extension(QuoPayloadLanguage::Unknown), "txt");
    assert_eq!(highlight_source(QuoPayloadLanguage::Php, "$a = 1;"), "<?php$a = 1;");
    assert_eq!(highlight_source(QuoPayloadLanguage::Go, "x"), "x");
}

#[test]
fn php_opening_tag_is_removed_from_html() {
    let html = "<pre><span style=\"c\">&lt;?php</span><span>$x</span></pre>";
    assert_eq!(finish_highlight(QuoPayloadLanguage::Php, html), "<pre><span>$x</span></pre>");
    assert_eq!(finish_highlight(QuoPayloadLanguage::Php, "&lt;?php\n$x"), "$x");
    assert_eq!(finish_highlight(QuoPayloadLanguage::Php, "a<?php\nb"), "ab");
    assert_eq!(finish_highlight(QuoPayloadLanguage::Rust, html), html);
}

#[test]
fn code_is_highlighted_as_html() {
    assert!(Highlighter::new(b"not a theme").is_none());
    let h = Highlighter::new(THEME.as_bytes()).expect("theme loads");
    let mut p = IncomingQuoPayload::default();
    p.language = QuoPayloadLanguage::Rust;
    p.meta.variable.var_type = "i32".to_string();
    let html = h.code_syntax_highlighter(&p, "let answer = 42;", "QuoError").unwrap();
    assert!(html.starts_with("<pre"));
    assert!(html.contains("answer"));
    p.meta.variable.var_type = "QuoError".to_string();
    assert_eq!(h.code_syntax_highlighter(&p, "<b>raw</b>", "QuoError").unwrap(), "<b>raw</b>");
    p.language = QuoPayloadLanguage::Php;
    p.meta.variable.var_type = "int".to_string();
    let php = h.code_syntax_highlighter(&p, "// @var int\n$answer = 42", "QuoError").unwrap();
    assert!(php.contains("answer"));
    assert!(!php.contains("&lt;?php"));
}

#[test]
fn dump_times_are_written_in_dutch() {
    assert_eq!(datetime_label(0, (1970, 1, 1)), "00:00:00.000");
    assert_eq!(datetime_label(947638923004, (2000, 1, 12)), "01:02:03.004");
    assert_eq!(datetime_label(947638923004, (2024, 5, 1)), "12 jan 01:02:03.004");
    assert_eq!(datetime_label(0, (2000, 1, 1)), " 1 jan 00:00:00.000");
    assert_eq!(datetime_label(i64::MAX, (2000, 1, 1)), "");
    assert!(datetime_format(0).ends_with("00:00:00.000"));
}

#[test]
fn dumps_are_fresh_for_fifteen_seconds() {
    assert!(is_fresh(1_000_000, 1_014_999));
    assert!(!is_fresh(1_000_000, 1_015_000));
    assert!(is_fresh(1_000_000, 900_000));
    assert!(is_fresh(i64::MAX, 0));
    assert!(!is_fresh_now(0));
}

#[test]
fn notices_for_selection_and_deletion() {
    assert_eq!(selection_full_notice(), ("You can only select up to 2 payloads to diff.", ToastType::Warning));
    assert_eq!(deletion_notice(true), ("Dump was deleted", ToastType::Success));
    assert_eq!(deletion_notice(false), ("Dump not deleted", ToastType::Error));
}

#[test]
fn diff_times_outside_range_are_blank() {
    assert_eq!(diff_time_label(i64::MAX), "");
    assert_eq!(diff_time_label(0).len(), 12);
}

fn civil_day(ms: i64) -> (i32, u32, u32) {
    let z = ms.div_euclid(86_400_000) + 719_468;
    let era = z.div_euclid(146_097);
    let doe = z - era * 146_097;
    let yoe = (doe - doe / 1460 + doe / 36_524 - doe / 146_096) / 365;
    let doy = doe - (365 * yoe + yoe / 4 - yoe / 100);
    let mp = (5 * doy + 2) / 153;
    let day = doy - (153 * mp + 2) / 5 + 1;
    let month = if mp < 10 { mp + 3 } else { mp - 9 };
    let year = yoe + era * 400 + if month <= 2 { 1 } else { 0 };
    (year as i32, month as u32, day as u32)
}

#[test]
fn utc_days_follow_the_civil_calendar() {
    let mut x: u64 = 0x2545_f491_4f6c_dd1d;
    for _ in 0..2000 {
        x ^= x << 13;
        x ^= x >> 7;
        x ^= x << 17;
        let ms = (x % 16_000_000_000_000_000) as i64 - 8_000_000_000_000_000;
        assert_eq!(datetime_label(ms, civil_day(ms)).len(), 12, "{}", ms);
    }
    for ms in [0i64, -1, 86_399_999, 86_400_000, -86_400_000, 951_782_400_000, 8_210_266_790_400_000, -8_334_601_228_800_000] {
        assert_eq!(datetime_label(ms, civil_day(ms)).len(), 12, "{}", ms);
    }
    assert_eq!(datetime_label(8_210_266_876_800_000, (2000, 1, 1)), "");
    assert_eq!(datetime_label(-8_334_601_228_800_001, (2000, 1, 1)), "");
}

#[test]
fn diff_time_labels_are_clock_texts() {
    let label = diff_time_label(1_234);
    assert_eq!(label.len(), 12);
    let b = label.as_bytes();
    assert_eq!((b[2], b[5], b[8]), (b':', b':', b'.'));
    assert!(label.ends_with(".234"));
}

#[test]
fn diff_window_compares_the_two_selected_dumps() {
    let mut first = IncomingQuoPayload::default();
    first.language = QuoPayloadLanguage::Javascript;
    first.meta.uid = "a".to_string();
    first.meta.variable.name = "x".to_string();
    first.meta.variable.var_type = "number".to_string();
    first.meta.variable.value = "1".to_string();
    let mut second = first.clone();
    second.meta.uid = "b".to_string();
    second.meta.variable.value = "2".to_string();
    let all = vec![first, second];
    let pick = |u: &[&str]| u.iter().map(|s| s.to_string()).collect::<Vec<String>>();
    assert_eq!(
        diff_sources(&all, &pick(&["b", "a"])),
        Some(("let x: number = 2".to_string(), "let x: number = 1".to_string()))
    );
    assert_eq!(diff_sources(&all, &pick(&["a"])), None);
    assert_eq!(diff_sources(&all, &pick(&["a", "zzz"])), None);
}
