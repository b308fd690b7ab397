use quo_client::dumps::{
    clear_entries, delete_payload, dump_entries, filter_payloads, find_string, group_consecutive, origin_groups,
    receive_payload, sort_payloads, toggle_selection, DumpEntry, PayloadOrder,
};
use quo_client::payloads::IncomingQuoPayload;

fn dump(id: u32, time: i64, origin: &str, hash: Option<&str>) -> IncomingQuoPayload {
    let mut p = IncomingQuoPayload::default();
    p.meta.id = id;
    p.meta.uid = format!("uid-{}", id);
    p.meta.time_epoch_ms = time;
    p.meta.origin = origin.to_string();
    p.meta.variable.name = format!("var{}", id);
    p.meta.variable.var_type = "i32".to_string();
    p.meta.variable.value = format!("{}", id * 10);
    p.meta.variable.grouping_hash = hash.map(|h| h.to_string());
    p
}

fn ids(v: &[IncomingQuoPayload]) -> Vec<u32> {
    v.iter().map(|p| p.meta.id).collect()
}

#[test]
fn newest_dumps_come_first() {
    let input = vec![dump(1, 100, "a", None), dump(2, 300, "a", None), dump(3, 300, "a", None), dump(4, 200, "a", None)];
    let sorted = sort_payloads(input, PayloadOrder::NewestFirst);
    assert_eq!(ids(&sorted), vec![3, 2, 4, 1]);
}

#[test]
fn sorting_by_origin_is_stable() {
    let input = vec![dump(1, 0, "b.rs", None), dump(2, 0, "a.rs", None), dump(3, 0, "b.rs", None), dump(4, 0, "a.rs", None)];
    let sorted = sort_payloads(input, PayloadOrder::ByOrigin);
    assert_eq!(ids(&sorted), vec![2, 4, 1, 3]);
    let by_id = sort_payloads(vec![dump(5, 0, "x", None), dump(9, 0, "x", None), dump(7, 0, "x", None)], PayloadOrder::HighestIdFirst);
    assert_eq!(ids(&by_id), vec![9, 7, 5]);
}

#[test]
fn consecutive_dumps_with_one_hash_are_grouped() {
    let input = vec![
        dump(1, 0, "a", Some("h")),
        dump(2, 0, "a", Some("h")),
        dump(3, 0, "a", None),
        dump(4, 0, "a", None),
        dump(5, 0, "a", Some("h")),
        dump(6, 0, "a", Some("")),
        dump(7, 0, "a", Some("")),
    ];
    let runs = group_consecutive(input);
    let shape: Vec<Vec<u32>> = runs.iter().map(|g| ids(g)).collect();
    assert_eq!(shape, vec![vec![1, 2], vec![3], vec![4], vec![5], vec![6], vec![7]]);
}

#[test]
fn dump_list_groups_calls_and_orders_groups_by_id() {
    let input = vec![
        dump(1, 100, "a", Some("call")),
        dump(2, 100, "a", Some("call")),
        dump(3, 50, "a", None),
    ];
    let entries = dump_entries(input);
    assert_eq!(entries.len(), 2);
    match &entries[0] {
        DumpEntry::Group(g) => assert_eq!(ids(g), vec![2, 1]),
        DumpEntry::Single(_) => panic!("expected a group"),
    }
    match &entries[1] {
        DumpEntry::Single(p) => assert_eq!(p.meta.id, 3),
        DumpEntry::Group(_) => panic!("expected a single dump"),
    }
}

#[test]
fn dump_list_keeps_every_dump() {
    let input = vec![dump(1, 3, "a", Some("x")), dump(2, 2, "a", Some("y")), dump(3, 1, "a", Some("x")), dump(4, 1, "a", Some("x"))];
    let entries = dump_entries(input);
    let mut all: Vec<u32> = Vec::new();
    for e in &entries {
        match e {
            DumpEntry::Single(p) => all.push(p.meta.id),
            DumpEntry::Group(g) => all.extend(ids(g)),
        }
    }
    all.sort();
    assert_eq!(all, vec![1, 2, 3, 4]);
    assert_eq!(entries.len(), 3);
}

#[test]
fn search_matches_any_field_case_insensitively() {
    let mut with_addr = dump(3, 0, "src/lib.rs", None);
    with_addr.meta.variable.memory_address = Some("0xDEAD".to_string());
    let input = vec![dump(1, 0, "src/main.rs", None), dump(2, 0, "src/Other.rs", None), with_addr];
    assert_eq!(ids(&filter_payloads(input.clone(), "OTHER", None)), vec![2]);
    assert_eq!(ids(&filter_payloads(input.clone(), "dead", None)), vec![3]);
    assert_eq!(ids(&filter_payloads(input.clone(), "VAR1", None)), vec![1]);
    assert_eq!(ids(&filter_payloads(input.clone(), "", None)), vec![1, 2, 3]);
    assert_eq!(ids(&filter_payloads(input.clone(), "", Some("src/lib.rs"))), vec![3]);
    assert_eq!(ids(&filter_payloads(input, "var", Some("src/main.rs"))), vec![1]);
}

#[test]
fn origins_are_chunked_in_order() {
    let input = vec![dump(1, 0, "b", None), dump(2, 0, "a", None), dump(3, 0, "b", None)];
    let groups = origin_groups(input);
    assert_eq!(groups.len(), 2);
    assert_eq!(groups[0].0, "a");
    assert_eq!(ids(&groups[0].1), vec![2]);
    assert_eq!(groups[1].0, "b");
    assert_eq!(ids(&groups[1].1), vec![1, 3]);
}

#[test]
fn deleting_reports_a_single_removal() {
    let input = vec![dump(1, 0, "a", None), dump(2, 0, "a", None)];
    let (kept, ok) = delete_payload(input.clone(), "uid-1");
    assert_eq!(ids(&kept), vec![2]);
    assert!(ok);
    let (kept, ok) = delete_payload(input, "uid-9");
    assert_eq!(ids(&kept), vec![1, 2]);
    assert!(!ok);
    let mut twice = dump(3, 0, "a", None);
    twice.meta.uid = "uid-1".to_string();
    let (kept, ok) = delete_payload(vec![dump(1, 0, "a", None), twice], "uid-1");
    assert!(kept.is_empty());
    assert!(!ok);
}

#[test]
fn deleting_a_received_dump_restores_the_list() {
    let mut shown = vec![dump(1, 0, "a", None), dump(2, 0, "a", None)];
    receive_payload(&mut shown, dump(3, 0, "a", None));
    assert_eq!(ids(&shown), vec![3, 1, 2]);
    let (kept, ok) = delete_payload(shown, "uid-3");
    assert_eq!(ids(&kept), vec![1, 2]);
    assert!(ok);
}

#[test]
fn at_most_two_dumps_are_selected() {
    let mut uids: Vec<String> = Vec::new();
    assert!(toggle_selection(&mut uids, "a"));
    assert!(toggle_selection(&mut uids, "b"));
    assert!(!toggle_selection(&mut uids, "c"));
    assert_eq!(uids, vec!["a".to_string(), "b".to_string()]);
    assert!(toggle_selection(&mut uids, "a"));
    assert_eq!(uids, vec!["b".to_string()]);
    assert!(toggle_selection(&mut uids, "c"));
    assert_eq!(uids, vec!["b".to_string(), "c".to_string()]);
}

#[test]
fn finds_the_first_equal_string() {
    let v = vec!["x".to_string(), "y".to_string(), "y".to_string()];
    assert_eq!(find_string(&v, "y"), Some(1));
    assert_eq!(find_string(&v, "z"), None);
}

#[test]
fn clearing_resets_the_board() {
    let mut shown = vec![dump(1, 0, "a", None)];
    let mut selected = vec!["uid-1".to_string()];
    let mut diff_mode = true;
    let mut group = Some("a".to_string());
    clear_entries(&mut shown, &mut selected, &mut diff_mode, &mut group);
    assert!(shown.is_empty());
    assert!(selected.is_empty());
    assert!(!diff_mode);
    assert_eq!(group, None);
}
