use quo_client::editors::{
    editor_candidates, editor_launch, openable_path, probe_for, EditorLaunch, EditorScan, Os,
};

fn strings(v: &[&str]) -> Vec<String> {
    v.iter().map(|s| s.to_string()).collect()
}

#[test]
fn line_suffix_is_dropped_before_opening() {
    assert_eq!(openable_path("src/main.rs:42"), "src/main.rs");
    assert_eq!(openable_path("src/main.rs"), "src/main.rs");
    assert_eq!(openable_path("C:\\a.rs"), "C:\\a.rs");
    assert_eq!(openable_path("C:\\a.rs:3"), "C:\\a.rs");
    assert_eq!(openable_path("a:"), "a:");
    assert_eq!(openable_path(":9"), ":9");
}

#[test]
fn vscode_scheme_opens_a_url() {
    assert_eq!(
        editor_launch("vscode:", "C:\\x\\a.rs:3", true),
        EditorLaunch::OpenUrl("vscode://file/C:/x/a.rs:3".to_string())
    );
    assert_eq!(editor_launch("other:", "/a.rs", false), EditorLaunch::Nothing);
}

#[test]
fn plain_editors_get_goto() {
    assert_eq!(
        editor_launch("code", "/a.rs:3", false),
        EditorLaunch::Spawn { program: "code".to_string(), args: strings(&["--goto", "/a.rs:3"]) }
    );
    assert_eq!(
        editor_launch("code.cmd", "C:/a.rs:3", true),
        EditorLaunch::Spawn { program: "code.cmd".to_string(), args: strings(&["--goto", "C:\\a.rs:3"]) }
    );
}

#[test]
fn jetbrains_editors_get_line_and_column() {
    assert_eq!(
        editor_launch("idea", "/src/a.rs:12:5", false),
        EditorLaunch::Spawn {
            program: "idea".to_string(),
            args: strings(&["--line", "12", "--column", "5", "/src/a.rs"])
        }
    );
    assert_eq!(
        editor_launch("idea64.exe", "C:/src/a.rs:12", true),
        EditorLaunch::Spawn { program: "idea64.exe".to_string(), args: strings(&["--line", "12", "C:\\src\\a.rs"]) }
    );
    assert_eq!(
        editor_launch("rider", "/b.cs", false),
        EditorLaunch::Spawn { program: "rider".to_string(), args: strings(&["/b.cs"]) }
    );
}

#[test]
fn candidates_depend_on_the_system() {
    assert_eq!(editor_candidates(Os::Windows).len(), 12);
    assert_eq!(editor_candidates(Os::Linux).len(), 13);
    assert_eq!(editor_candidates(Os::MacOs)[1].id, "cursor");
    assert!(editor_candidates(Os::Other).is_empty());
}

#[test]
fn probes_follow_the_system() {
    let p = probe_for(Os::Windows, "vscode:");
    assert_eq!(p.program, "reg");
    assert_eq!(p.args, strings(&["query", "HKEY_CLASSES_ROOT\\vscode"]));
    let p = probe_for(Os::MacOs, "vscode:");
    assert_eq!((p.program.as_str(), p.args.clone()), ("open", strings(&["-Ra", "Visual Studio Code"])));
    let p = probe_for(Os::Linux, "vscode:");
    assert_eq!(p.program, "xdg-settings");
    assert!(p.needs_output);
    assert!(!p.found(true, true));
    assert!(p.found(true, false));
    let p = probe_for(Os::Windows, "subl.exe");
    assert_eq!((p.program.as_str(), p.args.clone()), ("where", strings(&["subl.exe"])));
    assert!(p.found(true, true));
    assert!(!p.found(false, false));
}

#[test]
fn scan_takes_first_available_command() {
    let mut scan = EditorScan::new(Os::Linux);
    let first = scan.next_probe().unwrap();
    assert_eq!((first.program.as_str(), first.args.clone()), ("which", strings(&["code"])));
    scan.record(false);
    let second = scan.next_probe().unwrap();
    assert_eq!(second.args, strings(&["get", "default-url-scheme-handler", "vscode"]));
    scan.record(true);
    assert_eq!(scan.editors().len(), 1);
    assert_eq!(scan.editors()[0].id(), "vscode");
    assert_eq!(scan.editors()[0].name(), "VS Code");
    assert_eq!(scan.editors()[0].cmd(), "vscode:");
    let third = scan.next_probe().unwrap();
    assert_eq!(third.args, strings(&["cursor"]));
    let mut rest = 0;
    while scan.next_probe().is_some() {
        scan.record(false);
        rest += 1;
    }
    assert_eq!(rest, 12);
    assert_eq!(scan.editors().len(), 1);
}

#[test]
fn scan_of_unknown_system_finds_nothing() {
    let scan = EditorScan::new(Os::Other);
    assert!(scan.next_probe().is_none());
    assert!(scan.editors().is_empty());
}
