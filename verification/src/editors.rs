//! Opening a dump's source location: in the default application, in the
//! file manager, or in one of the code editors found on the machine.

use vstd::prelude::*;
use crate::text::{
    chars_of, char_width, contains_chars, contains_seq, ends_with, ends_with_chars,
    last_index_of, last_index_of_char, lemma_last_index_of, push_all, push_str, replace_all,
    replace_char, slice_chars, split_by, split_chars, str_eq, string_of, trim_end_char,
    trim_end_char_exec, utf8_len, utf8_len_at_least, utf8_width,
};

verus! {

// ---------------------------------------------------------------------------
// Paths
// ---------------------------------------------------------------------------

/// A dump's origin `file:line` without the part after its last `:`, unless
/// that colon is one of the first two bytes (a drive letter such as `C:`).
pub open spec fn spec_openable_path(path: Seq<char>) -> Seq<char> {
    match last_index_of(path, ':') {
        Some(k) => if utf8_len(path.take(k)) > 1 {
            path.take(k)
        } else {
            path
        },
        None => path,
    }
}

/// The file to open or reveal for a dump's origin (see
/// [`spec_openable_path`]).
pub fn openable_path(path: &str) -> (r: String)
    ensures
        r@ == spec_openable_path(path@),
{
    let p = chars_of(path);
    match last_index_of_char(p.as_slice(), ':') {
        Some(k) => {
            proof {
                lemma_last_index_of(p@, ':');
            }
            let prefix = slice_chars(p.as_slice(), 0, k);
            assert(prefix@ =~= p@.take(k as int));
            if utf8_len_at_least(prefix.as_slice(), 2) {
                string_of(prefix.as_slice())
            } else {
                string_of(p.as_slice())
            }
        },
        None => string_of(p.as_slice()),
    }
}

// ---------------------------------------------------------------------------
// Launching an editor
// ---------------------------------------------------------------------------

/// How to open a file in an editor.
#[derive(Debug, Clone, PartialEq, Eq)]
pub enum EditorLaunch {
    /// Open this URL with the system's URL handler.
    OpenUrl(String),
    /// Start `program` with these arguments.
    Spawn { program: String, args: Vec<String> },
    /// Nothing to do (a URL scheme other than `vscode:`).
    Nothing,
}

/// `EditorLaunch` with its texts as character sequences.
pub enum EditorLaunchView {
    OpenUrl(Seq<char>),
    Spawn { program: Seq<char>, args: Seq<Seq<char>> },
    Nothing,
}

/// Views of a list of strings.
pub open spec fn strings_view(v: Seq<String>) -> Seq<Seq<char>> {
    v.map_values(|s: String| s@)
}

impl View for EditorLaunch {
    type V = EditorLaunchView;

    open spec fn view(&self) -> EditorLaunchView {
        match self {
            EditorLaunch::OpenUrl(u) => EditorLaunchView::OpenUrl(u@),
            EditorLaunch::Spawn { program, args } => EditorLaunchView::Spawn {
                program: program@,
                args: strings_view(args@),
            },
            EditorLaunch::Nothing => EditorLaunchView::Nothing,
        }
    }
}

/// The command names that mark a JetBrains IDE.
pub open spec fn is_jetbrains(cmd: Seq<char>) -> bool {
    ||| contains_seq(cmd, "idea"@)
    ||| contains_seq(cmd, "rustrover"@)
    ||| contains_seq(cmd, "webstorm"@)
    ||| contains_seq(cmd, "phpstorm"@)
    ||| contains_seq(cmd, "pycharm"@)
    ||| contains_seq(cmd, "goland"@)
    ||| contains_seq(cmd, "datagrip"@)
    ||| contains_seq(cmd, "clion"@)
    ||| contains_seq(cmd, "rider"@)
}

/// `path` with `/` turned into `\` on Windows.
pub open spec fn native_path(path: Seq<char>, windows: bool) -> Seq<char> {
    if windows {
        replace_all(path, seq!['/'], seq!['\\'])
    } else {
        path
    }
}

/// The file path and the `line`, `column` parts of a `file:line:column`
/// origin.  On Windows a one-byte first part is a drive letter and is joined
/// back to the part after it.
pub open spec fn jetbrains_target(path: Seq<char>, windows: bool) -> (Seq<char>, Seq<Seq<char>>) {
    let ps = split_by(path, seq![':']);
    if windows && ps[0].len() == 1 && utf8_width(ps[0][0]) == 1 {
        (
            ps[0] + seq![':'] + (if ps.len() > 1 {
                ps[1]
            } else {
                Seq::empty()
            }),
            if ps.len() >= 2 {
                ps.skip(2)
            } else {
                Seq::empty()
            },
        )
    } else {
        (ps[0], ps.skip(1))
    }
}

/// The arguments for a JetBrains IDE: `--line L` and `--column C` when the
/// origin has them, then the file.
pub open spec fn jetbrains_args(path: Seq<char>, windows: bool) -> Seq<Seq<char>> {
    let (file, rest) = jetbrains_target(path, windows);
    (if rest.len() > 0 {
        seq!["--line"@, rest[0]] + (if rest.len() > 1 {
            seq!["--column"@, rest[1]]
        } else {
            Seq::empty()
        })
    } else {
        Seq::empty()
    }) + seq![native_path(file, windows)]
}

/// How `open_in_editor(cmd, path)` opens a file: a command ending in `:` is
/// a URL scheme, and only `vscode:` is handled, by opening
/// `vscode://file/<path with / separators>`; any other command is started
/// with `--line`/`--column` arguments for JetBrains IDEs and `--goto <path>`
/// for the rest.
pub open spec fn spec_editor_launch(cmd: Seq<char>, path: Seq<char>, windows: bool) -> EditorLaunchView {
    if ends_with(cmd, seq![':']) {
        if trim_end_char(cmd, ':') == "vscode"@ {
            EditorLaunchView::OpenUrl("vscode://file/"@ + replace_all(path, seq!['\\'], seq!['/']))
        } else {
            EditorLaunchView::Nothing
        }
    } else if is_jetbrains(cmd) {
        EditorLaunchView::Spawn { program: cmd, args: jetbrains_args(path, windows) }
    } else {
        EditorLaunchView::Spawn { program: cmd, args: seq!["--goto"@, native_path(path, windows)] }
    }
}

/// A command that is not a URL scheme starts itself.  A JetBrains IDE (a
/// command naming idea, rustrover, webstorm, phpstorm, pycharm, goland,
/// datagrip, clion or rider) gets `--line L` and, if there is one,
/// `--column C` from the `:`-separated parts of the origin after the file,
/// then the file; any other editor gets `--goto` and the whole origin.  On
/// Windows a JetBrains IDE still gets an odd number of arguments, led by
/// `--line` when there are several.
pub proof fn lemma_jetbrains_editors_get_line_and_column(cmd: Seq<char>, path: Seq<char>)
    requires
        !ends_with(cmd, seq![':']),
    ensures
        ({
            let parts = split_by(path, seq![':']);
            let named = contains_seq(cmd, "idea"@) || contains_seq(cmd, "rustrover"@)
                || contains_seq(cmd, "webstorm"@) || contains_seq(cmd, "phpstorm"@) || contains_seq(
                cmd,
                "pycharm"@,
            ) || contains_seq(cmd, "goland"@) || contains_seq(cmd, "datagrip"@) || contains_seq(
                cmd,
                "clion"@,
            ) || contains_seq(cmd, "rider"@);
            &&& named ==> spec_editor_launch(cmd, path, false) == EditorLaunchView::Spawn {
                program: cmd,
                args: (if parts.len() > 1 {
                    seq!["--line"@, parts[1]] + (if parts.len() > 2 {
                        seq!["--column"@, parts[2]]
                    } else {
                        Seq::empty()
                    })
                } else {
                    Seq::empty()
                }) + seq![parts[0]],
            }
            &&& named ==> (spec_editor_launch(cmd, path, true) matches EditorLaunchView::Spawn {
                program,
                args,
            } && program == cmd && args.len() % 2 == 1 && (args.len() > 1 ==> args[0] == "--line"@))
            &&& !named ==> spec_editor_launch(cmd, path, false) == EditorLaunchView::Spawn {
                program: cmd,
                args: seq!["--goto"@, path],
            }
        }),
{
    crate::text::lemma_split_from_nonempty(path, seq![':'], 0);
    let ps = split_by(path, seq![':']);
    assert(ps.skip(1).len() == ps.len() - 1);
    if ps.len() > 1 {
        assert(ps.skip(1)[0] == ps[1]);
    }
    if ps.len() > 2 {
        assert(ps.skip(1)[1] == ps[2]);
    }
    let (file, rest) = jetbrains_target(path, true);
    let a = jetbrains_args(path, true);
    if rest.len() > 1 {
        assert(a.len() == 5);
    } else if rest.len() > 0 {
        assert(a.len() == 3);
    } else {
        assert(a.len() == 1);
    }
}

fn has(cmd: &[char], name: &str) -> (b: bool)
    ensures
        b == contains_seq(cmd@, name@),
{
    let n = chars_of(name);
    contains_chars(cmd, n.as_slice())
}

fn native_path_exec(path: &str, windows: bool) -> (r: String)
    ensures
        r@ == native_path(path@, windows),
{
    if windows {
        replace_char(path, '/', '\\')
    } else {
        let p = chars_of(path);
        string_of(p.as_slice())
    }
}

fn owned(s: &str) -> (r: String)
    ensures
        r@ == s@,
{
    let c = chars_of(s);
    string_of(c.as_slice())
}

/// Decides how to open `path` in the editor started by `cmd` (see
/// [`spec_editor_launch`]); `windows` tells whether this runs on Windows.
pub fn editor_launch(cmd: &str, path: &str, windows: bool) -> (r: EditorLaunch)
    ensures
        r@ == spec_editor_launch(cmd@, path@, windows),
{
    let c = chars_of(cmd);
    let colon: Vec<char> = vec![':'];
    assert(colon@ =~= seq![':']);
    if ends_with_chars(c.as_slice(), colon.as_slice()) {
        let protocol = trim_end_char_exec(c.as_slice(), ':');
        let vs = chars_of("vscode");
        if crate::text::chars_eq(protocol.as_slice(), vs.as_slice()) {
            let mut url: Vec<char> = Vec::new();
            push_str(&mut url, "vscode://file/");
            let fixed = replace_char(path, '\\', '/');
            push_str(&mut url, fixed.as_str());
            EditorLaunch::OpenUrl(string_of(url.as_slice()))
        } else {
            EditorLaunch::Nothing
        }
    } else {
        let cs = c.as_slice();
        let jetbrains = has(cs, "idea") || has(cs, "rustrover") || has(cs, "webstorm") || has(
            cs,
            "phpstorm",
        ) || has(cs, "pycharm") || has(cs, "goland") || has(cs, "datagrip") || has(cs, "clion")
            || has(cs, "rider");
        let mut args: Vec<String> = Vec::new();
        if jetbrains {
            let p = chars_of(path);
            let ps = split_chars(p.as_slice(), colon.as_slice());
            let ghost psv = ps.deep_view();
            proof {
                crate::text::lemma_split_from_nonempty(p@, colon@, 0);
            }
            assert(ps[0]@ == psv[0]);
            let drive = windows && ps[0].len() == 1 && char_width(ps[0][0]) == 1;
            let mut file: Vec<char> = Vec::new();
            let first_rest: usize = if drive {
                push_all(&mut file, ps[0].as_slice());
                file.push(':');
                if ps.len() > 1 {
                    assert(ps[1]@ == psv[1]);
                    push_all(&mut file, ps[1].as_slice());
                }
                2
            } else {
                push_all(&mut file, ps[0].as_slice());
                1
            };
            let ghost (tfile, trest) = jetbrains_target(path@, windows);
            assert(file@ =~= tfile);
            assert(trest =~= if first_rest <= psv.len() {
                psv.skip(first_rest as int)
            } else {
                Seq::empty()
            });
            if first_rest < ps.len() {
                assert(ps[first_rest as int]@ == psv[first_rest as int]);
                args.push(owned("--line"));
                args.push(string_of(ps[first_rest].as_slice()));
                if first_rest + 1 < ps.len() {
                    assert(ps[first_rest + 1]@ == psv[first_rest + 1]);
                    args.push(owned("--column"));
                    args.push(string_of(ps[first_rest + 1].as_slice()));
                }
            }
            let f = string_of(file.as_slice());
            args.push(native_path_exec(f.as_str(), windows));
            assert(strings_view(args@) =~= jetbrains_args(path@, windows));
        } else {
            args.push(owned("--goto"));
            args.push(native_path_exec(path, windows));
            assert(strings_view(args@) =~= seq!["--goto"@, native_path(path@, windows)]);
        }
        EditorLaunch::Spawn { program: string_of(cs), args }
    }
}

// ---------------------------------------------------------------------------
// Finding the installed editors
// ---------------------------------------------------------------------------

/// The operating system the desktop app runs on.
#[derive(Debug, Clone, Copy, PartialEq, Eq, Structural)]
pub enum Os {
    Windows,
    MacOs,
    Linux,
    Other,
}

/// An editor and the commands that reveal it, tried in order.
#[derive(Debug, Clone, PartialEq, Eq)]
pub struct EditorCandidate {
    pub id: &'static str,
    pub name: &'static str,
    pub commands: Vec<&'static str>,
}

/// `EditorCandidate` with its texts as character sequences.
pub struct CandidateView {
    pub id: Seq<char>,
    pub name: Seq<char>,
    pub commands: Seq<Seq<char>>,
}

impl View for EditorCandidate {
    type V = CandidateView;

    open spec fn view(&self) -> CandidateView {
        CandidateView {
            id: self.id@,
            name: self.name@,
            commands: self.commands@.map_values(|c: &'static str| c@),
        }
    }
}

/// Views of a list of candidates.
pub open spec fn candidates_view(v: Seq<EditorCandidate>) -> Seq<CandidateView> {
    v.map_values(|c: EditorCandidate| c@)
}

/// The editors looked for on Windows.
pub open spec fn windows_candidates() -> Seq<CandidateView> {
    seq![
        CandidateView { id: "vscode"@, name: "VS Code"@, commands: seq!["code.cmd"@, "vscode:"@] },
        CandidateView { id: "sublime"@, name: "Sublime Text"@, commands: seq!["subl.exe"@] },
        CandidateView { id: "zed"@, name: "Zed"@, commands: seq!["zed.exe"@] },
        CandidateView { id: "intellij"@, name: "IntelliJ IDEA"@, commands: seq!["idea64.exe"@, "idea.cmd"@] },
        CandidateView { id: "rustrover"@, name: "RustRover"@, commands: seq!["rustrover64.exe"@, "rustrover.cmd"@] },
        CandidateView { id: "webstorm"@, name: "WebStorm"@, commands: seq!["webstorm64.exe"@, "webstorm.cmd"@] },
        CandidateView { id: "phpstorm"@, name: "PhpStorm"@, commands: seq!["phpstorm64.exe"@, "phpstorm.cmd"@] },
        CandidateView { id: "pycharm"@, name: "PyCharm"@, commands: seq!["pycharm64.exe"@, "pycharm.cmd"@] },
        CandidateView { id: "goland"@, name: "GoLand"@, commands: seq!["goland64.exe"@, "goland.cmd"@] },
        CandidateView { id: "datagrip"@, name: "DataGrip"@, commands: seq!["datagrip64.exe"@, "datagrip.cmd"@] },
        CandidateView { id: "clion"@, name: "CLion"@, commands: seq!["clion64.exe"@, "clion.cmd"@] },
        CandidateView { id: "rider"@, name: "Rider"@, commands: seq!["rider64.exe"@, "rider.cmd"@] },
    ]
}

/// The editors looked for on macOS and Linux.
pub open spec fn unix_candidates() -> Seq<CandidateView> {
    seq![
        CandidateView { id: "vscode"@, name: "VS Code"@, commands: seq!["code"@, "vscode:"@] },
        CandidateView { id: "cursor"@, name: "Cursor"@, commands: seq!["cursor"@] },
        CandidateView { id: "subl"@, name: "Sublime Text"@, commands: seq!["subl"@] },
        CandidateView { id: "zed"@, name: "Zed"@, commands: seq!["zed"@] },
        CandidateView { id: "idea"@, name: "IntelliJ IDEA"@, commands: seq!["idea"@] },
        CandidateView { id: "rustrover"@, name: "RustRover"@, commands: seq!["rustrover"@] },
        CandidateView { id: "webstorm"@, name: "WebStorm"@, commands: seq!["webstorm"@] },
        CandidateView { id: "phpstorm"@, name: "PhpStorm"@, commands: seq!["phpstorm"@] },
        CandidateView { id: "pycharm"@, name: "PyCharm"@, commands: seq!["pycharm"@] },
        CandidateView { id: "goland"@, name: "GoLand"@, commands: seq!["goland"@] },
        CandidateView { id: "datagrip"@, name: "DataGrip"@, commands: seq!["datagrip"@] },
        CandidateView { id: "clion"@, name: "CLion"@, commands: seq!["clion"@] },
        CandidateView { id: "rider"@, name: "Rider"@, commands: seq!["rider"@] },
    ]
}

/// The editors looked for on `os`; none on other systems.
pub open spec fn spec_candidates(os: Os) -> Seq<CandidateView> {
    match os {
        Os::Windows => windows_candidates(),
        Os::MacOs | Os::Linux => unix_candidates(),
        Os::Other => Seq::empty(),
    }
}

/// The editors looked for on `os` (see [`spec_candidates`]).
pub fn editor_candidates(os: Os) -> (r: Vec<EditorCandidate>)
    ensures
        candidates_view(r@) == spec_candidates(os),
{
    match os {
        Os::Windows => {
            let r = vec![
            EditorCandidate { id: "vscode", name: "VS Code", commands: vec!["code.cmd", "vscode:"] },
            EditorCandidate { id: "sublime", name: "Sublime Text", commands: vec!["subl.exe"] },
            EditorCandidate { id: "zed", name: "Zed", commands: vec!["zed.exe"] },
            EditorCandidate { id: "intellij", name: "IntelliJ IDEA", commands: vec!["idea64.exe", "idea.cmd"] },
            EditorCandidate { id: "rustrover", name: "RustRover", commands: vec!["rustrover64.exe", "rustrover.cmd"] },
            EditorCandidate { id: "webstorm", name: "WebStorm", commands: vec!["webstorm64.exe", "webstorm.cmd"] },
            EditorCandidate { id: "phpstorm", name: "PhpStorm", commands: vec!["phpstorm64.exe", "phpstorm.cmd"] },
            EditorCandidate { id: "pycharm", name: "PyCharm", commands: vec!["pycharm64.exe", "pycharm.cmd"] },
            EditorCandidate { id: "goland", name: "GoLand", commands: vec!["goland64.exe", "goland.cmd"] },
            EditorCandidate { id: "datagrip", name: "DataGrip", commands: vec!["datagrip64.exe", "datagrip.cmd"] },
            EditorCandidate { id: "clion", name: "CLion", commands: vec!["clion64.exe", "clion.cmd"] },
            EditorCandidate { id: "rider", name: "Rider", commands: vec!["rider64.exe", "rider.cmd"] },
            ];
            assert(candidates_view(r@) =~= windows_candidates()) by {
                assert forall|i: int| 0 <= i < r@.len() implies (#[trigger] r@[i])@.commands
                    =~= windows_candidates()[i].commands by {}
            }
            r
        },
        Os::MacOs | Os::Linux => {
            let r = vec![
            EditorCandidate { id: "vscode", name: "VS Code", commands: vec!["code", "vscode:"] },
            EditorCandidate { id: "cursor", name: "Cursor", commands: vec!["cursor"] },
            EditorCandidate { id: "subl", name: "Sublime Text", commands: vec!["subl"] },
            EditorCandidate { id: "zed", name: "Zed", commands: vec!["zed"] },
            EditorCandidate { id: "idea", name: "IntelliJ IDEA", commands: vec!["idea"] },
            EditorCandidate { id: "rustrover", name: "RustRover", commands: vec!["rustrover"] },
            EditorCandidate { id: "webstorm", name: "WebStorm", commands: vec!["webstorm"] },
            EditorCandidate { id: "phpstorm", name: "PhpStorm", commands: vec!["phpstorm"] },
            EditorCandidate { id: "pycharm", name: "PyCharm", commands: vec!["pycharm"] },
            EditorCandidate { id: "goland", name: "GoLand", commands: vec!["goland"] },
            EditorCandidate { id: "datagrip", name: "DataGrip", commands: vec!["datagrip"] },
            EditorCandidate { id: "clion", name: "CLion", commands: vec!["clion"] },
            EditorCandidate { id: "rider", name: "Rider", commands: vec!["rider"] },
            ];
            assert(candidates_view(r@) =~= unix_candidates()) by {
                assert forall|i: int| 0 <= i < r@.len() implies (#[trigger] r@[i])@.commands
                    =~= unix_candidates()[i].commands by {}
            }
            r
        },
        Os::Other => {
            let r: Vec<EditorCandidate> = Vec::new();
            assert(candidates_view(r@) =~= Seq::<CandidateView>::empty());
            r
        },
    }
}

/// An editor found on the machine, and the command that starts it.
#[derive(Debug, Clone, PartialEq, Eq)]
pub struct Editor {
    id: String,
    name: String,
    cmd: String,
}

/// `Editor` with its texts as character sequences.
pub struct EditorView {
    pub id: Seq<char>,
    pub name: Seq<char>,
    pub cmd: Seq<char>,
}

impl View for Editor {
    type V = EditorView;

    closed spec fn view(&self) -> EditorView {
        EditorView { id: self.id@, name: self.name@, cmd: self.cmd@ }
    }
}

impl Editor {
    pub fn new(id: &str, name: &str, cmd: &str) -> (e: Editor)
        ensures
            e@ == (EditorView { id: id@, name: name@, cmd: cmd@ }),
    {
        Editor { id: owned(id), name: owned(name), cmd: owned(cmd) }
    }

    pub fn id(&self) -> (s: &str)
        ensures
            s@ == self@.id,
    {
        self.id.as_str()
    }

    pub fn name(&self) -> (s: &str)
        ensures
            s@ == self@.name,
    {
        self.name.as_str()
    }

    pub fn cmd(&self) -> (s: &str)
        ensures
            s@ == self@.cmd,
    {
        self.cmd.as_str()
    }
}

/// A command that tells whether an editor command is available.
#[derive(Debug, Clone, PartialEq, Eq)]
pub struct Probe {
    pub program: String,
    pub args: Vec<String>,
    /// The command must also print something to count as success.
    pub needs_output: bool,
}

/// `Probe` with its texts as character sequences.
pub struct ProbeView {
    pub program: Seq<char>,
    pub args: Seq<Seq<char>>,
    pub needs_output: bool,
}

impl View for Probe {
    type V = ProbeView;

    open spec fn view(&self) -> ProbeView {
        ProbeView { program: self.program@, args: strings_view(self.args@), needs_output: self.needs_output }
    }
}

/// How the availability of `cmd` is checked on `os`.  A command ending in `:`
/// is a URL scheme: looked up in the registry on Windows, as the Visual Studio
/// Code application on macOS, and as a scheme handler (which must print a
/// name) on Linux.  Any other command is looked up on the `PATH` with `where`
/// on Windows and `which` elsewhere.
pub open spec fn spec_probe(os: Os, cmd: Seq<char>) -> ProbeView {
    let scheme = ends_with(cmd, seq![':']);
    match os {
        Os::Windows => if scheme {
            ProbeView {
                program: "reg"@,
                args: seq!["query"@, "HKEY_CLASSES_ROOT\\"@ + trim_end_char(cmd, ':')],
                needs_output: false,
            }
        } else {
            ProbeView { program: "where"@, args: seq![cmd], needs_output: false }
        },
        Os::MacOs => if scheme {
            ProbeView {
                program: "open"@,
                args: seq!["-Ra"@, "Visual Studio Code"@],
                needs_output: false,
            }
        } else {
            ProbeView { program: "which"@, args: seq![cmd], needs_output: false }
        },
        _ => if scheme {
            ProbeView {
                program: "xdg-settings"@,
                args: seq!["get"@, "default-url-scheme-handler"@, trim_end_char(cmd, ':')],
                needs_output: true,
            }
        } else {
            ProbeView { program: "which"@, args: seq![cmd], needs_output: false }
        },
    }
}

/// The probe for `cmd` on `os` (see [`spec_probe`]).
pub fn probe_for(os: Os, cmd: &str) -> (p: Probe)
    ensures
        p@ == spec_probe(os, cmd@),
{
    let c = chars_of(cmd);
    let colon: Vec<char> = vec![':'];
    assert(colon@ =~= seq![':']);
    let scheme = ends_with_chars(c.as_slice(), colon.as_slice());
    let mut args: Vec<String> = Vec::new();
    let p = match os {
        Os::Windows => if scheme {
            let mut key: Vec<char> = Vec::new();
            push_str(&mut key, "HKEY_CLASSES_ROOT\\");
            let t = trim_end_char_exec(c.as_slice(), ':');
            push_all(&mut key, t.as_slice());
            args.push(owned("query"));
            args.push(string_of(key.as_slice()));
            Probe { program: owned("reg"), args, needs_output: false }
        } else {
            args.push(owned(cmd));
            Probe { program: owned("where"), args, needs_output: false }
        },
        Os::MacOs => if scheme {
            args.push(owned("-Ra"));
            args.push(owned("Visual Studio Code"));
            Probe { program: owned("open"), args, needs_output: false }
        } else {
            args.push(owned(cmd));
            Probe { program: owned("which"), args, needs_output: false }
        },
        _ => if scheme {
            let t = trim_end_char_exec(c.as_slice(), ':');
            args.push(owned("get"));
            args.push(owned("default-url-scheme-handler"));
            args.push(string_of(t.as_slice()));
            Probe { program: owned("xdg-settings"), args, needs_output: true }
        } else {
            args.push(owned(cmd));
            Probe { program: owned("which"), args, needs_output: false }
        },
    };
    assert(p@.args =~= spec_probe(os, cmd@).args);
    p
}

impl Probe {
    /// Whether the probed command is available, given whether the probe
    /// could be run and exited successfully, and whether it printed nothing.
    pub fn found(&self, succeeded: bool, printed_nothing: bool) -> (b: bool)
        ensures
            b == (succeeded && (!self.needs_output || !printed_nothing)),
    {
        succeeded && (!self.needs_output || !printed_nothing)
    }
}

/// The search for installed editors, one probe at a time: for every
/// candidate in turn its commands are tried in order, and the first one
/// found available makes the candidate an [`Editor`] with that command.
pub struct EditorScan {
    os: Os,
    candidates: Vec<EditorCandidate>,
    editor: usize,
    command: usize,
    found: Vec<Editor>,
}

/// Views of a list of editors.
pub open spec fn editors_view(v: Seq<Editor>) -> Seq<EditorView> {
    v.map_values(|e: Editor| e@)
}

/// Every candidate has at least one command.
pub proof fn lemma_candidates_have_commands(os: Os, i: int)
    requires
        0 <= i < spec_candidates(os).len(),
    ensures
        spec_candidates(os)[i].commands.len() > 0,
{
}

/// How recording whether the current command is available moves the
/// search (see [`EditorScan::record`]).
pub open spec fn recorded(before: EditorScan, after: EditorScan, available: bool) -> bool {
    &&& after.os() == before.os()
    &&& before.done() ==> after.editor() == before.editor() && after.command() == before.command()
        && after.found() == before.found()
    &&& !before.done() && available ==> {
        let c = spec_candidates(before.os())[before.editor() as int];
        &&& after.found() == before.found().push(
            EditorView { id: c.id, name: c.name, cmd: before.current_command() },
        )
        &&& after.editor() == before.editor() + 1
        &&& after.command() == 0
    }
    &&& !before.done() && !available ==> {
        let n = spec_candidates(before.os())[before.editor() as int].commands.len();
        &&& after.found() == before.found()
        &&& if before.command() + 1 < n {
            after.editor() == before.editor() && after.command() == before.command() + 1
        } else {
            after.editor() == before.editor() + 1 && after.command() == 0
        }
    }
}

/// The first of `cmds` from index `k` on that `avail` accepts.
pub open spec fn first_available(cmds: Seq<Seq<char>>, k: int, avail: spec_fn(Seq<char>) -> bool) -> Option<
    Seq<char>,
>
    decreases cmds.len() - k,
{
    if k < 0 || k >= cmds.len() {
        None
    } else if avail(cmds[k]) {
        Some(cmds[k])
    } else {
        first_available(cmds, k + 1, avail)
    }
}

/// The editors found among the candidates from `e` on when `avail` tells
/// which commands are available: each candidate that has an available
/// command, in order, with the first such command.
pub open spec fn scan_result(cands: Seq<CandidateView>, e: int, avail: spec_fn(Seq<char>) -> bool) -> Seq<
    EditorView,
>
    decreases cands.len() - e,
{
    if e < 0 || e >= cands.len() {
        Seq::empty()
    } else {
        let rest = scan_result(cands, e + 1, avail);
        match first_available(cands[e].commands, 0, avail) {
            Some(c) => seq![EditorView { id: cands[e].id, name: cands[e].name, cmd: c }] + rest,
            None => rest,
        }
    }
}

/// What the search still finds from candidate `e`'s command `k` on.
pub open spec fn still_to_find(os: Os, e: nat, k: nat, avail: spec_fn(Seq<char>) -> bool) -> Seq<EditorView> {
    let cands = spec_candidates(os);
    if e >= cands.len() {
        Seq::empty()
    } else {
        (match first_available(cands[e as int].commands, k as int, avail) {
            Some(c) => seq![EditorView { id: cands[e as int].id, name: cands[e as int].name, cmd: c }],
            None => Seq::empty(),
        }) + scan_result(cands, e as int + 1, avail)
    }
}

/// The search stands at a command of its candidate (or is done).
pub open spec fn well_placed(s: EditorScan) -> bool {
    !s.done() ==> s.command() < spec_candidates(s.os())[s.editor() as int].commands.len()
}

proof fn lemma_first_available_from(cmds: Seq<Seq<char>>, k: int, avail: spec_fn(Seq<char>) -> bool)
    requires
        0 <= k,
    ensures
        k < cmds.len() && avail(cmds[k]) ==> first_available(cmds, k, avail) == Some(cmds[k]),
        k < cmds.len() && !avail(cmds[k]) ==> first_available(cmds, k, avail) == first_available(
            cmds,
            k + 1,
            avail,
        ),
        k >= cmds.len() ==> first_available(cmds, k, avail) is None,
{
}

/// The search finds exactly the editors whose candidates have an available
/// command, in order, each with its first available command: it starts with
/// nothing found and everything still to find; recording, for each probe,
/// whether its command is available keeps what was found followed by what
/// is still to find unchanged; and once done nothing is still to find.
pub proof fn lemma_scan_finds_first_available_commands(
    before: EditorScan,
    after: EditorScan,
    avail: spec_fn(Seq<char>) -> bool,
)
    requires
        well_placed(before),
        recorded(before, after, !before.done() && avail(before.current_command())),
    ensures
        well_placed(after),
        after.found() + still_to_find(after.os(), after.editor(), after.command(), avail)
            == before.found() + still_to_find(before.os(), before.editor(), before.command(), avail),
        still_to_find(before.os(), 0, 0, avail) == scan_result(spec_candidates(before.os()), 0, avail),
        before.done() ==> still_to_find(before.os(), before.editor(), before.command(), avail)
            == Seq::<EditorView>::empty(),
{
    let os = before.os();
    let cands = spec_candidates(os);
    let e = before.editor() as int;
    let k = before.command() as int;
    if cands.len() > 0 {
        lemma_candidates_have_commands(os, 0);
        assert(Seq::<EditorView>::empty() + scan_result(cands, 1, avail) =~= scan_result(cands, 1, avail));
    }
    if !before.done() {
        let cmds = cands[e as int].commands;
        lemma_first_available_from(cmds, k as int, avail);
        if e + 1 < cands.len() {
            lemma_candidates_have_commands(os, e + 1);
            lemma_first_available_from(cands[e + 1].commands, 0, avail);
        }
        let rest = scan_result(cands, e + 1, avail);
        if avail(before.current_command()) {
            let x = EditorView { id: cands[e as int].id, name: cands[e as int].name, cmd: cmds[k as int] };
            assert(before.found().push(x) + rest =~= before.found() + (seq![x] + rest));
            if e + 1 < cands.len() {
                assert(still_to_find(os, (e + 1) as nat, 0, avail) == scan_result(cands, e + 1, avail)) by {
                    match first_available(cands[e + 1].commands, 0, avail) {
                        Some(c) => {},
                        None => {
                            assert(Seq::<EditorView>::empty() + scan_result(cands, e + 2, avail)
                                =~= scan_result(cands, e + 2, avail));
                        },
                    }
                }
            }
        } else if k + 1 < cmds.len() {
        } else {
            assert(Seq::<EditorView>::empty() + rest =~= rest);
            if e + 1 < cands.len() {
                assert(still_to_find(os, (e + 1) as nat, 0, avail) == scan_result(cands, e + 1, avail)) by {
                    match first_available(cands[e + 1].commands, 0, avail) {
                        Some(c) => {},
                        None => {
                            assert(Seq::<EditorView>::empty() + scan_result(cands, e + 2, avail)
                                =~= scan_result(cands, e + 2, avail));
                        },
                    }
                }
            }
        }
    }
}

impl EditorScan {
    #[verifier::type_invariant]
    spec fn inv(self) -> bool {
        &&& candidates_view(self.candidates@) == spec_candidates(self.os)
        &&& self.editor <= self.candidates@.len()
        &&& self.editor < self.candidates@.len() ==> self.command
            < spec_candidates(self.os)[self.editor as int].commands.len()
    }

    /// The system being searched.
    pub closed spec fn os(self) -> Os {
        self.os
    }

    /// Index of the candidate being tried.
    pub closed spec fn editor(self) -> nat {
        self.editor as nat
    }

    /// Index of the command being tried.
    pub closed spec fn command(self) -> nat {
        self.command as nat
    }

    /// The editors found so far.
    pub closed spec fn found(self) -> Seq<EditorView> {
        editors_view(self.found@)
    }

    /// Every candidate has been tried.
    pub open spec fn done(self) -> bool {
        self.editor() >= spec_candidates(self.os()).len()
    }

    /// The command being tried.
    pub open spec fn current_command(self) -> Seq<char> {
        spec_candidates(self.os())[self.editor() as int].commands[self.command() as int]
    }

    /// Starts the search on `os` at its first candidate's first command.
    pub fn new(os: Os) -> (s: EditorScan)
        ensures
            s.os() == os,
            s.editor() == 0,
            s.command() == 0,
            s.found() == Seq::<EditorView>::empty(),
    {
        let candidates = editor_candidates(os);
        proof {
            if candidates@.len() > 0 {
                lemma_candidates_have_commands(os, 0);
                assert(candidates_view(candidates@)[0] == candidates@[0]@);
            }
        }
        let s = EditorScan { os, candidates, editor: 0, command: 0, found: Vec::new() };
        assert(s.found() =~= Seq::<EditorView>::empty());
        s
    }

    /// The next probe to run, or `None` when every candidate was tried.
    pub fn next_probe(&self) -> (p: Option<Probe>)
        ensures
            self.done() <==> p is None,
            p matches Some(q) ==> q@ == spec_probe(self.os(), self.current_command()),
    {
        proof {
            use_type_invariant(self);
        }
        if self.editor >= self.candidates.len() {
            return None;
        }
        let c = &self.candidates[self.editor];
        proof {
            assert(candidates_view(self.candidates@)[self.editor as int] == c@);
            assert(c@.commands[self.command as int] == c.commands@[self.command as int]@);
        }
        Some(probe_for(self.os, c.commands[self.command]))
    }

    /// Records whether the current command was found: if so the candidate
    /// is added with it and the search moves to the next candidate;
    /// otherwise it moves to the candidate's next command, or to the next
    /// candidate after its last one.  Once done, nothing changes.
    pub fn record(&mut self, available: bool)
        ensures
            recorded(*old(self), *final(self), available),
    {
        proof {
            use_type_invariant(&*self);
        }
        if self.editor >= self.candidates.len() {
            return;
        }
        let e = self.editor;
        let k = self.command;
        let ghost cv = candidates_view(self.candidates@)[e as int];
        proof {
            assert(cv == self.candidates@[e as int]@);
            assert(cv.commands[k as int] == self.candidates@[e as int].commands@[k as int]@);
            if e + 1 < self.candidates@.len() {
                lemma_candidates_have_commands(self.os, e + 1);
            }
        }
        let n = self.candidates[e].commands.len();
        if available {
            let c = &self.candidates[e];
            let ed = Editor::new(c.id, c.name, c.commands[k]);
            let mut found = Vec::new();
            std::mem::swap(&mut found, &mut self.found);
            let ghost before = found@;
            found.push(ed);
            assert(editors_view(found@) =~= editors_view(before).push(ed@));
            self.found = found;
            self.command = 0;
            self.editor = e + 1;
        } else if k + 1 < n {
            self.command = k + 1;
        } else {
            self.command = 0;
            self.editor = e + 1;
        }
    }

    /// The editors found so far.
    pub fn editors(&self) -> (r: &Vec<Editor>)
        ensures
            editors_view(r@) == self.found(),
    {
        &self.found
    }
}

} // verus!
