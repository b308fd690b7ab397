//! Renders a dump as a short declaration in the sender's language.

use vstd::prelude::*;
use rust_format::Formatter;
use crate::payloads::{IncomingQuoPayload, IncomingQuoPayloadMeta, QuoPayloadLanguage, QuoPayloadVariable};
use crate::snippet::{format_code_snippet, spec_format_code_snippet};
use crate::text::{
    byte_boundary, byte_boundary_exec, chars_of, count_leading_ws, ends_with, find_chars,
    find_from, join_lines, last_index_of, last_index_of_char, lemma_find_from, lemma_last_index_of, leading_ws, lines_chars, lines_of,
    push_all, push_str, slice_chars, split_by, split_chars, string_of, trim, trim_chars, trim_end,
    trim_end_chars, trim_start, trim_start_chars, utf8_len, utf8_len_at_least, utf8_width,
    lemma_split_three, lemma_split_last, lemma_split_len, lemma_split_from_nonempty, lemma_find_from_absent,
    matches_at, split_from, strip_ws,
};

verus! {

// ---------------------------------------------------------------------------
// Type names
// ---------------------------------------------------------------------------

/// `var_type` shortened to its first and last path segment when it has more
/// than two segments, separated by `::` (Rust) or, failing that, by `\`
/// (PHP): `a::b::c` becomes `a::...::c` and `A\B\C` becomes `A\...\C`.
pub open spec fn spec_truncate_type(var_type: Seq<char>) -> Seq<char> {
    let p = split_by(var_type, seq![':', ':']);
    let q = split_by(var_type, seq!['\\']);
    if p.len() > 2 {
        p[0] + seq![':', ':', '.', '.', '.', ':', ':'] + p.last()
    } else if q.len() > 2 {
        q[0] + seq!['\\', '.', '.', '.', '\\'] + q.last()
    } else {
        var_type
    }
}

/// Truncating a type name twice gives the same as truncating it once.
pub proof fn lemma_truncate_type_idempotent(var_type: Seq<char>)
    ensures
        spec_truncate_type(spec_truncate_type(var_type)) == spec_truncate_type(var_type),
{
    let s = var_type;
    let cc = seq![':', ':'];
    let bs = seq!['\\'];
    let p = split_by(s, cc);
    let q = split_by(s, bs);
    if p.len() > 2 {
        lemma_colon_case(s);
    } else if q.len() > 2 {
        lemma_backslash_case(s);
    }
}

proof fn lemma_colon_case(s: Seq<char>)
    requires
        split_by(s, seq![':', ':']).len() > 2,
    ensures
        spec_truncate_type(spec_truncate_type(s)) == spec_truncate_type(s),
{
    let cc = seq![':', ':'];
    let m = seq!['.', '.', '.'];
    let p = split_by(s, cc);
    lemma_split_len(s, cc, 0);
    lemma_find_from(s, cc, 0);
    let i0 = find_from(s, cc, 0)->0;
    let k = lemma_split_last(s, cc, 0);
    lemma_find_from(s, cc, k);
    let a = p[0];
    let b = p.last();
    assert(a == s.subrange(0, i0));
    assert(b == s.subrange(k, s.len() as int));
    let r = a + cc + m + cc + b;
    assert(r =~= spec_truncate_type(s));
    let n = a.len() as int;
    assert forall|j: int| 0 <= j < n implies !#[trigger] matches_at(r, cc, j) by {
        if matches_at(r, cc, j) {
            if j + 2 <= n {
                assert(r.subrange(j, j + 2) =~= s.subrange(j, j + 2));
                assert(matches_at(s, cc, j));
            } else {
                assert(r[j] == s[i0 - 1]);
                assert(s.subrange(i0, i0 + 2) == cc);
                assert(s[i0] == ':');
                assert(s.subrange(i0 - 1, i0 + 1) =~= cc);
                assert(matches_at(s, cc, i0 - 1));
            }
        }
    }
    assert forall|j: int| n + 2 <= j < n + 2 + 3 implies !#[trigger] matches_at(r, cc, j) by {
        if matches_at(r, cc, j) {
            assert(r.subrange(j, j + 2)[0] == r[j]);
            assert(r[j] == '.');
        }
    }
    assert forall|j: int| n + 7 <= j implies !#[trigger] matches_at(r, cc, j) by {
        if matches_at(r, cc, j) {
            let js = j - (n + 7) + k;
            assert(r.subrange(j, j + 2) =~= s.subrange(js, js + 2));
            assert(matches_at(s, cc, js));
        }
    }
    lemma_split_three(r, cc, a, m, b);
    assert(split_by(r, cc) == seq![a, m, b]);
    assert(spec_truncate_type(r) =~= r);
}

proof fn lemma_backslash_case(s: Seq<char>)
    requires
        split_by(s, seq![':', ':']).len() <= 2,
        split_by(s, seq!['\\']).len() > 2,
    ensures
        spec_truncate_type(spec_truncate_type(s)) == spec_truncate_type(s),
{
    let cc = seq![':', ':'];
    let bs = seq!['\\'];
    let m = seq!['.', '.', '.'];
    let q = split_by(s, bs);
    lemma_split_len(s, bs, 0);
    lemma_find_from(s, bs, 0);
    let i0 = find_from(s, bs, 0)->0;
    let k = lemma_split_last(s, bs, 0);
    lemma_find_from(s, bs, k);
    let a = q[0];
    let b = q.last();
    assert(a == s.subrange(0, i0));
    assert(b == s.subrange(k, s.len() as int));
    let r = a + bs + m + bs + b;
    let n = a.len() as int;
    assert(n == i0);
    assert(k >= n + 1);
    assert(r =~= spec_truncate_type(s));
    // The backslash split of `r` gives back the same pieces.
    assert forall|j: int| 0 <= j < n implies !#[trigger] matches_at(r, bs, j) by {
        if matches_at(r, bs, j) {
            assert(r.subrange(j, j + 1) =~= s.subrange(j, j + 1));
            assert(matches_at(s, bs, j));
        }
    }
    assert forall|j: int| n + 1 <= j < n + 1 + 3 implies !#[trigger] matches_at(r, bs, j) by {
        if matches_at(r, bs, j) {
            assert(r.subrange(j, j + 1)[0] == r[j]);
        }
    }
    assert forall|j: int| n + 5 <= j implies !#[trigger] matches_at(r, bs, j) by {
        if matches_at(r, bs, j) {
            let js = j - (n + 5) + k;
            assert(r.subrange(j, j + 1) =~= s.subrange(js, js + 1));
            assert(matches_at(s, bs, js));
        }
    }
    lemma_split_three(r, bs, a, m, b);
    // `r` still has at most one `::`.
    let shift = |x: int| if x < n { x } else { x - (n + 5) + k };
    assert forall|x: int| #[trigger] matches_at(r, cc, x) implies matches_at(s, cc, shift(x)) && (x
        < n ==> x + 2 <= n) && (x >= n ==> x >= n + 5) by {
        assert(r.subrange(x, x + 2)[0] == r[x]);
        assert(r.subrange(x, x + 2)[1] == r[x + 1]);
        if x < n {
            if x + 2 > n {
                assert(r[x + 1] == '\\');
            }
            assert(r.subrange(x, x + 2) =~= s.subrange(x, x + 2));
        } else {
            if x < n + 5 {
                assert(r[x] == '\\' || r[x] == '.');
            }
            let xs = x - (n + 5) + k;
            assert(r.subrange(x, x + 2) =~= s.subrange(xs, xs + 2));
        }
    }
    lemma_split_len(r, cc, 0);
    lemma_find_from(r, cc, 0);
    lemma_split_from_nonempty(r, cc, 0);
    if let Some(ar) = find_from(r, cc, 0) {
        assert forall|j: int| ar + 2 <= j implies !#[trigger] matches_at(r, cc, j) by {
            if matches_at(r, cc, j) {
                assert(matches_at(r, cc, ar));
                let fa = shift(ar);
                let fj = shift(j);
                assert(matches_at(s, cc, fa));
                assert(matches_at(s, cc, fj));
                assert(fj >= fa + 2);
                lemma_split_len(s, cc, 0);
                lemma_find_from(s, cc, 0);
                match find_from(s, cc, 0) {
                    None => {
                        assert(!matches_at(s, cc, fa));
                    },
                    Some(f0) => {
                        assert(f0 <= fa);
                        lemma_find_from(s, cc, f0 + 2);
                        assert(!matches_at(s, cc, fj));
                    },
                }
            }
        }
        lemma_find_from_absent(r, cc, ar + 2);
    }
    assert(split_by(r, cc).len() <= 2);
    assert(split_by(r, bs) == seq![a, m, b]);
    assert(spec_truncate_type(r) =~= r);
}

/// Shortens a long type name to its first and last segment (see
/// [`spec_truncate_type`]).
pub fn truncate_type(var_type: &str) -> (r: String)
    ensures
        r@ == spec_truncate_type(var_type@),
{
    let t = chars_of(var_type);
    let colons: Vec<char> = vec![':', ':'];
    let p = split_chars(t.as_slice(), colons.as_slice());
    assert(colons@ =~= seq![':', ':']);
    if p.len() > 2 {
        let mut out: Vec<char> = Vec::new();
        push_all(&mut out, p[0].as_slice());
        let mid: Vec<char> = vec![':', ':', '.', '.', '.', ':', ':'];
        push_all(&mut out, mid.as_slice());
        push_all(&mut out, p[p.len() - 1].as_slice());
        assert(out@ =~= spec_truncate_type(var_type@));
        return string_of(out.as_slice());
    }
    let backslash: Vec<char> = vec!['\\'];
    let q = split_chars(t.as_slice(), backslash.as_slice());
    assert(backslash@ =~= seq!['\\']);
    if q.len() > 2 {
        let mut out: Vec<char> = Vec::new();
        push_all(&mut out, q[0].as_slice());
        let mid: Vec<char> = vec!['\\', '.', '.', '.', '\\'];
        push_all(&mut out, mid.as_slice());
        push_all(&mut out, q[q.len() - 1].as_slice());
        assert(out@ =~= spec_truncate_type(var_type@));
        return string_of(out.as_slice());
    }
    string_of(t.as_slice())
}

// ---------------------------------------------------------------------------
// Declarations
// ---------------------------------------------------------------------------

/// The dumped value fits the snippet formatter's indentation arithmetic.
pub open spec fn value_fits(v: QuoPayloadVariable) -> bool {
    4 * v.value@.len() <= usize::MAX
}

/// `const` for constants, `let` otherwise.
pub open spec fn keyword(is_constant: bool) -> Seq<char> {
    if is_constant {
        "const"@
    } else {
        "let"@
    }
}

/// The dumped value, re-indented by four spaces per level.
pub open spec fn snippet4(value: Seq<char>) -> Seq<char> {
    spec_format_code_snippet(value, 4)
}

/// `{let|const} {name}: {type} = {value}`: the JavaScript/TypeScript form,
/// also used for languages without a form of their own.
pub open spec fn spec_let_declaration(v: QuoPayloadVariable, var_type: Seq<char>) -> Seq<char> {
    keyword(v.is_constant) + " "@ + v.name@ + ": "@ + var_type + " = "@ + snippet4(v.value@)
}

/// `// @var {type}` on its own line, then `{const |$}{name} = {value}`.
pub open spec fn spec_php_declaration(v: QuoPayloadVariable, var_type: Seq<char>) -> Seq<char> {
    "// @var "@ + var_type + "\n"@ + (if v.is_constant {
        "const "@
    } else {
        "$"@
    }) + v.name@ + " = "@ + snippet4(v.value@)
}

/// `var {name} {type} = {value}`.
pub open spec fn spec_go_declaration(v: QuoPayloadVariable, var_type: Seq<char>) -> Seq<char> {
    "var "@ + v.name@ + " "@ + var_type + " = "@ + snippet4(v.value@)
}

/// The Rust form before `rustfmt`: an expression dump reads
/// `{name}: {type}` when the expression is its own value and
/// `{name}: {type} = {value}` otherwise; a variable dump reads like
/// [`spec_let_declaration`].
pub open spec fn spec_rust_declaration(v: QuoPayloadVariable, var_type: Seq<char>) -> Seq<char> {
    if v.is_expression {
        if v.name@ == v.value@ {
            v.name@ + ": "@ + var_type
        } else {
            v.name@ + ": "@ + var_type + " = "@ + snippet4(v.value@)
        }
    } else {
        spec_let_declaration(v, var_type)
    }
}

/// The Rust form shows the dumped value: an expression dump whose name is
/// its value reads `name: type`; every other dump reads its head (`name:
/// type` for an expression, `let`/`const name: type` for a variable), then
/// ` = `, then the value re-indented, which keeps all of the value's text but
/// whitespace.
pub proof fn lemma_rust_declaration_shows_value(v: QuoPayloadVariable, var_type: Seq<char>)
    ensures
        v.is_expression && v.name@ == v.value@ ==> spec_rust_declaration(v, var_type) == v.name@
            + ": "@ + var_type,
        !(v.is_expression && v.name@ == v.value@) ==> {
            let head = if v.is_expression {
                v.name@ + ": "@ + var_type
            } else {
                (if v.is_constant {
                    "const"@
                } else {
                    "let"@
                }) + " "@ + v.name@ + ": "@ + var_type
            };
            let tail = spec_format_code_snippet(v.value@, 4);
            &&& spec_rust_declaration(v, var_type) == head + " = "@ + tail
            &&& strip_ws(tail) == strip_ws(v.value@)
        },
{
    crate::snippet::lemma_format_code_snippet_keeps_content(v.value@, 4);
}

/// The other languages' forms show the dumped value too: PHP reads a
/// `// @var type` line, then `$name` (or `const name`), ` = ` and the value;
/// Go reads `var name type = ` and the value; every other language reads
/// `let`/`const name: type = ` and the value.  The value is re-indented,
/// which keeps all of its text but whitespace.
pub proof fn lemma_fixed_forms_show_value(
    language: QuoPayloadLanguage,
    v: QuoPayloadVariable,
    var_type: Seq<char>,
)
    ensures
        ({
            let tail = spec_format_code_snippet(v.value@, 4);
            let head = if language == QuoPayloadLanguage::Php {
                "// @var "@ + var_type + "\n"@ + (if v.is_constant {
                    "const "@
                } else {
                    "$"@
                }) + v.name@
            } else if language == QuoPayloadLanguage::Go {
                "var "@ + v.name@ + " "@ + var_type
            } else {
                (if v.is_constant {
                    "const"@
                } else {
                    "let"@
                }) + " "@ + v.name@ + ": "@ + var_type
            };
            &&& spec_format_fixed(language, v, var_type) == head + " = "@ + tail
            &&& strip_ws(tail) == strip_ws(v.value@)
        }),
{
    crate::snippet::lemma_format_code_snippet_keeps_content(v.value@, 4);
}

/// Appends the re-indented value.
fn push_snippet(out: &mut Vec<char>, v: &QuoPayloadVariable)
    requires
        value_fits(*v),
    ensures
        final(out)@ == old(out)@ + snippet4(v.value@),
{
    let s = format_code_snippet(v.value.as_str(), 4);
    push_str(out, s.as_str());
}

/// Renders the `let`/`const` form (see [`spec_let_declaration`]).
pub fn let_declaration(v: &QuoPayloadVariable, var_type: &str) -> (r: String)
    requires
        value_fits(*v),
    ensures
        r@ == spec_let_declaration(*v, var_type@),
{
    let mut out: Vec<char> = Vec::new();
    push_str(&mut out, if v.is_constant { "const" } else { "let" });
    push_str(&mut out, " ");
    push_str(&mut out, v.name.as_str());
    push_str(&mut out, ": ");
    push_str(&mut out, var_type);
    push_str(&mut out, " = ");
    push_snippet(&mut out, v);
    assert(out@ =~= spec_let_declaration(*v, var_type@));
    string_of(out.as_slice())
}

/// Renders the PHP form (see [`spec_php_declaration`]).
pub fn php_declaration(v: &QuoPayloadVariable, var_type: &str) -> (r: String)
    requires
        value_fits(*v),
    ensures
        r@ == spec_php_declaration(*v, var_type@),
{
    let mut out: Vec<char> = Vec::new();
    push_str(&mut out, "// @var ");
    push_str(&mut out, var_type);
    push_str(&mut out, "\n");
    push_str(&mut out, if v.is_constant { "const " } else { "$" });
    push_str(&mut out, v.name.as_str());
    push_str(&mut out, " = ");
    push_snippet(&mut out, v);
    assert(out@ =~= spec_php_declaration(*v, var_type@));
    string_of(out.as_slice())
}

/// Renders the Go form (see [`spec_go_declaration`]).
pub fn go_declaration(v: &QuoPayloadVariable, var_type: &str) -> (r: String)
    requires
        value_fits(*v),
    ensures
        r@ == spec_go_declaration(*v, var_type@),
{
    let mut out: Vec<char> = Vec::new();
    push_str(&mut out, "var ");
    push_str(&mut out, v.name.as_str());
    push_str(&mut out, " ");
    push_str(&mut out, var_type);
    push_str(&mut out, " = ");
    push_snippet(&mut out, v);
    assert(out@ =~= spec_go_declaration(*v, var_type@));
    string_of(out.as_slice())
}

/// Renders the Rust form before `rustfmt` (see [`spec_rust_declaration`]).
pub fn rust_declaration(v: &QuoPayloadVariable, var_type: &str) -> (r: String)
    requires
        value_fits(*v),
    ensures
        r@ == spec_rust_declaration(*v, var_type@),
{
    if v.is_expression {
        let mut out: Vec<char> = Vec::new();
        push_str(&mut out, v.name.as_str());
        push_str(&mut out, ": ");
        push_str(&mut out, var_type);
        if v.name == v.value {
            assert(out@ =~= spec_rust_declaration(*v, var_type@));
        } else {
            push_str(&mut out, " = ");
            push_snippet(&mut out, v);
            assert(out@ =~= spec_rust_declaration(*v, var_type@));
        }
        string_of(out.as_slice())
    } else {
        let_declaration(v, var_type)
    }
}

// ---------------------------------------------------------------------------
// Tidying what rustfmt returns
// ---------------------------------------------------------------------------

/// The smallest indentation (in characters) among the non-blank lines from
/// index `i` on, given the smallest one seen so far; 0 when there is none.
pub open spec fn min_indent_from(lines: Seq<Seq<char>>, i: int, acc: Option<nat>) -> nat
    decreases lines.len() - i,
{
    if i >= lines.len() {
        match acc {
            Some(a) => a,
            None => 0,
        }
    } else {
        let l = trim_end(lines[i]);
        if l.len() == 0 {
            min_indent_from(lines, i + 1, acc)
        } else {
            let ind = leading_ws(l);
            let acc2 = match acc {
                Some(a) => if ind < a {
                    Some(ind)
                } else {
                    Some(a)
                },
                None => Some(ind),
            };
            min_indent_from(lines, i + 1, acc2)
        }
    }
}

/// The common indentation of all lines but the first, which is stripped.
pub open spec fn min_indent(lines: Seq<Seq<char>>) -> nat {
    min_indent_from(lines, 1, None)
}

/// Line `i` with trailing whitespace removed and its indentation stripped:
/// the first line loses all leading whitespace, a later line loses its first
/// `m` bytes, or all leading whitespace when it is shorter than that.
pub open spec fn strip_line(i: int, line: Seq<char>, m: nat) -> Seq<char> {
    let l = trim_end(line);
    if i == 0 {
        trim_start(l)
    } else if utf8_len(l) >= m {
        match byte_boundary(l, m) {
            Some(k) => l.skip(k as int),
            None => l,
        }
    } else {
        trim_start(l)
    }
}

/// Cutting the first `m` bytes off `line` ends on a character boundary
/// whenever the line is that long.
pub open spec fn line_sliceable(line: Seq<char>, m: nat) -> bool {
    let l = trim_end(line);
    utf8_len(l) >= m ==> byte_boundary(l, m) is Some
}

/// The body of `fn main() { ... }` in rustfmt's output: the text strictly
/// between the first `{` and the last `}` of the trimmed output.
pub open spec fn main_body(t: Seq<char>) -> Option<Seq<char>> {
    match (find_from(t, seq!['{'], 0), last_index_of(t, '}')) {
        (Some(a), Some(b)) => if a < b {
            Some(t.subrange(a + 1, b))
        } else {
            None
        },
        _ => None,
    }
}

/// rustfmt's output can be tidied without cutting text at a byte that is not
/// a character boundary and without an inverted brace range.
pub open spec fn tidy_ok(formatted: Seq<char>) -> bool {
    let t = trim(formatted);
    match (find_from(t, seq!['{'], 0), last_index_of(t, '}')) {
        (Some(a), Some(b)) => a < b && {
            let ls = lines_of(t.subrange(a + 1, b));
            forall|i: int| 1 <= i < ls.len() ==> line_sliceable(#[trigger] ls[i], min_indent(ls))
        },
        _ => true,
    }
}

/// The lines of the body, unindented, joined and trimmed, with one trailing
/// `;` removed.
pub open spec fn tidy_body(body: Seq<char>) -> Seq<char> {
    let ls = lines_of(body);
    if ls.len() == 0 {
        Seq::empty()
    } else {
        let m = min_indent(ls);
        let r = trim(join_lines(Seq::new(ls.len(), |i: int| strip_line(i, ls[i], m))));
        if ends_with(r, seq![';']) {
            trim(r.drop_last())
        } else {
            r
        }
    }
}

/// What is shown of rustfmt's output for `fn main() { <declaration>; }`:
/// the tidied body, or the output itself when it has no braces.
pub open spec fn spec_tidy(formatted: Seq<char>) -> Seq<char> {
    match main_body(trim(formatted)) {
        Some(body) => tidy_body(body),
        None => formatted,
    }
}

/// Executable form of [`min_indent`].
fn min_indent_exec(ls: &Vec<Vec<char>>) -> (m: usize)
    ensures
        m == min_indent(ls.deep_view()),
{
    let ghost lv = ls.deep_view();
    let mut acc: Option<usize> = None;
    let mut i: usize = 1;
    while i < ls.len()
        invariant
            1 <= i,
            lv == ls.deep_view(),
            min_indent_from(lv, i as int, match acc {
                Some(a) => Some(a as nat),
                None => None,
            }) == min_indent(lv),
        decreases ls@.len() - i,
    {
        assert(ls[i as int]@ == lv[i as int]);
        let l = trim_end_chars(ls[i].as_slice());
        if l.len() > 0 {
            let ind = count_leading_ws(l.as_slice());
            acc = match acc {
                Some(a) => if ind < a {
                    Some(ind)
                } else {
                    Some(a)
                },
                None => Some(ind),
            };
        }
        i = i + 1;
    }
    match acc {
        Some(a) => a,
        None => 0,
    }
}

/// Tidies rustfmt's output (see [`tidy_rustfmt_output`]), or returns `None`
/// when it is not [`tidy_ok`].
pub fn try_tidy(formatted: &str) -> (r: Option<String>)
    ensures
        match r {
            Some(s) => tidy_ok(formatted@) && s@ == spec_tidy(formatted@),
            None => !tidy_ok(formatted@),
        },
{
    let f = chars_of(formatted);
    let t = trim_chars(f.as_slice());
    let open: Vec<char> = vec!['{'];
    assert(open@ =~= seq!['{']);
    let a = find_chars(t.as_slice(), open.as_slice(), 0);
    let b = last_index_of_char(t.as_slice(), '}');
    match (a, b) {
        (Some(a), Some(b)) => {
            proof {
                lemma_find_from(t@, open@, 0);
                lemma_last_index_of(t@, '}');
            }
            if a >= b {
                return None;
            }
            let body = slice_chars(t.as_slice(), a + 1, b);
            assert(main_body(t@) == Some(body@));
            let ls = lines_chars(body.as_slice());
            let ghost lv = ls.deep_view();
            if ls.len() == 0 {
                assert(tidy_body(body@) =~= Seq::<char>::empty());
                return Some(String::new());
            }
            let m = min_indent_exec(&ls);
            let mut stripped: Vec<Vec<char>> = Vec::new();
            let mut i: usize = 0;
            while i < ls.len()
                invariant
                    i <= ls@.len(),
                    lv == ls.deep_view(),
                    lv == lines_of(body@),
                    t@ == trim(formatted@),
                    find_from(t@, seq!['{'], 0) == Some(a as int),
                    last_index_of(t@, '}') == Some(b as int),
                    a < b,
                    body@ == t@.subrange(a + 1, b as int),
                    m == min_indent(lv),
                    stripped.deep_view() =~= Seq::new(
                        i as nat,
                        |j: int| strip_line(j, lv[j], m as nat),
                    ),
                    forall|j: int| 1 <= j < i ==> line_sliceable(#[trigger] lv[j], m as nat),
                decreases ls@.len() - i,
            {
                assert(ls[i as int]@ == lv[i as int]);
                let l = trim_end_chars(ls[i].as_slice());
                let piece = if i == 0 {
                    trim_start_chars(l.as_slice())
                } else if utf8_len_at_least(l.as_slice(), m) {
                    match byte_boundary_exec(l.as_slice(), m) {
                        Some(k) => {
                            proof {
                                lemma_byte_boundary_le(l@, m as nat);
                            }
                            slice_chars(l.as_slice(), k, l.len())
                        },
                        None => {
                            assert(!line_sliceable(lv[i as int], m as nat));
                            assert(!tidy_ok(formatted@)) by {
                                assert(t@ == trim(formatted@));
                                assert(body@ == t@.subrange(a + 1, b as int));
                            }
                            return None;
                        },
                    }
                } else {
                    trim_start_chars(l.as_slice())
                };
                assert(piece@ == strip_line(i as int, lv[i as int], m as nat));
                let ghost before = stripped.deep_view();
                assert(piece.deep_view() =~= piece@);
                stripped.push(piece);
                assert(stripped.deep_view() =~= before.push(piece@));
                i = i + 1;
            }
            let joined = join_lines_exec(&stripped);
            let r = trim_chars(joined.as_slice());
            let n = r.len();
            let out = if n > 0 && r[n - 1] == ';' {
                assert(r@.skip(n - 1) =~= seq![';']);
                assert(ends_with(r@, seq![';']));
                let cut = slice_chars(r.as_slice(), 0, n - 1);
                assert(cut@ =~= r@.drop_last());
                trim_chars(cut.as_slice())
            } else {
                assert(!ends_with(r@, seq![';'])) by {
                    if n > 0 {
                        assert(r@.skip(n - 1)[0] == r@[n - 1]);
                    }
                }
                r
            };
            Some(string_of(out.as_slice()))
        },
        _ => {
            assert(main_body(t@) is None);
            Some(string_of(f.as_slice()))
        },
    }
}

proof fn lemma_byte_boundary_le(s: Seq<char>, m: nat)
    ensures
        byte_boundary(s, m) matches Some(k) ==> k <= s.len(),
    decreases s.len(),
{
    if m > 0 && s.len() > 0 && utf8_width(s[0]) <= m {
        lemma_byte_boundary_le(s.drop_first(), (m - utf8_width(s[0])) as nat);
    }
}

/// Executable form of [`join_lines`].
fn join_lines_exec(ls: &Vec<Vec<char>>) -> (r: Vec<char>)
    ensures
        r@ == join_lines(ls.deep_view()),
{
    let ghost lv = ls.deep_view();
    let mut r: Vec<char> = Vec::new();
    let mut i: usize = 0;
    while i < ls.len()
        invariant
            i <= ls@.len(),
            lv == ls.deep_view(),
            r@ == join_lines(lv.take(i as int)),
        decreases ls@.len() - i,
    {
        assert(ls[i as int]@ == lv[i as int]);
        assert(lv.take(i + 1).drop_last() =~= lv.take(i as int));
        if i > 0 {
            r.push('\n');
        } else {
            assert(r@ =~= Seq::<char>::empty());
        }
        push_all(&mut r, ls[i].as_slice());
        i = i + 1;
    }
    assert(lv.take(ls.len() as int) =~= lv);
    r
}

/// Tidies rustfmt's output for `fn main() { <declaration>; }` (see
/// [`spec_tidy`]).
pub fn tidy_rustfmt_output(formatted: &str) -> (r: String)
    requires
        tidy_ok(formatted@),
    ensures
        r@ == spec_tidy(formatted@),
{
    match try_tidy(formatted) {
        Some(s) => s,
        None => {
            assert(false);
            String::new()
        },
    }
}

// ---------------------------------------------------------------------------
// rustfmt
// ---------------------------------------------------------------------------

#[verifier::external_type_specification]
#[verifier::external_body]
pub struct ExRustFmt(rust_format::RustFmt);

#[verifier::external_type_specification]
#[verifier::external_body]
pub struct ExRustFmtError(rust_format::Error);

/// `rust_format::RustFmt::default()`: a formatter that runs the `rustfmt`
/// binary named by the `RUSTFMT` environment variable, or `rustfmt`.
/// Nothing is claimed of it.
#[verifier::external_body]
fn rustfmt_default() -> rust_format::RustFmt {
    rust_format::RustFmt::default()
}

/// `rust_format::Formatter::format_str`: runs rustfmt on `source`.  What comes
/// back depends on the rustfmt found on the machine (or its absence), so no
/// clause is given about it.
#[verifier::external_body]
fn rustfmt_format_str(formatter: &rust_format::RustFmt, source: &str) -> Result<
    String,
    rust_format::Error,
> {
    formatter.format_str(source)
}

/// The source handed to rustfmt: `fn main() { <declaration>; }`.
pub open spec fn spec_rustfmt_input(v: QuoPayloadVariable, var_type: Seq<char>) -> Seq<char> {
    "fn main() { "@ + spec_rust_declaration(v, var_type) + "; }"@
}

/// What the Rust form shows, given what rustfmt returned: the tidied output
/// on success, the declaration itself when rustfmt failed.
pub open spec fn spec_format_rust_with(
    v: QuoPayloadVariable,
    var_type: Seq<char>,
    rustfmt_output: Option<Seq<char>>,
) -> Seq<char> {
    match rustfmt_output {
        Some(o) => spec_tidy(o),
        None => spec_rust_declaration(v, var_type),
    }
}

/// The Rust form is [`spec_format_rust_with`] of some result of rustfmt:
/// `Some(o)` for output `o` that can be tidied, or `None` when rustfmt failed
/// or its output cannot be tidied (then it is the declaration itself).
pub open spec fn rust_outcome(v: QuoPayloadVariable, var_type: Seq<char>, r: Seq<char>) -> bool {
    exists|o: Option<Seq<char>>|
        (o matches Some(x) ==> tidy_ok(x)) && r == #[trigger] spec_format_rust_with(v, var_type, o)
}

/// Builds the source that is handed to rustfmt (see [`spec_rustfmt_input`]).
pub fn rustfmt_input(v: &QuoPayloadVariable, var_type: &str) -> (r: String)
    requires
        value_fits(*v),
    ensures
        r@ == spec_rustfmt_input(*v, var_type@),
{
    let decl = rust_declaration(v, var_type);
    let mut out: Vec<char> = Vec::new();
    push_str(&mut out, "fn main() { ");
    push_str(&mut out, decl.as_str());
    push_str(&mut out, "; }");
    assert(out@ =~= spec_rustfmt_input(*v, var_type@));
    string_of(out.as_slice())
}

/// The Rust form given rustfmt's result (`None` when rustfmt failed); see
/// [`spec_format_rust_with`].
pub fn format_rust_with(v: &QuoPayloadVariable, var_type: &str, rustfmt_output: Option<&str>) -> (r:
    String)
    requires
        value_fits(*v),
        rustfmt_output matches Some(o) ==> tidy_ok(o@),
    ensures
        r@ == spec_format_rust_with(*v, var_type@, match rustfmt_output {
            Some(o) => Some(o@),
            None => None,
        }),
{
    match rustfmt_output {
        Some(o) => tidy_rustfmt_output(o),
        None => rust_declaration(v, var_type),
    }
}

/// Runs rustfmt on the source for the declaration (see
/// [`spec_rustfmt_input`]): its output where it succeeds and the output can
/// be tidied, `None` otherwise.  What rustfmt prints depends on the machine.
fn rustfmt_output(v: &QuoPayloadVariable, var_type: &str) -> (r: Option<String>)
    requires
        value_fits(*v),
    ensures
        r matches Some(o) ==> tidy_ok(o@),
{
    let source = rustfmt_input(v, var_type);
    let formatter = rustfmt_default();
    match rustfmt_format_str(&formatter, source.as_str()) {
        Ok(formatted) => match try_tidy(formatted.as_str()) {
            Some(_) => Some(formatted),
            None => None,
        },
        Err(_) => None,
    }
}

/// Formats the declaration with rustfmt and tidies the result; falls back to
/// the unformatted declaration when rustfmt fails or returns text that cannot
/// be tidied (see [`format_rust_with`]).
fn format_rust_as(v: &QuoPayloadVariable, var_type: &str) -> (r: String)
    requires
        value_fits(*v),
    ensures
        rust_outcome(*v, var_type@, r@),
{
    let out = rustfmt_output(v, var_type);
    let r = match &out {
        Some(o) => format_rust_with(v, var_type, Some(o.as_str())),
        None => format_rust_with(v, var_type, None),
    };
    let ghost o = match out {
        Some(x) => Some(x@),
        None => None,
    };
    assert(r@ == spec_format_rust_with(*v, var_type@, o));
    r
}

/// The Rust form of a dump (see [`rust_outcome`]).
pub fn format_rust(dump: &IncomingQuoPayload) -> (r: String)
    requires
        value_fits(dump.meta.variable),
    ensures
        rust_outcome(dump.meta.variable, dump.meta.variable.var_type@, r@),
{
    format_rust_as(&dump.meta.variable, dump.meta.variable.var_type.as_str())
}

/// The JavaScript/TypeScript form of a dump.
pub fn format_javascript_typescript(dump: &IncomingQuoPayload) -> (r: String)
    requires
        value_fits(dump.meta.variable),
    ensures
        r@ == spec_let_declaration(dump.meta.variable, dump.meta.variable.var_type@),
{
    let_declaration(&dump.meta.variable, dump.meta.variable.var_type.as_str())
}

/// The PHP form of a dump.
pub fn format_php(dump: &IncomingQuoPayload) -> (r: String)
    requires
        value_fits(dump.meta.variable),
    ensures
        r@ == spec_php_declaration(dump.meta.variable, dump.meta.variable.var_type@),
{
    php_declaration(&dump.meta.variable, dump.meta.variable.var_type.as_str())
}

/// The Go form of a dump.
pub fn format_go(dump: &IncomingQuoPayload) -> (r: String)
    requires
        value_fits(dump.meta.variable),
    ensures
        r@ == spec_go_declaration(dump.meta.variable, dump.meta.variable.var_type@),
{
    go_declaration(&dump.meta.variable, dump.meta.variable.var_type.as_str())
}

/// The form used for the other languages.
pub fn format_generic(dump: &IncomingQuoPayload) -> (r: String)
    requires
        value_fits(dump.meta.variable),
    ensures
        r@ == spec_let_declaration(dump.meta.variable, dump.meta.variable.var_type@),
{
    let_declaration(&dump.meta.variable, dump.meta.variable.var_type.as_str())
}

// ---------------------------------------------------------------------------
// Dispatch
// ---------------------------------------------------------------------------

/// The type name as shown: truncated when asked to.
pub open spec fn shown_type(v: QuoPayloadVariable, truncate: bool) -> Seq<char> {
    if truncate {
        spec_truncate_type(v.var_type@)
    } else {
        v.var_type@
    }
}

/// The rendering of every language but Rust.
pub open spec fn spec_format_fixed(
    language: QuoPayloadLanguage,
    v: QuoPayloadVariable,
    var_type: Seq<char>,
) -> Seq<char> {
    match language {
        QuoPayloadLanguage::Php => spec_php_declaration(v, var_type),
        QuoPayloadLanguage::Go => spec_go_declaration(v, var_type),
        _ => spec_let_declaration(v, var_type),
    }
}

/// `r` is a rendering of the dump in its sender's language, with the type
/// name truncated when `truncate` is set: a Rust form that rustfmt may give
/// (see [`rust_outcome`]), or exactly the form of the other languages (see
/// [`spec_format_fixed`]).
pub open spec fn renders_as(dump: IncomingQuoPayload, truncate: bool, r: Seq<char>) -> bool {
    let t = shown_type(dump.meta.variable, truncate);
    if dump.language == QuoPayloadLanguage::Rust {
        rust_outcome(dump.meta.variable, t, r)
    } else {
        r == spec_format_fixed(dump.language, dump.meta.variable, t)
    }
}

/// Renders a dump in the sender's language, with the type name truncated
/// when `truncate` is set: Rust goes through rustfmt (see [`rust_outcome`]),
/// JavaScript and TypeScript use `let`/`const`, PHP and Go have their own
/// forms and every other language uses the `let`/`const` form.
pub fn format_by_language(dump: &IncomingQuoPayload, truncate: bool) -> (r: String)
    requires
        value_fits(dump.meta.variable),
    ensures
        renders_as(*dump, truncate, r@),
{
    let v = &dump.meta.variable;
    let var_type = if truncate {
        truncate_type(v.var_type.as_str())
    } else {
        v.var_type.clone()
    };
    match dump.language {
        QuoPayloadLanguage::Rust => format_rust_as(v, var_type.as_str()),
        QuoPayloadLanguage::Typescript | QuoPayloadLanguage::Javascript => let_declaration(
            v,
            var_type.as_str(),
        ),
        QuoPayloadLanguage::Php => php_declaration(v, var_type.as_str()),
        QuoPayloadLanguage::Go => go_declaration(v, var_type.as_str()),
        _ => let_declaration(v, var_type.as_str()),
    }
}

/// The dump with another type name.
pub open spec fn with_type(dump: IncomingQuoPayload, var_type: String) -> IncomingQuoPayload {
    IncomingQuoPayload {
        meta: IncomingQuoPayloadMeta {
            variable: QuoPayloadVariable { var_type, ..dump.meta.variable },
            ..dump.meta
        },
        ..dump
    }
}

/// Rendering a dump with its type truncated is rendering, untruncated, the
/// dump whose type name is already the truncated one.
pub proof fn lemma_truncated_rendering(dump: IncomingQuoPayload, truncated: String, r: Seq<char>)
    requires
        truncated@ == spec_truncate_type(dump.meta.variable.var_type@),
    ensures
        renders_as(dump, true, r) == renders_as(with_type(dump, truncated), false, r),
{
    let v = dump.meta.variable;
    let w = with_type(dump, truncated).meta.variable;
    let t = truncated@;
    assert(spec_let_declaration(v, t) == spec_let_declaration(w, t));
    assert(spec_php_declaration(v, t) == spec_php_declaration(w, t));
    assert(spec_go_declaration(v, t) == spec_go_declaration(w, t));
    assert(spec_rust_declaration(v, t) == spec_rust_declaration(w, t));
    if rust_outcome(v, t, r) {
        let o = choose|o: Option<Seq<char>>|
            (o matches Some(x) ==> tidy_ok(x)) && r == #[trigger] spec_format_rust_with(v, t, o);
        assert(spec_format_rust_with(w, t, o) == spec_format_rust_with(v, t, o));
    }
    if rust_outcome(w, t, r) {
        let o = choose|o: Option<Seq<char>>|
            (o matches Some(x) ==> tidy_ok(x)) && r == #[trigger] spec_format_rust_with(w, t, o);
        assert(spec_format_rust_with(w, t, o) == spec_format_rust_with(v, t, o));
    }
}

/// JavaScript and TypeScript dumps render exactly like Python, Ruby and
/// unknown-language dumps (all in the `let`/`const` form).
pub proof fn lemma_let_languages_render_alike(
    dump: IncomingQuoPayload,
    other: QuoPayloadLanguage,
    truncate: bool,
    r: Seq<char>,
)
    requires
        dump.language == QuoPayloadLanguage::Javascript || dump.language
            == QuoPayloadLanguage::Typescript,
        other == QuoPayloadLanguage::Python || other == QuoPayloadLanguage::Ruby || other
            == QuoPayloadLanguage::Unknown,
    ensures
        renders_as(dump, truncate, r) == renders_as(IncomingQuoPayload { language: other, ..dump }, truncate, r),
{
}

} // verus!
