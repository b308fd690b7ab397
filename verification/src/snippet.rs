//! Re-indentation of dumped values (`format_code_snippet`).
//!
//! A dumped value arrives as one line of `Debug` output.  The formatter walks
//! it character by character, breaking lines after opening brackets and
//! commas and indenting by nesting depth, while leaving string literals
//! untouched.

use vstd::prelude::*;
use crate::text::{
    lemma_strip_ws_all_ws, lemma_strip_ws_concat, lemma_strip_ws_empty, lemma_strip_ws_first,
    lemma_strip_ws_push, lemma_strip_ws_trim, strip_ws, chars_of, ends_with, ends_with_chars, is_whitespace, is_ws, push_spaces, spaces, string_of, trim,
    trim_chars,
};

verus! {

/// `c` opens a bracket pair.
pub open spec fn is_opener(c: char) -> bool {
    c == '{' || c == '[' || c == '('
}

/// `c` closes a bracket pair.
pub open spec fn is_closer(c: char) -> bool {
    c == '}' || c == ']' || c == ')'
}

/// The closing bracket that matches the opening bracket `c`.
pub open spec fn closing_of(c: char) -> char {
    if c == '{' {
        '}'
    } else if c == '[' {
        ']'
    } else {
        ')'
    }
}

/// A line break followed by `n` spaces.
pub open spec fn newline_indent(n: nat) -> Seq<char> {
    seq!['\n'] + spaces(n)
}

/// The formatter as a state machine over the characters still to read.
///
/// `out` is the text produced so far, `level` the bracket depth, `in_string`
/// whether a string literal delimited by `quote` is open, `escaped` whether
/// the previous character inside that literal was a backslash, and
/// `skipping` whether whitespace is being dropped after a comma.
pub open spec fn snippet_run(
    out: Seq<char>,
    level: nat,
    in_string: bool,
    quote: char,
    escaped: bool,
    skipping: bool,
    rest: Seq<char>,
    indent: nat,
) -> Seq<char>
    decreases rest.len(),
{
    if rest.len() == 0 {
        out
    } else {
        let c = rest[0];
        let tail = rest.drop_first();
        if in_string {
            let out2 = out.push(c);
            if escaped {
                snippet_run(out2, level, true, quote, false, false, tail, indent)
            } else if c == '\\' {
                snippet_run(out2, level, true, quote, true, false, tail, indent)
            } else if c == quote {
                snippet_run(out2, level, false, quote, false, false, tail, indent)
            } else {
                snippet_run(out2, level, true, quote, false, false, tail, indent)
            }
        } else if skipping && is_ws(c) {
            snippet_run(out, level, false, quote, false, true, tail, indent)
        } else if c == '"' || c == '\'' {
            snippet_run(out.push(c), level, true, c, false, false, tail, indent)
        } else if is_opener(c) {
            if tail.len() > 0 && tail[0] == closing_of(c) {
                snippet_run(
                    out.push(c).push(tail[0]),
                    level,
                    false,
                    quote,
                    false,
                    false,
                    tail.drop_first(),
                    indent,
                )
            } else {
                snippet_run(
                    out.push(c) + newline_indent(indent * (level + 1)),
                    level + 1,
                    false,
                    quote,
                    false,
                    false,
                    tail,
                    indent,
                )
            }
        } else if is_closer(c) {
            let suffix = newline_indent(indent * (level as nat));
            let new_level: nat = if level > 0 {
                (level - 1) as nat
            } else {
                0
            };
            let out2 = if ends_with(out, suffix) {
                out.take(out.len() - suffix.len())
            } else {
                out + newline_indent(indent * (new_level as nat))
            };
            snippet_run(out2.push(c), new_level, false, quote, false, false, tail, indent)
        } else if c == ',' {
            snippet_run(
                out.push(c) + newline_indent(indent * (level as nat)),
                level,
                false,
                quote,
                false,
                true,
                tail,
                indent,
            )
        } else if is_ws(c) {
            if out.len() > 0 && out.last() != '\n' && out.last() != ' ' {
                snippet_run(out.push(c), level, false, quote, false, false, tail, indent)
            } else {
                snippet_run(out, level, false, quote, false, false, tail, indent)
            }
        } else {
            snippet_run(out.push(c), level, false, quote, false, false, tail, indent)
        }
    }
}

/// What `format_code_snippet(code, indent)` returns: the state machine run
/// over the whole input, trimmed.
pub open spec fn spec_format_code_snippet(code: Seq<char>, indent: nat) -> Seq<char> {
    trim(snippet_run(Seq::empty(), 0, false, ' ', false, false, code, indent))
}

proof fn lemma_strip_newline_indent(n: nat)
    ensures
        strip_ws(newline_indent(n)) == Seq::<char>::empty(),
{
    assert forall|i: int| 0 <= i < newline_indent(n).len() implies is_ws(
        #[trigger] newline_indent(n)[i],
    ) by {
        if i > 0 {
            assert(newline_indent(n)[i] == spaces(n)[i - 1]);
        }
    }
    lemma_strip_ws_all_ws(newline_indent(n));
}

/// Running the formatter keeps the non-whitespace characters: those of the
/// output so far followed by those of the rest of the input.
proof fn lemma_run_keeps_content(
    out: Seq<char>,
    level: nat,
    in_string: bool,
    quote: char,
    escaped: bool,
    skipping: bool,
    rest: Seq<char>,
    indent: nat,
)
    ensures
        strip_ws(snippet_run(out, level, in_string, quote, escaped, skipping, rest, indent))
            == strip_ws(out) + strip_ws(rest),
    decreases rest.len(),
{
    if rest.len() == 0 {
        lemma_strip_ws_empty();
        assert(rest =~= Seq::<char>::empty());
        assert(strip_ws(out) + strip_ws(rest) =~= strip_ws(out));
    } else {
        let c = rest[0];
        let tail = rest.drop_first();
        lemma_strip_ws_first(rest);
        let cs = if is_ws(c) {
            Seq::<char>::empty()
        } else {
            seq![c]
        };
        lemma_strip_ws_push(out, c);
        assert(strip_ws(out.push(c)) =~= strip_ws(out) + cs);
        if in_string {
            let out2 = out.push(c);
            if escaped {
                lemma_run_keeps_content(out2, level, true, quote, false, false, tail, indent);
            } else if c == '\\' {
                lemma_run_keeps_content(out2, level, true, quote, true, false, tail, indent);
            } else if c == quote {
                lemma_run_keeps_content(out2, level, false, quote, false, false, tail, indent);
            } else {
                lemma_run_keeps_content(out2, level, true, quote, false, false, tail, indent);
            }
            assert(strip_ws(out2) + strip_ws(tail) =~= strip_ws(out) + strip_ws(rest));
        } else if skipping && is_ws(c) {
            lemma_run_keeps_content(out, level, false, quote, false, true, tail, indent);
            assert(strip_ws(out) + strip_ws(tail) =~= strip_ws(out) + strip_ws(rest));
        } else if c == '"' || c == '\'' {
            lemma_run_keeps_content(out.push(c), level, true, c, false, false, tail, indent);
            assert(strip_ws(out.push(c)) + strip_ws(tail) =~= strip_ws(out) + strip_ws(rest));
        } else if is_opener(c) {
            if tail.len() > 0 && tail[0] == closing_of(c) {
                let d = tail[0];
                let out2 = out.push(c).push(d);
                lemma_strip_ws_first(tail);
                lemma_strip_ws_push(out.push(c), d);
                lemma_run_keeps_content(
                    out2,
                    level,
                    false,
                    quote,
                    false,
                    false,
                    tail.drop_first(),
                    indent,
                );
                assert(strip_ws(out2) + strip_ws(tail.drop_first()) =~= strip_ws(out) + strip_ws(
                    rest,
                ));
            } else {
                let ni = newline_indent(indent * (level + 1));
                let out2 = out.push(c) + ni;
                lemma_strip_newline_indent(indent * (level + 1));
                lemma_strip_ws_concat(out.push(c), ni);
                lemma_run_keeps_content(out2, level + 1, false, quote, false, false, tail, indent);
                assert(strip_ws(out2) + strip_ws(tail) =~= strip_ws(out) + strip_ws(rest));
            }
        } else if is_closer(c) {
            let suffix = newline_indent(indent * level);
            let new_level: nat = if level > 0 {
                (level - 1) as nat
            } else {
                0
            };
            let out2 = if ends_with(out, suffix) {
                out.take(out.len() - suffix.len())
            } else {
                out + newline_indent(indent * new_level)
            };
            if ends_with(out, suffix) {
                assert(out =~= out2 + suffix);
                lemma_strip_newline_indent(indent * level);
                lemma_strip_ws_concat(out2, suffix);
            } else {
                lemma_strip_newline_indent(indent * new_level);
                lemma_strip_ws_concat(out, newline_indent(indent * new_level));
            }
            assert(strip_ws(out2) =~= strip_ws(out));
            lemma_strip_ws_push(out2, c);
            lemma_run_keeps_content(out2.push(c), new_level, false, quote, false, false, tail, indent);
            assert(strip_ws(out2.push(c)) + strip_ws(tail) =~= strip_ws(out) + strip_ws(rest));
        } else if c == ',' {
            let ni = newline_indent(indent * level);
            let out2 = out.push(c) + ni;
            lemma_strip_newline_indent(indent * level);
            lemma_strip_ws_concat(out.push(c), ni);
            lemma_run_keeps_content(out2, level, false, quote, false, true, tail, indent);
            assert(strip_ws(out2) + strip_ws(tail) =~= strip_ws(out) + strip_ws(rest));
        } else if is_ws(c) {
            if out.len() > 0 && out.last() != '\n' && out.last() != ' ' {
                lemma_run_keeps_content(out.push(c), level, false, quote, false, false, tail, indent);
            } else {
                lemma_run_keeps_content(out, level, false, quote, false, false, tail, indent);
            }
            assert(strip_ws(out) + strip_ws(tail) =~= strip_ws(out) + strip_ws(rest));
        } else {
            lemma_run_keeps_content(out.push(c), level, false, quote, false, false, tail, indent);
            assert(strip_ws(out.push(c)) + strip_ws(tail) =~= strip_ws(out) + strip_ws(rest));
        }
    }
}

/// Formatting a snippet only inserts, removes or changes whitespace: with
/// all whitespace taken out, the result is the input.
pub proof fn lemma_format_code_snippet_keeps_content(code: Seq<char>, indent: nat)
    ensures
        strip_ws(spec_format_code_snippet(code, indent)) == strip_ws(code),
{
    lemma_run_keeps_content(Seq::empty(), 0, false, ' ', false, false, code, indent);
    lemma_strip_ws_empty();
    lemma_strip_ws_trim(snippet_run(Seq::empty(), 0, false, ' ', false, false, code, indent));
    assert(Seq::<char>::empty() + strip_ws(code) =~= strip_ws(code));
}

/// Whether `out` ends with a line break followed by `n` spaces.
fn ends_with_newline_indent(out: &Vec<char>, n: usize) -> (b: bool)
    ensures
        b == ends_with(out@, newline_indent(n as nat)),
{
    if n >= out.len() {
        return false;
    }
    let mut suffix: Vec<char> = Vec::new();
    suffix.push('\n');
    push_spaces(&mut suffix, n);
    assert(suffix@ =~= newline_indent(n as nat));
    ends_with_chars(out.as_slice(), suffix.as_slice())
}

/// Re-indents a one-line value dump: every opening bracket and comma starts a
/// new line indented by `indent_size` spaces per nesting level, empty bracket
/// pairs stay together, runs of whitespace collapse, and string literals
/// (in double or single quotes, with backslash escapes) are copied as they
/// are.  The result is trimmed.
pub fn format_code_snippet(code: &str, indent_size: usize) -> (r: String)
    requires
        indent_size * code@.len() <= usize::MAX,
    ensures
        r@ == spec_format_code_snippet(code@, indent_size as nat),
        strip_ws(r@) == strip_ws(code@),
{
    proof {
        lemma_format_code_snippet_keeps_content(code@, indent_size as nat);
    }
    let input = chars_of(code);
    let n = input.len();
    let ghost indent = indent_size as nat;
    let mut out: Vec<char> = Vec::new();
    let mut level: usize = 0;
    let mut in_string = false;
    let mut quote = ' ';
    let mut escaped = false;
    let mut skipping = false;
    let mut i: usize = 0;
    assert(input@.skip(0) =~= input@);
    while i < n
        invariant
            i <= n,
            n == input@.len(),
            input@ == code@,
            level <= i,
            indent_size * n <= usize::MAX,
            snippet_run(out@, level as nat, in_string, quote, escaped, skipping, input@.skip(i as int), indent)
                == snippet_run(Seq::empty(), 0, false, ' ', false, false, input@, indent),
            indent == indent_size,
            !in_string ==> !escaped,
        decreases n - i,
    {
        let c = input[i];
        let ghost rest = input@.skip(i as int);
        assert(rest[0] == c);
        assert(rest.drop_first() =~= input@.skip(i + 1));
        assert(indent_size * (level + 1) <= indent_size * n) by (nonlinear_arith)
            requires
                level + 1 <= n,
        ;
        let ghost before = out@;
        if in_string {
            out.push(c);
            if escaped {
                escaped = false;
            } else if c == '\\' {
                escaped = true;
            } else if c == quote {
                in_string = false;
            }
            skipping = false;
            i = i + 1;
        } else if skipping && is_whitespace(c) {
            i = i + 1;
        } else if c == '"' || c == '\'' {
            out.push(c);
            in_string = true;
            quote = c;
            escaped = false;
            skipping = false;
            i = i + 1;
        } else if c == '{' || c == '[' || c == '(' {
            let closing = if c == '{' {
                '}'
            } else if c == '[' {
                ']'
            } else {
                ')'
            };
            out.push(c);
            skipping = false;
            escaped = false;
            if i + 1 < n && input[i + 1] == closing {
                assert(rest.drop_first()[0] == input@[i + 1]);
                assert(rest.drop_first().drop_first() =~= input@.skip(i + 2));
                out.push(closing);
                i = i + 2;
            } else {
                level = level + 1;
                out.push('\n');
                push_spaces(&mut out, indent_size * level);
                assert(out@ =~= before.push(c) + newline_indent(indent * (level as nat)));
                i = i + 1;
            }
        } else if c == '}' || c == ']' || c == ')' {
            assert(indent_size * level <= indent_size * n) by (nonlinear_arith)
                requires
                    level <= n,
            ;
            let current = indent_size * level;
            let new_level: usize = if level > 0 {
                level - 1
            } else {
                0
            };
            assert(indent_size * new_level <= indent_size * n) by (nonlinear_arith)
                requires
                    new_level <= n,
            ;
            if ends_with_newline_indent(&out, current) {
                out.truncate(out.len() - (current + 1));
                assert(out@ =~= before.take(before.len() - newline_indent(indent * (level as nat)).len()));
            } else {
                out.push('\n');
                push_spaces(&mut out, indent_size * new_level);
                assert(out@ =~= before + newline_indent(indent * (new_level as nat)));
            }
            out.push(c);
            level = new_level;
            skipping = false;
            escaped = false;
            i = i + 1;
        } else if c == ',' {
            assert(indent_size * level <= indent_size * n) by (nonlinear_arith)
                requires
                    level <= n,
            ;
            out.push(c);
            out.push('\n');
            push_spaces(&mut out, indent_size * level);
            assert(out@ =~= before.push(c) + newline_indent(indent * (level as nat)));
            skipping = true;
            escaped = false;
            i = i + 1;
        } else if is_whitespace(c) {
            let len = out.len();
            if len > 0 && out[len - 1] != '\n' && out[len - 1] != ' ' {
                out.push(c);
            }
            skipping = false;
            escaped = false;
            i = i + 1;
        } else {
            out.push(c);
            skipping = false;
            escaped = false;
            i = i + 1;
        }
    }
    let t = trim_chars(out.as_slice());
    string_of(t.as_slice())
}

} // verus!
