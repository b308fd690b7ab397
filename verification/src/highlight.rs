//! Syntax highlighting of a dump's rendered code as HTML, with syntect.

use vstd::prelude::*;
use crate::payloads::{IncomingQuoPayload, QuoPayloadLanguage};
use crate::text::{
    chars_of, find_chars, find_from, push_all, push_str, replace_all, replace_chars, rfind_chars,
    rfind_seq, slice_chars, string_of,
};

verus! {

/// syntect's set of syntax definitions.
#[verifier::external_type_specification]
#[verifier::external_body]
pub struct ExSyntaxSet(syntect::parsing::SyntaxSet);

/// A syntect colour theme.
#[verifier::external_type_specification]
#[verifier::external_body]
pub struct ExTheme(syntect::highlighting::Theme);

/// `syntect::parsing::SyntaxSet::load_defaults_newlines`: the syntax
/// definitions bundled with syntect.  Nothing is claimed of the set.
#[verifier::external_body]
fn bundled_syntaxes() -> syntect::parsing::SyntaxSet {
    syntect::parsing::SyntaxSet::load_defaults_newlines()
}

/// Whether syntect reads the bytes as a `.tmTheme` file: they parse as a
/// property list whose settings make a theme.  Reading a theme from memory
/// depends on the bytes alone.
pub uninterp spec fn theme_accepted(bytes: Seq<u8>) -> bool;

/// `syntect::highlighting::ThemeSet::load_from_reader` on the bytes of a
/// `.tmTheme` file: a theme exactly where syntect accepts the bytes (see
/// [`theme_accepted`]).  Nothing is claimed of the theme it builds.
#[verifier::external_body]
fn theme_from_bytes(bytes: &[u8]) -> (r: Option<syntect::highlighting::Theme>)
    ensures
        r is Some <==> theme_accepted(bytes@),
{
    let mut cursor = std::io::Cursor::new(bytes);
    syntect::highlighting::ThemeSet::load_from_reader(&mut cursor).ok()
}

/// The HTML syntect makes of `code`: with its bundled syntax set it finds
/// the syntax registered for `extension` and highlights the code with it
/// and the theme read from `theme_bytes`; `None` where the set has no syntax
/// for the extension or highlighting reports an error.  The bundled syntax
/// set is data compiled into syntect, so the HTML depends on these three
/// values alone.
pub uninterp spec fn syntect_html(code: Seq<char>, extension: Seq<char>, theme_bytes: Seq<u8>) -> Option<
    Seq<char>,
>;

/// `syntect::parsing::SyntaxSet::find_syntax_by_extension` followed by
/// `syntect::html::highlighted_html_for_string`, with the highlighter's
/// syntax set and theme.  A highlighter is only made by
/// [`Highlighter::new`], so its set is syntect's bundled one and its theme
/// was read from its theme bytes; the result is named by [`syntect_html`].
#[verifier::external_body]
fn syntect_highlight(h: &Highlighter, code: &str, extension: &str) -> (r: Option<String>)
    ensures
        (match r {
            Some(s) => Some(s@),
            None => None,
        }) == syntect_html(code@, extension@, h.theme_bytes@),
{
    match h.syntaxes.find_syntax_by_extension(extension) {
        Some(syntax) => syntect::html::highlighted_html_for_string(code, &h.syntaxes, syntax, &h.theme).ok(),
        None => None,
    }
}

/// The file extension whose syntax highlights a language's code (TypeScript
/// is highlighted as JavaScript).
pub open spec fn spec_syntax_extension(language: QuoPayloadLanguage) -> Seq<char> {
    match language {
        QuoPayloadLanguage::Javascript => "js"@,
        QuoPayloadLanguage::Typescript => "js"@,
        QuoPayloadLanguage::Rust => "rs"@,
        QuoPayloadLanguage::Php => "php"@,
        QuoPayloadLanguage::Python => "py"@,
        QuoPayloadLanguage::Ruby => "rb"@,
        QuoPayloadLanguage::Go => "go"@,
        QuoPayloadLanguage::Unknown => "txt"@,
    }
}

/// The file extension whose syntax highlights a language's code (see
/// [`spec_syntax_extension`]).
pub fn syntax_extension(language: QuoPayloadLanguage) -> (r: &'static str)
    ensures
        r@ == spec_syntax_extension(language),
{
    match language {
        QuoPayloadLanguage::Javascript => "js",
        QuoPayloadLanguage::Typescript => "js",
        QuoPayloadLanguage::Rust => "rs",
        QuoPayloadLanguage::Php => "php",
        QuoPayloadLanguage::Python => "py",
        QuoPayloadLanguage::Ruby => "rb",
        QuoPayloadLanguage::Go => "go",
        QuoPayloadLanguage::Unknown => "txt",
    }
}

/// The text handed to the highlighter: PHP code gets an opening `<?php` tag
/// in front, since the PHP syntax only highlights code after one.
pub open spec fn spec_highlight_source(language: QuoPayloadLanguage, code: Seq<char>) -> Seq<char> {
    if language == QuoPayloadLanguage::Php {
        "<?php"@ + code
    } else {
        code
    }
}

/// The text handed to the highlighter (see [`spec_highlight_source`]).
pub fn highlight_source(language: QuoPayloadLanguage, code: &str) -> (r: String)
    ensures
        r@ == spec_highlight_source(language, code@),
{
    let mut out: Vec<char> = Vec::new();
    match language {
        QuoPayloadLanguage::Php => push_str(&mut out, "<?php"),
        _ => {},
    }
    push_str(&mut out, code);
    string_of(out.as_slice())
}

/// Highlighted PHP with the escaped opening tag and its line break removed
/// textually, wherever they stand.
pub open spec fn php_tag_removed(html: Seq<char>) -> Seq<char> {
    replace_all(replace_all(html, "&lt;?php\n"@, Seq::empty()), "<?php\n"@, Seq::empty())
}

/// Highlighted PHP without the added opening tag: the `<span ...>` that holds
/// the first escaped `&lt;?php` is cut out up to the end of its `</span>`;
/// where no such span surrounds it, the tag is removed textually (see
/// [`php_tag_removed`]).
pub open spec fn php_tag_stripped(html: Seq<char>) -> Seq<char> {
    match find_from(html, "&lt;?php"@, 0) {
        Some(pos) => match rfind_seq(html.take(pos), "<span"@) {
            Some(start) => match find_from(html.skip(pos), "</span>"@, 0) {
                Some(end) => html.take(start) + html.skip(pos + end + 7),
                None => php_tag_removed(html),
            },
            None => php_tag_removed(html),
        },
        None => php_tag_removed(html),
    }
}

/// What is shown of the highlighter's HTML: PHP without the opening tag that
/// was added (see [`php_tag_stripped`]), other languages as they are.
pub open spec fn spec_finish_highlight(language: QuoPayloadLanguage, html: Seq<char>) -> Seq<char> {
    if language == QuoPayloadLanguage::Php {
        php_tag_stripped(html)
    } else {
        html
    }
}

fn php_tag_removed_exec(h: &[char]) -> (r: Vec<char>)
    ensures
        r@ == php_tag_removed(h@),
{
    let escaped = chars_of("&lt;?php\n");
    let tag = chars_of("<?php\n");
    proof {
        reveal_strlit("&lt;?php\n");
        reveal_strlit("<?php\n");
    }
    let none: Vec<char> = Vec::new();
    assert(none@ =~= Seq::<char>::empty());
    let once = replace_chars(h, escaped.as_slice(), none.as_slice());
    replace_chars(once.as_slice(), tag.as_slice(), none.as_slice())
}

/// What is shown of the highlighter's HTML (see [`spec_finish_highlight`]).
pub fn finish_highlight(language: QuoPayloadLanguage, html: &str) -> (r: String)
    ensures
        r@ == spec_finish_highlight(language, html@),
{
    match language {
        QuoPayloadLanguage::Php => {},
        _ => {
            let h = chars_of(html);
            return string_of(h.as_slice());
        },
    }
    let h = chars_of(html);
    let h = h.as_slice();
    let open_tag = chars_of("&lt;?php");
    let span = chars_of("<span");
    let close = chars_of("</span>");
    proof {
        reveal_strlit("</span>");
    }
    if let Some(pos) = find_chars(h, open_tag.as_slice(), 0) {
        proof {
            crate::text::lemma_find_from(h@, open_tag@, 0);
        }
        let before = slice_chars(h, 0, pos);
        assert(before@ == h@.take(pos as int));
        if let Some(start) = rfind_chars(before.as_slice(), span.as_slice()) {
            let after = slice_chars(h, pos, h.len());
            assert(after@ == h@.skip(pos as int));
            if let Some(end) = find_chars(after.as_slice(), close.as_slice(), 0) {
                proof {
                    crate::text::lemma_find_from(after@, close@, 0);
                }
                let head = slice_chars(h, 0, start);
                let tail = slice_chars(h, pos + end + 7, h.len());
                let mut out: Vec<char> = Vec::new();
                push_all(&mut out, head.as_slice());
                push_all(&mut out, tail.as_slice());
                assert(out@ =~= h@.take(start as int) + h@.skip(pos + end + 7));
                return string_of(out.as_slice());
            }
        }
    }
    let r = php_tag_removed_exec(h);
    string_of(r.as_slice())
}

/// What highlighting needs: syntect's bundled syntax definitions and the
/// colour theme of code boxes, with the bytes it was read from.
pub struct Highlighter {
    syntaxes: syntect::parsing::SyntaxSet,
    theme: syntect::highlighting::Theme,
    theme_bytes: Vec<u8>,
}

/// What [`Highlighter::code_syntax_highlighter`] gives for code `code` of a
/// dump in `language` whose type is `var_type`, with a theme read from
/// `theme_bytes`: the code itself for the error type; otherwise the HTML
/// syntect makes of the highlighted source (see [`spec_highlight_source`])
/// with the language's syntax (see [`spec_syntax_extension`]), finished by
/// [`spec_finish_highlight`], or `None` where syntect makes none.
pub open spec fn spec_code_box(
    language: QuoPayloadLanguage,
    var_type: Seq<char>,
    error_type: Seq<char>,
    code: Seq<char>,
    theme_bytes: Seq<u8>,
) -> Option<Seq<char>> {
    if var_type == error_type {
        Some(code)
    } else {
        match syntect_html(
            spec_highlight_source(language, code),
            spec_syntax_extension(language),
            theme_bytes,
        ) {
            Some(html) => Some(spec_finish_highlight(language, html)),
            None => None,
        }
    }
}

impl Highlighter {
    /// A highlighter with syntect's bundled syntaxes and the theme read from
    /// the bytes of a `.tmTheme` file; `None` exactly where the theme cannot
    /// be read (see [`theme_accepted`]).
    pub fn new(theme_bytes: &[u8]) -> (r: Option<Highlighter>)
        ensures
            r is Some <==> theme_accepted(theme_bytes@),
            r matches Some(h) ==> h.theme_bytes() == theme_bytes@,
    {
        match theme_from_bytes(theme_bytes) {
            Some(theme) => Some(
                Highlighter {
                    syntaxes: bundled_syntaxes(),
                    theme,
                    theme_bytes: vstd::slice::slice_to_vec(theme_bytes),
                },
            ),
            None => None,
        }
    }

    /// The bytes the highlighter's theme was read from.
    pub closed spec fn theme_bytes(self) -> Seq<u8> {
        self.theme_bytes@
    }

    /// The HTML of a dump's code box (see [`spec_code_box`]).  A dump whose
    /// type is `error_type` (the type under which client libraries report
    /// their own errors) shows its code as it is; any other is highlighted by
    /// syntect and finished by [`finish_highlight`].
    pub fn code_syntax_highlighter(
        &self,
        payload: &IncomingQuoPayload,
        formatted_code: &str,
        error_type: &str,
    ) -> (r: Option<String>)
        ensures
            (match r {
                Some(s) => Some(s@),
                None => None,
            }) == spec_code_box(
                payload.language,
                payload.meta.variable.var_type@,
                error_type@,
                formatted_code@,
                self.theme_bytes(),
            ),
    {
        if crate::text::str_eq(payload.meta.variable.var_type.as_str(), error_type) {
            let c = chars_of(formatted_code);
            return Some(string_of(c.as_slice()));
        }
        let extension = syntax_extension(payload.language);
        let source = highlight_source(payload.language, formatted_code);
        match syntect_highlight(self, source.as_str(), extension) {
            Some(html) => Some(finish_highlight(payload.language, html.as_str())),
            None => None,
        }
    }
}

} // verus!
