//! Syntax highlighting, done once when a document is imported.
//!
//! syntect is used as a lexer and its themes are not used at all. It emits
//! `<span class="tok-keyword tok-source tok-rust">` and the site's own stylesheet
//! decides what those look like.
//!
//! Two reasons not to bake a theme into the HTML. The site has a dark scheme, and
//! colors written into the markup at import time cannot follow the reader's
//! setting. And a page whose colors come from `static/css/` is a page whose
//! contrast the `checks` crate can verify; a page whose colors are inline styles
//! in a database row is not.

use vstd::prelude::*;

use syntect::html::{ClassStyle, ClassedHTMLGenerator};
use syntect::parsing::SyntaxSet;
use syntect::util::LinesWithEndings;

use crate::html::{escape_spec, escaped, law_escape_is_inert, push_escaped};
use crate::text::{
    chars_of, eq_vec, lower, lower_exec, push_str, starts_with, string_of, words, words_exec,
};

verus! {

// ───────────────────────── the lexer ─────────────────────────

/// Markup whose every `<` opens a token span or closes one: the text between
/// the spans is escaped.
pub open spec fn spans_only(h: Seq<char>) -> bool {
    forall|i: int|
        0 <= i < h.len() && #[trigger] h[i] == '<' ==> (starts_with(h.skip(i), "<span class=\""@)
            || starts_with(h.skip(i), "</span>"@))
}

/// The HTML syntect's classed generator makes of `body`, each token wrapped in
/// a span whose classes are its scope atoms with `prefix` in front, lexed with
/// the bundled syntax called `name`; `None` when there is no such syntax or
/// the lexer refuses a line.
pub uninterp spec fn lexed_by_name(prefix: Seq<char>, name: Seq<char>, body: Seq<char>) -> Option<
    Seq<char>,
>;

/// The same, with the bundled syntax found for `tag` as a file extension or a
/// name, else as a file extension alone.
pub uninterp spec fn lexed_by_tag(prefix: Seq<char>, tag: Seq<char>, body: Seq<char>) -> Option<
    Seq<char>,
>;

/// `SyntaxSet::find_syntax_by_name` in syntect's bundled syntaxes
/// (`load_defaults_newlines`), then `ClassedHTMLGenerator` with
/// `ClassStyle::SpacedPrefixed`, fed the body line by line
/// (`parse_html_for_line_which_includes_newline` over `LinesWithEndings`) and
/// finalized.
///
/// The HTML is named by `lexed_by_name`. syntect writes the text between tags
/// through its `Escape`, which replaces `<`, `>`, `&`, `'` and `"`, and writes
/// no tag but `<span class="…">` and `</span>`; the class names are the scope
/// atoms of the bundled syntaxes, none of which holds a `<`.
#[verifier::external_body]
fn lex_by_name(prefix: &'static str, name: &str, body: &str) -> (r: Option<String>)
    ensures
        r matches Some(h) ==> lexed_by_name(prefix@, name@, body@) == Some(h@) && spans_only(h@),
        r is None ==> lexed_by_name(prefix@, name@, body@) is None,
{
    let set = SyntaxSet::load_defaults_newlines();
    let syntax = set.find_syntax_by_name(name)?;
    let style = ClassStyle::SpacedPrefixed { prefix };
    let mut generator = ClassedHTMLGenerator::new_with_class_style(syntax, &set, style);
    for line in LinesWithEndings::from(body) {
        generator.parse_html_for_line_which_includes_newline(line).ok()?;
    }
    Some(generator.finalize())
}

/// As `lex_by_name`, with the syntax from `SyntaxSet::find_syntax_by_token`,
/// else `SyntaxSet::find_syntax_by_extension`.
///
/// The HTML is named by `lexed_by_tag`; what holds of its markup is as for
/// `lex_by_name`.
#[verifier::external_body]
fn lex_by_tag(prefix: &'static str, tag: &str, body: &str) -> (r: Option<String>)
    ensures
        r matches Some(h) ==> lexed_by_tag(prefix@, tag@, body@) == Some(h@) && spans_only(h@),
        r is None ==> lexed_by_tag(prefix@, tag@, body@) is None,
{
    let set = SyntaxSet::load_defaults_newlines();
    let syntax = set.find_syntax_by_token(tag).or_else(|| set.find_syntax_by_extension(tag))?;
    let style = ClassStyle::SpacedPrefixed { prefix };
    let mut generator = ClassedHTMLGenerator::new_with_class_style(syntax, &set, style);
    for line in LinesWithEndings::from(body) {
        generator.parse_html_for_line_which_includes_newline(line).ok()?;
    }
    Some(generator.finalize())
}

// ───────────────────────── the fence's language ─────────────────────────

/// How a fence's language tag picks a syntax: not at all, by one of the names
/// syntect uses, or by looking the tag itself up.
pub enum SyntaxChoice {
    Plain,
    Named(&'static str),
    Lookup,
}

/// The names a writer actually types in a fence, mapped to what syntect calls
/// them; plain-text tags pick nothing; anything else is looked up.
pub open spec fn syntax_name(language: Seq<char>) -> Option<Seq<char>> {
    if language == "rust"@ || language == "rs"@ {
        Some("Rust"@)
    } else if language == "toml"@ {
        Some("TOML"@)
    } else if language == "yaml"@ || language == "yml"@ {
        Some("YAML"@)
    } else if language == "json"@ {
        Some("JSON"@)
    } else if language == "sql"@ {
        Some("SQL"@)
    } else if language == "sh"@ || language == "bash"@ || language == "shell"@ || language
        == "console"@ || language == "zsh"@ {
        Some("Bourne Again Shell (bash)"@)
    } else if language == "html"@ {
        Some("HTML"@)
    } else if language == "css"@ {
        Some("CSS"@)
    } else if language == "js"@ || language == "javascript"@ {
        Some("JavaScript"@)
    } else if language == "xml"@ {
        Some("XML"@)
    } else if language == "diff"@ || language == "patch"@ {
        Some("Diff"@)
    } else {
        None
    }
}

/// A tag that names no language: the block is plain text.
pub open spec fn is_plain(language: Seq<char>) -> bool {
    language == ""@ || language == "text"@ || language == "txt"@ || language == "plain"@
        || language == "output"@ || language == "env"@
}

/// The fence tags a writer types, each with the syntax it names.
pub open spec fn fence_tags() -> Seq<(Seq<char>, Seq<char>)> {
    seq![
        ("rust"@, "Rust"@),
        ("rs"@, "Rust"@),
        ("toml"@, "TOML"@),
        ("yaml"@, "YAML"@),
        ("yml"@, "YAML"@),
        ("json"@, "JSON"@),
        ("sql"@, "SQL"@),
        ("sh"@, "Bourne Again Shell (bash)"@),
        ("bash"@, "Bourne Again Shell (bash)"@),
        ("shell"@, "Bourne Again Shell (bash)"@),
        ("console"@, "Bourne Again Shell (bash)"@),
        ("zsh"@, "Bourne Again Shell (bash)"@),
        ("html"@, "HTML"@),
        ("css"@, "CSS"@),
        ("js"@, "JavaScript"@),
        ("javascript"@, "JavaScript"@),
        ("xml"@, "XML"@),
        ("diff"@, "Diff"@),
        ("patch"@, "Diff"@),
    ]
}

/// A fence tag names a syntax exactly when it is in the table of tags, and
/// then it names that tag's syntax: `console`, like `sh`, `bash`, `shell` and
/// `zsh`, is lexed as the Bourne Again Shell.
pub proof fn law_fence_tags_name_their_syntax(language: Seq<char>)
    ensures
        forall|i: int|
            0 <= i < fence_tags().len() ==> syntax_name((#[trigger] fence_tags()[i]).0) == Some(
                fence_tags()[i].1,
            ),
        syntax_name(language) matches Some(n) ==> exists|i: int|
            0 <= i < fence_tags().len() && #[trigger] fence_tags()[i] == (language, n),
{
    reveal_strlit("rust");
    reveal_strlit("rs");
    reveal_strlit("toml");
    reveal_strlit("yaml");
    reveal_strlit("yml");
    reveal_strlit("json");
    reveal_strlit("sql");
    reveal_strlit("sh");
    reveal_strlit("bash");
    reveal_strlit("shell");
    reveal_strlit("console");
    reveal_strlit("zsh");
    reveal_strlit("html");
    reveal_strlit("css");
    reveal_strlit("js");
    reveal_strlit("javascript");
    reveal_strlit("xml");
    reveal_strlit("diff");
    reveal_strlit("patch");
    // Tags of different lengths differ; those of one length differ at a character.
    assert("rust"@.len() == 4);
    assert("rs"@.len() == 2);
    assert("toml"@.len() == 4);
    assert("yaml"@.len() == 4);
    assert("yml"@.len() == 3);
    assert("json"@.len() == 4);
    assert("sql"@.len() == 3);
    assert("sh"@.len() == 2);
    assert("bash"@.len() == 4);
    assert("shell"@.len() == 5);
    assert("console"@.len() == 7);
    assert("zsh"@.len() == 3);
    assert("html"@.len() == 4);
    assert("css"@.len() == 3);
    assert("js"@.len() == 2);
    assert("javascript"@.len() == 10);
    assert("xml"@.len() == 3);
    assert("diff"@.len() == 4);
    assert("patch"@.len() == 5);
    assert("rust"@[0] != "toml"@[0]);
    assert("rust"@[0] != "yaml"@[0]);
    assert("rust"@[0] != "json"@[0]);
    assert("rust"@[0] != "bash"@[0]);
    assert("rust"@[0] != "html"@[0]);
    assert("rust"@[0] != "diff"@[0]);
    assert("rs"@[0] != "sh"@[0]);
    assert("rs"@[0] != "js"@[0]);
    assert("toml"@[0] != "yaml"@[0]);
    assert("toml"@[0] != "json"@[0]);
    assert("toml"@[0] != "bash"@[0]);
    assert("toml"@[0] != "html"@[0]);
    assert("toml"@[0] != "diff"@[0]);
    assert("yaml"@[0] != "json"@[0]);
    assert("yaml"@[0] != "bash"@[0]);
    assert("yaml"@[0] != "html"@[0]);
    assert("yaml"@[0] != "diff"@[0]);
    assert("yml"@[0] != "sql"@[0]);
    assert("yml"@[0] != "zsh"@[0]);
    assert("yml"@[0] != "css"@[0]);
    assert("yml"@[0] != "xml"@[0]);
    assert("json"@[0] != "bash"@[0]);
    assert("json"@[0] != "html"@[0]);
    assert("json"@[0] != "diff"@[0]);
    assert("sql"@[0] != "zsh"@[0]);
    assert("sql"@[0] != "css"@[0]);
    assert("sql"@[0] != "xml"@[0]);
    assert("sh"@[0] != "js"@[0]);
    assert("bash"@[0] != "html"@[0]);
    assert("bash"@[0] != "diff"@[0]);
    assert("shell"@[0] != "patch"@[0]);
    assert("zsh"@[0] != "css"@[0]);
    assert("zsh"@[0] != "xml"@[0]);
    assert("html"@[0] != "diff"@[0]);
    assert("css"@[0] != "xml"@[0]);
    let t = fence_tags();
    assert forall|i: int| 0 <= i < t.len() implies syntax_name((#[trigger] t[i]).0) == Some(t[i].1) by {
        // Entry by entry, each checked against its own text.
        if i == 0 {} else if i == 1 {} else if i == 2 {} else if i == 3 {} else if i == 4 {} else if i == 5 {} else
        if i == 6 {} else if i == 7 {} else if i == 8 {} else if i == 9 {} else if i == 10 {} else if i == 11 {} else
        if i == 12 {} else if i == 13 {} else if i == 14 {} else if i == 15 {} else if i == 16 {} else if i == 17 {} else
        if i == 18 {}
    }
    if let Some(n) = syntax_name(language) {
        if language == "rust"@ {
            assert(t[0] == (language, n));
        } else if language == "rs"@ {
            assert(t[1] == (language, n));
        } else if language == "toml"@ {
            assert(t[2] == (language, n));
        } else if language == "yaml"@ {
            assert(t[3] == (language, n));
        } else if language == "yml"@ {
            assert(t[4] == (language, n));
        } else if language == "json"@ {
            assert(t[5] == (language, n));
        } else if language == "sql"@ {
            assert(t[6] == (language, n));
        } else if language == "sh"@ {
            assert(t[7] == (language, n));
        } else if language == "bash"@ {
            assert(t[8] == (language, n));
        } else if language == "shell"@ {
            assert(t[9] == (language, n));
        } else if language == "console"@ {
            assert(t[10] == (language, n));
        } else if language == "zsh"@ {
            assert(t[11] == (language, n));
        } else if language == "html"@ {
            assert(t[12] == (language, n));
        } else if language == "css"@ {
            assert(t[13] == (language, n));
        } else if language == "js"@ {
            assert(t[14] == (language, n));
        } else if language == "javascript"@ {
            assert(t[15] == (language, n));
        } else if language == "xml"@ {
            assert(t[16] == (language, n));
        } else if language == "diff"@ {
            assert(t[17] == (language, n));
        } else if language == "patch"@ {
            assert(t[18] == (language, n));
        }
    }
}

/// The tags that mark a block as plain text.
pub open spec fn plain_tags() -> Seq<Seq<char>> {
    seq![""@, "text"@, "txt"@, "plain"@, "output"@, "env"@]
}

/// What a code block's body becomes, by its tag: for each tag of the table,
/// the tokens of the syntax it names, or the escaped text where the lexer
/// refuses it; for each plain tag, and only for those, the escaped text.
pub proof fn law_code_blocks_by_tag(language: Seq<char>, body: Seq<char>)
    ensures
        forall|i: int|
            0 <= i < fence_tags().len() ==> code_body((#[trigger] fence_tags()[i]).0, body) == match lexed_by_name(
                class_prefix(),
                fence_tags()[i].1,
                body,
            ) {
                Some(h) => h,
                None => escape_spec(body),
            },
        forall|i: int| 0 <= i < plain_tags().len() ==> code_body(#[trigger] plain_tags()[i], body) == escape_spec(body),
        is_plain(language) <==> plain_tags().contains(language),
{
    law_fence_tags_name_their_syntax(language);
    reveal_strlit("rust");
    reveal_strlit("rs");
    reveal_strlit("toml");
    reveal_strlit("yaml");
    reveal_strlit("yml");
    reveal_strlit("json");
    reveal_strlit("sql");
    reveal_strlit("sh");
    reveal_strlit("bash");
    reveal_strlit("shell");
    reveal_strlit("console");
    reveal_strlit("zsh");
    reveal_strlit("html");
    reveal_strlit("css");
    reveal_strlit("js");
    reveal_strlit("javascript");
    reveal_strlit("xml");
    reveal_strlit("diff");
    reveal_strlit("patch");
    reveal_strlit("");
    reveal_strlit("text");
    reveal_strlit("txt");
    reveal_strlit("plain");
    reveal_strlit("output");
    reveal_strlit("env");
    assert("rust"@.len() == 4);
    assert("rs"@.len() == 2);
    assert("toml"@.len() == 4);
    assert("yaml"@.len() == 4);
    assert("yml"@.len() == 3);
    assert("json"@.len() == 4);
    assert("sql"@.len() == 3);
    assert("sh"@.len() == 2);
    assert("bash"@.len() == 4);
    assert("shell"@.len() == 5);
    assert("console"@.len() == 7);
    assert("zsh"@.len() == 3);
    assert("html"@.len() == 4);
    assert("css"@.len() == 3);
    assert("js"@.len() == 2);
    assert("javascript"@.len() == 10);
    assert("xml"@.len() == 3);
    assert("diff"@.len() == 4);
    assert("patch"@.len() == 5);
    assert(""@.len() == 0);
    assert("text"@.len() == 4);
    assert("txt"@.len() == 3);
    assert("plain"@.len() == 5);
    assert("output"@.len() == 6);
    assert("env"@.len() == 3);
    assert("rust"@[0] != "text"@[0]);
    assert("toml"@[1] != "text"@[1]);
    assert("yaml"@[0] != "text"@[0]);
    assert("yml"@[0] != "txt"@[0]);
    assert("yml"@[0] != "env"@[0]);
    assert("json"@[0] != "text"@[0]);
    assert("sql"@[0] != "txt"@[0]);
    assert("sql"@[0] != "env"@[0]);
    assert("bash"@[0] != "text"@[0]);
    assert("shell"@[0] != "plain"@[0]);
    assert("zsh"@[0] != "txt"@[0]);
    assert("zsh"@[0] != "env"@[0]);
    assert("html"@[0] != "text"@[0]);
    assert("css"@[0] != "txt"@[0]);
    assert("css"@[0] != "env"@[0]);
    assert("xml"@[0] != "txt"@[0]);
    assert("xml"@[0] != "env"@[0]);
    assert("diff"@[0] != "text"@[0]);
    assert("patch"@[1] != "plain"@[1]);
    let t = fence_tags();
    let p = plain_tags();
    assert forall|i: int| 0 <= i < t.len() implies !is_plain((#[trigger] t[i]).0) by {
        // Entry by entry, each checked against its own text.
        if i == 0 {} else if i == 1 {} else if i == 2 {} else if i == 3 {} else if i == 4 {} else if i == 5 {} else
        if i == 6 {} else if i == 7 {} else if i == 8 {} else if i == 9 {} else if i == 10 {} else if i == 11 {} else
        if i == 12 {} else if i == 13 {} else if i == 14 {} else if i == 15 {} else if i == 16 {} else if i == 17 {} else
        if i == 18 {}
    }
    assert forall|i: int| 0 <= i < p.len() implies is_plain(#[trigger] p[i]) by {
        if i == 0 {} else if i == 1 {} else if i == 2 {} else if i == 3 {} else if i == 4 {} else if i == 5 {}
    }
    if is_plain(language) {
        if language == ""@ {
            assert(p[0] == language);
        } else if language == "text"@ {
            assert(p[1] == language);
        } else if language == "txt"@ {
            assert(p[2] == language);
        } else if language == "plain"@ {
            assert(p[3] == language);
        } else if language == "output"@ {
            assert(p[4] == language);
        } else if language == "env"@ {
            assert(p[5] == language);
        }
    }
}

fn is_one_of(v: &Vec<char>, a: &str) -> (b: bool)
    ensures
        b == (v@ == a@),
{
    eq_vec(v, &chars_of(a))
}

fn choose_syntax(language: &Vec<char>) -> (c: SyntaxChoice)
    ensures
        c is Plain <==> is_plain(language@),
        c matches SyntaxChoice::Named(n) ==> syntax_name(language@) == Some(n@),
        c is Lookup ==> syntax_name(language@) is None,
{
    let l = language;
    if is_one_of(l, "") || is_one_of(l, "text") || is_one_of(l, "txt") || is_one_of(l, "plain")
        || is_one_of(l, "output") || is_one_of(l, "env") {
        SyntaxChoice::Plain
    } else if is_one_of(l, "rust") || is_one_of(l, "rs") {
        SyntaxChoice::Named("Rust")
    } else if is_one_of(l, "toml") {
        SyntaxChoice::Named("TOML")
    } else if is_one_of(l, "yaml") || is_one_of(l, "yml") {
        SyntaxChoice::Named("YAML")
    } else if is_one_of(l, "json") {
        SyntaxChoice::Named("JSON")
    } else if is_one_of(l, "sql") {
        SyntaxChoice::Named("SQL")
    } else if is_one_of(l, "sh") || is_one_of(l, "bash") || is_one_of(l, "shell") || is_one_of(
        l,
        "console",
    ) || is_one_of(l, "zsh") {
        SyntaxChoice::Named("Bourne Again Shell (bash)")
    } else if is_one_of(l, "html") {
        SyntaxChoice::Named("HTML")
    } else if is_one_of(l, "css") {
        SyntaxChoice::Named("CSS")
    } else if is_one_of(l, "js") || is_one_of(l, "javascript") {
        SyntaxChoice::Named("JavaScript")
    } else if is_one_of(l, "xml") {
        SyntaxChoice::Named("XML")
    } else if is_one_of(l, "diff") || is_one_of(l, "patch") {
        SyntaxChoice::Named("Diff")
    } else {
        SyntaxChoice::Lookup
    }
}

// ───────────────────────── the block ─────────────────────────

/// The fence's language: its first word, lower-cased.
pub open spec fn fence_language(lang: Seq<char>) -> Seq<char> {
    let w = words(lang);
    if w.len() > 0 {
        lower(w[0])
    } else {
        Seq::empty()
    }
}

/// The markup around a code block's body.
///
/// `tabindex="0"` because the block scrolls sideways when a line is longer
/// than the column, and a scrollable region that cannot take focus cannot be
/// scrolled without a mouse. `aria-label` so the stop in the tab order has a
/// name. Deliberately not `role="region"`: a mirrored tutorial has more than a
/// hundred code blocks, and a hundred landmarks is not a landmark list.
pub open spec fn figure_spec(language: Seq<char>, body_html: Seq<char>) -> Seq<char> {
    let caption = if language.len() > 0 {
        "<figcaption class=\"code__lang\">"@ + escape_spec(language) + "</figcaption>"@
    } else {
        Seq::empty()
    };
    let name = if language.len() > 0 {
        language
    } else {
        "Example"@
    };
    let class = if language.len() > 0 {
        " class=\"language-"@ + escape_spec(language) + "\""@
    } else {
        Seq::empty()
    };
    "<figure class=\"code\">"@ + caption + "<pre class=\"code__body\" tabindex=\"0\" aria-label=\""@
        + escape_spec(name) + " code\"><code"@ + class + ">"@ + body_html
        + "</code></pre></figure>"@
}

/// The class prefix, so the site's token classes cannot collide with anything
/// else on the page.
pub open spec fn class_prefix() -> Seq<char> {
    "tok-"@
}

/// The body of a code block: the escaped text for a plain tag; else the
/// lexer's token spans for the syntax the tag names, or the escaped text when
/// there is no such syntax or the lexer refuses a line.
pub open spec fn code_body(language: Seq<char>, body: Seq<char>) -> Seq<char> {
    if is_plain(language) {
        escape_spec(body)
    } else {
        let lexed = match syntax_name(language) {
            Some(name) => lexed_by_name(class_prefix(), name, body),
            None => lexed_by_tag(class_prefix(), language, body),
        };
        match lexed {
            Some(h) => h,
            None => escape_spec(body),
        }
    }
}

/// The body of a code block: escaped text, or the lexer's token spans.
fn tokens(language: &Vec<char>, body: &str) -> (out: String)
    ensures
        out@ == code_body(language@, body@),
        spans_only(out@),
{
    proof {
        reveal_strlit("tok-");
        law_escape_is_inert(body@);
    }
    let lexed = match choose_syntax(language) {
        SyntaxChoice::Plain => None,
        SyntaxChoice::Named(name) => lex_by_name("tok-", name, body),
        SyntaxChoice::Lookup => lex_by_tag("tok-", string_of(language).as_str(), body),
    };
    match lexed {
        Some(h) => h,
        None => escaped(body),
    }
}

/// The markup of a code block around already-rendered body HTML.
pub fn figure(language: &Vec<char>, body_html: &str) -> (html: String)
    ensures
        html@ == figure_spec(language@, body_html@),
{
    let lang_text = string_of(language);
    let mut html = String::new();
    push_str(&mut html, "<figure class=\"code\">");
    if language.len() > 0 {
        push_str(&mut html, "<figcaption class=\"code__lang\">");
        push_escaped(&mut html, lang_text.as_str());
        push_str(&mut html, "</figcaption>");
    }
    push_str(&mut html, "<pre class=\"code__body\" tabindex=\"0\" aria-label=\"");
    if language.len() > 0 {
        push_escaped(&mut html, lang_text.as_str());
    } else {
        push_escaped(&mut html, "Example");
    }
    push_str(&mut html, " code\"><code");
    if language.len() > 0 {
        push_str(&mut html, " class=\"language-");
        push_escaped(&mut html, lang_text.as_str());
        push_str(&mut html, "\"");
    }
    push_str(&mut html, ">");
    push_str(&mut html, body_html);
    push_str(&mut html, "</code></pre></figure>");
    html
}

/// Render one fenced code block.
///
/// An unknown or absent language is emitted as escaped text in the same markup,
/// so a fence the site cannot lex still looks like code.
pub fn block(lang: &str, body: &str) -> (html: String)
    ensures
        html@ == figure_spec(fence_language(lang@), code_body(fence_language(lang@), body@)),
        spans_only(code_body(fence_language(lang@), body@)),
{
    let ws = words_exec(&chars_of(lang));
    let language = if ws.len() > 0 {
        lower_exec(&ws[0])
    } else {
        Vec::new()
    };
    assert(language@ == fence_language(lang@));
    let body_html = tokens(&language, body);
    figure(&language, body_html.as_str())
}

/// Escape text for HTML.
pub fn escape(raw: &str) -> (out: String)
    ensures
        out@ == escape_spec(raw@),
{
    escaped(raw)
}

} // verus!
