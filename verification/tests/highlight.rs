use trovato_site::highlight::{block, escape};

#[test]
fn rust_is_tokenised() {
    let html = block("rust", "fn main() { let x = 1; }\n");
    assert!(html.contains("class=\"language-rust\""));
    assert!(html.contains("tok-"), "no token spans in: {html}");
    assert!(html.contains("main"));
}

#[test]
fn an_unknown_language_still_renders_as_code() {
    let html = block("brainfuck-9000", "++++.\n");
    assert!(html.contains("<pre class=\"code__body\""));
    assert!(html.contains("++++."));
}

#[test]
fn a_code_block_can_be_reached_and_named_by_a_keyboard() {
    let html = block("rust", "fn f() {}\n");
    assert!(html.contains("tabindex=\"0\""));
    assert!(html.contains("aria-label=\"rust code\""));
    assert!(!html.contains("role=\"region\""));
    assert!(block("", "output\n").contains("aria-label=\"Example code\""));
}

#[test]
fn a_fence_with_no_language_has_no_caption() {
    let html = block("", "some output\n");
    assert!(!html.contains("code__lang"));
    assert!(html.contains("some output"));
}

#[test]
fn markup_in_a_code_block_cannot_escape_it() {
    let html = block("html", "<script>alert(1)</script>\n");
    assert!(!html.contains("<script"), "{html}");
    assert!(!html.contains("script>"), "{html}");
    assert!(html.contains("&lt;"), "{html}");
    assert!(html.contains("&gt;"), "{html}");
    assert!(html.contains("alert"), "{html}");
}

#[test]
fn markup_in_an_unlexed_block_cannot_escape_it_either() {
    let html = block("nothing-real", "<script>alert(1)</script>\n");
    assert!(!html.contains("<script>"));
    assert!(html.contains("&lt;script&gt;"));
}

#[test]
fn the_language_tag_cannot_inject_an_attribute() {
    let html = block("rust\" onload=\"evil()", "fn f() {}\n");
    assert!(!html.contains("onload"));
}

#[test]
fn a_plain_fence_is_exactly_the_figure_around_the_escaped_text() {
    assert_eq!(
        block("text", "a < b & c\n"),
        "<figure class=\"code\"><figcaption class=\"code__lang\">text</figcaption>\
         <pre class=\"code__body\" tabindex=\"0\" aria-label=\"text code\">\
         <code class=\"language-text\">a &lt; b &amp; c\n</code></pre></figure>"
    );
}

#[test]
fn only_the_first_word_of_the_fence_names_the_language_and_it_is_lower_cased() {
    let html = block("  TEXT title=\"x\"", "body\n");
    assert!(html.contains("aria-label=\"text code\""));
    assert!(html.contains("class=\"language-text\""));
    assert!(!html.contains("title"));
}

#[test]
fn a_fence_alias_picks_the_named_syntax() {
    let html = block("rs", "fn f() {}\n");
    assert!(html.contains("tok-"), "{html}");
    assert!(html.contains("class=\"language-rs\""));
}

#[test]
fn escape_replaces_all_five_characters() {
    assert_eq!(escape("<a href=\"x\">'&'</a>"), "&lt;a href=&quot;x&quot;&gt;&#39;&amp;&#39;&lt;/a&gt;");
    assert_eq!(escape("plain"), "plain");
    assert_eq!(escape(""), "");
}

#[test]
fn reading_the_entities_back_gives_the_text() {
    fn unescape(s: &str) -> String {
        s.replace("&lt;", "<")
            .replace("&gt;", ">")
            .replace("&quot;", "\"")
            .replace("&#39;", "'")
            .replace("&amp;", "&")
    }
    for text in ["<a href=\"x\">'&'</a>", "&amp; is written &amp;amp;", "plain", "", "&#39;&lt;"] {
        assert_eq!(unescape(&escape(text)), text);
    }
}
