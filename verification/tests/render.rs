use trovato_site::render::render;

fn rewrite(link: &str) -> Option<String> {
    trovato_site::links::resolve_link(link)
}

#[test]
fn a_paragraph_renders_as_html() {
    let r = render("Hello *world*.\n", &rewrite);
    assert_eq!(r.html, "<p>Hello <em>world</em>.</p>\n");
    assert!(r.links.is_empty());
}

#[test]
fn links_are_collected_as_written_and_rewritten_in_the_html() {
    let r = render("See [install](../../INSTALL.md) and [x](https://x.org).\n", &rewrite);
    assert_eq!(r.links, vec!["../../INSTALL.md".to_string(), "https://x.org".to_string()]);
    assert!(r.html.contains("href=\"/learn/install\""), "{}", r.html);
    assert!(r.html.contains("href=\"https://x.org\""), "{}", r.html);
}

#[test]
fn a_fence_is_handed_to_the_highlighter() {
    let r = render("```text\na < b\n```\n", &rewrite);
    assert_eq!(
        r.html,
        trovato_site::highlight::block("text", "a < b\n")
    );
}

#[test]
fn an_indented_block_is_a_figure_without_a_language() {
    let r = render("    code here\n", &rewrite);
    assert!(r.html.contains("aria-label=\"Example code\""), "{}", r.html);
    assert!(r.html.contains("code here"));
}

#[test]
fn tables_are_switched_on() {
    let r = render("| a | b |\n|---|---|\n| 1 | 2 |\n", &rewrite);
    assert!(r.html.contains("<table>"), "{}", r.html);
}

#[test]
fn a_link_title_is_kept_when_the_destination_is_rewritten() {
    let r = render("[guide](README.md \"The guide\")\n", &rewrite);
    assert!(
        r.html.contains("<a href=\"/learn/readme\" title=\"The guide\">guide</a>"),
        "{}",
        r.html
    );
}

#[test]
fn the_resolver_decides_every_destination() {
    let r = render("[a](x) [b](y)\n", &|link: &str| Some(format!("/to/{link}")));
    assert_eq!(r.links, vec!["x".to_string(), "y".to_string()]);
    assert!(r.html.contains("href=\"/to/x\""));
    assert!(r.html.contains("href=\"/to/y\""));
}

#[test]
fn text_between_blocks_is_written_as_it_is() {
    let r = render("# Title\n\nOne & two.\n", &rewrite);
    assert_eq!(r.html, "<h1>Title</h1>\n<p>One &amp; two.</p>\n");
}
