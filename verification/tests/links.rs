use trovato_site::links::{edit_url, normalize, raw_url, repo, resolve_link, tag};

#[test]
fn the_source_is_the_public_repository_at_the_pinned_tag() {
    assert_eq!(repo(), "jeremyandrews/trovato");
    assert_eq!(tag(), "v0.101.0");
    assert_eq!(
        raw_url("README.md"),
        "https://raw.githubusercontent.com/jeremyandrews/trovato/v0.101.0/README.md"
    );
    assert_eq!(
        edit_url("docs/design/Overview.md"),
        "https://github.com/jeremyandrews/trovato/blob/v0.101.0/docs/design/Overview.md"
    );
}

#[test]
fn anchors_and_external_links_are_left_alone() {
    assert_eq!(resolve_link("#installing"), None);
    assert_eq!(resolve_link("https://example.org/x.md"), None);
    assert_eq!(resolve_link("mailto:someone@example.org"), None);
}

#[test]
fn a_link_from_deep_in_the_tutorial_lands_on_the_mirrored_page() {
    assert_eq!(resolve_link("../../INSTALL.md"), Some("/learn/install".to_string()));
}

#[test]
fn a_link_written_from_docs_lands_on_the_mirrored_page() {
    assert_eq!(
        resolve_link("design/Overview.md"),
        Some("/learn/design-overview".to_string())
    );
}

#[test]
fn a_fragment_is_kept() {
    assert_eq!(
        resolve_link("README.md#quick-start"),
        Some("/learn/readme#quick-start".to_string())
    );
}

#[test]
fn a_sibling_link_is_found_by_its_file_name() {
    assert_eq!(
        resolve_link("./part-02-ritrovo-importer.md#setup"),
        Some("/learn/tutorial-02-importer#setup".to_string())
    );
}

#[test]
fn anything_else_in_the_repository_goes_to_github() {
    assert_eq!(
        resolve_link("../crates/kernel/src/lib.rs"),
        Some(
            "https://github.com/jeremyandrews/trovato/blob/v0.101.0/crates/kernel/src/lib.rs"
                .to_string()
        )
    );
    assert_eq!(
        resolve_link("docs/unknown.md"),
        Some("https://github.com/jeremyandrews/trovato/blob/v0.101.0/docs/unknown.md".to_string())
    );
}

#[test]
fn normalize_tries_each_spelling_in_turn() {
    assert_eq!(normalize("./INSTALL.md"), "INSTALL.md");
    assert_eq!(normalize("plugin-queue.md"), "docs/plugin-queue.md");
    assert_eq!(normalize("../../README.md"), "README.md");
    assert_eq!(normalize("../../../ROADMAP.md"), "ROADMAP.md");
    assert_eq!(normalize("../other/thing.txt"), "other/thing.txt");
}

#[test]
fn normalizing_twice_changes_nothing() {
    for link in [
        "./INSTALL.md",
        "plugin-queue.md",
        "../../README.md",
        "../../../ROADMAP.md",
        "../other/thing.txt",
        "design/Overview.md",
        "../tutorial/part-02-ritrovo-importer.md",
        "nowhere/missing.md",
        "",
    ] {
        let once = normalize(link);
        assert_eq!(normalize(&once), once, "{link}");
    }
}
