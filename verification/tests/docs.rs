use trovato_site::docs::{all, docs, known_issues, Section};

#[test]
fn the_index_reads_in_manifest_order_with_known_issues_last() {
    let slugs: Vec<&str> = all().iter().map(|d| d.slug).collect();
    assert_eq!(slugs.len(), 36);
    assert_eq!(slugs[0], "readme");
    assert_eq!(slugs[1], "install");
    assert_eq!(slugs[4], "tutorial-01-hello-trovato");
    assert_eq!(slugs[13], "plugin-development");
    assert_eq!(slugs[18], "design-overview");
    assert_eq!(slugs[31], "coding-standards");
    assert_eq!(slugs[35], "known-issues");
}

#[test]
fn the_index_is_grouped_by_section_weight() {
    let weights: Vec<u32> = all().iter().map(|d| d.section.weight()).collect();
    assert!(weights.windows(2).all(|w| w[0] <= w[1]));
}

#[test]
fn the_manifest_holds_the_corpus_and_known_issues_is_separate() {
    let manifest = docs();
    assert_eq!(manifest.len(), 35);
    assert!(manifest.iter().all(|d| d.slug != "known-issues"));
    let k = known_issues();
    assert_eq!(k.source, "KNOWN-ISSUES.md");
    assert_eq!(k.section, Section::Project);
}

#[test]
fn sections_have_titles_blurbs_and_weights() {
    assert_eq!(Section::Start.title(), "Start here");
    assert_eq!(Section::Design.title(), "How it works");
    assert_eq!(Section::Start.weight(), 0);
    assert_eq!(Section::Project.weight(), 400);
    assert_eq!(
        Section::Start.blurb(),
        "Getting a site running and putting content in it."
    );
}

#[test]
fn no_two_documents_share_a_slug_a_source_or_a_file_name() {
    let docs = all();
    for (i, a) in docs.iter().enumerate() {
        for b in &docs[i + 1..] {
            assert_ne!(a.slug, b.slug);
            assert_ne!(a.source, b.source);
            assert_ne!(a.source.rsplit('/').next(), b.source.rsplit('/').next());
        }
    }
}
