use trovato_site::docs::all;
use trovato_site::json::{as_i64, as_str, get, Json};
use trovato_site::mirror::{
    alias_file_name, alias_id, alias_record, alias_yaml, count_links, docs_index_query,
    index_alias, index_alias_file_name, index_alias_id, index_alias_record, item_file_name,
    item_id, item_record, item_yaml, neighbours, order_of,
};

const HEADER: &str = "# Generated by `cargo run -p tools --bin docs-import`. Do not edit.\n";

fn uuid_of(text: &str) -> [u8; 16] {
    *uuid::Uuid::parse_str(text).unwrap().as_bytes()
}

#[test]
fn ids_are_name_based_in_the_site_namespace() {
    assert_eq!(item_id("readme"), uuid_of("f31a0f5e-a47f-59b1-99d6-7beef4ca5c59"));
    assert_eq!(alias_id("readme"), uuid_of("b257a0cf-960e-54b9-96ef-a332fc78be56"));
    assert_eq!(index_alias_id(), uuid_of("dab91762-d88e-54b2-8e0b-6a4acb6674c4"));
}

#[test]
fn ids_are_the_same_on_every_run() {
    assert_eq!(item_id("install"), item_id("install"));
    assert_ne!(item_id("install"), item_id("readme"));
    assert_ne!(item_id("readme"), alias_id("readme"));
}

#[test]
fn files_are_named_by_the_id_inside_them() {
    assert_eq!(item_file_name("readme"), "item.f31a0f5e-a47f-59b1-99d6-7beef4ca5c59.yml");
    assert_eq!(
        alias_file_name("readme"),
        "url_alias.b257a0cf-960e-54b9-96ef-a332fc78be56.yml"
    );
    assert_eq!(
        index_alias_file_name(),
        "url_alias.dab91762-d88e-54b2-8e0b-6a4acb6674c4.yml"
    );
}

#[test]
fn the_weight_is_ten_times_the_reading_position() {
    assert_eq!(order_of("readme"), 0);
    assert_eq!(order_of("install"), 10);
    assert_eq!(order_of("known-issues"), 350);
}

#[test]
fn neighbours_are_the_documents_either_side() {
    let ordered = all();
    let (p, n) = neighbours(&ordered, 0);
    assert!(p.is_none());
    assert_eq!(n.unwrap().slug, "install");
    let (p, n) = neighbours(&ordered, 1);
    assert_eq!(p.unwrap().slug, "readme");
    assert_eq!(n.unwrap().slug, "building-your-first-site");
    let (p, n) = neighbours(&ordered, ordered.len() - 1);
    assert_eq!(p.unwrap().slug, "code-of-conduct");
    assert!(n.is_none());
}

fn text<'a>(j: &'a Json, key: &str) -> &'a str {
    as_str(get(j, key).unwrap_or_else(|| panic!("{key} is present"))).unwrap()
}

#[test]
fn an_item_record_carries_the_page_and_its_place() {
    let ordered = all();
    let doc = ordered[1];
    let item = item_record(&doc, "<p>x</p>", "x", Some(ordered[0]), Some(ordered[2]));
    assert_eq!(text(&item, "type"), "docs");
    assert_eq!(text(&item, "title"), "Installing Trovato");
    assert_eq!(text(&item, "language"), "en");
    assert_eq!(as_i64(get(&item, "status").unwrap()), Some(1));
    assert_eq!(as_i64(get(&item, "created").unwrap()), Some(1_785_542_400));
    assert_eq!(as_i64(get(&item, "changed").unwrap()), Some(1_785_542_400));
    let fields = get(&item, "fields").unwrap();
    assert_eq!(text(fields, "html"), "<p>x</p>");
    assert_eq!(text(fields, "markdown"), "x");
    assert_eq!(text(fields, "source_path"), "INSTALL.md");
    assert_eq!(
        text(fields, "edit_url"),
        "https://github.com/jeremyandrews/trovato/blob/v0.101.0/INSTALL.md"
    );
    assert_eq!(text(fields, "raw_url"), "/learn/raw/install");
    assert_eq!(text(fields, "section"), "Start here");
    assert_eq!(as_i64(get(fields, "weight").unwrap()), Some(10));
    assert_eq!(text(fields, "prev_path"), "/learn/readme");
    assert_eq!(text(fields, "prev_title"), "Read me first");
    assert_eq!(text(fields, "next_path"), "/learn/building-your-first-site");
}

#[test]
fn the_first_document_has_no_previous_page() {
    let ordered = all();
    let item = item_record(&ordered[0], "", "", None, Some(ordered[1]));
    let fields = get(&item, "fields").unwrap();
    assert!(get(fields, "prev_path").is_none());
    assert!(get(fields, "prev_title").is_none());
    assert_eq!(text(fields, "next_title"), "Installing Trovato");
}

#[test]
fn an_item_id_is_the_text_of_its_uuid() {
    let ordered = all();
    let item = item_record(&ordered[0], "", "", None, None);
    assert_eq!(text(&item, "id"), "f31a0f5e-a47f-59b1-99d6-7beef4ca5c59");
}

#[test]
fn an_alias_points_the_learn_path_at_the_item() {
    let ordered = all();
    let alias = alias_record(&ordered[0]);
    assert_eq!(text(&alias, "id"), "b257a0cf-960e-54b9-96ef-a332fc78be56");
    assert_eq!(text(&alias, "source"), "/item/f31a0f5e-a47f-59b1-99d6-7beef4ca5c59");
    assert_eq!(text(&alias, "alias"), "/learn/readme");
    assert_eq!(text(&alias, "stage_id"), "0193a5a0-0000-7000-8000-000000000001");
}

#[test]
fn the_index_alias_points_learn_at_the_query() {
    let alias = index_alias_record();
    assert_eq!(text(&alias, "source"), "/gather/trovato_site.docs_index");
    assert_eq!(text(&alias, "alias"), "/learn");
    assert_eq!(text(&alias, "id"), "dab91762-d88e-54b2-8e0b-6a4acb6674c4");
}

#[test]
fn files_start_with_the_generated_header() {
    let ordered = all();
    let item = item_yaml(&ordered[0], "<p>x</p>", "x", None, Some(ordered[1]));
    assert!(item.starts_with(&format!(
        "{HEADER}# Mirrored from jeremyandrews/trovato README.md at v0.101.0.\n"
    )));
    assert!(alias_yaml(&ordered[0]).starts_with(HEADER));
    assert!(index_alias().starts_with(HEADER));
    assert!(docs_index_query().starts_with(HEADER));
}

#[test]
fn files_hold_their_records_as_yaml_with_sorted_keys() {
    let ordered = all();
    assert_eq!(
        alias_yaml(&ordered[0]),
        format!(
            "{HEADER}alias: /learn/readme\ncreated: 1785542400\nid: b257a0cf-960e-54b9-96ef-a332fc78be56\n\
             language: en\nsource: /item/f31a0f5e-a47f-59b1-99d6-7beef4ca5c59\n\
             stage_id: \"0193a5a0-0000-7000-8000-000000000001\""
        )
    );
    let item = item_yaml(&ordered[1], "<p>x</p>", "x", Some(ordered[0]), None);
    assert!(item.contains("title: Installing Trovato\n"), "{item}");
    assert!(item.contains("  weight: 10\n"), "{item}");
    assert!(item.ends_with("\ntype: docs"), "{item}");
}

#[test]
fn the_index_query_sorts_by_weight_and_names_the_tag() {
    let q = docs_index_query();
    assert!(q.contains("query_id: trovato_site.docs_index\n"));
    assert!(q.contains("field: fields.weight"));
    assert!(q.contains("at v0.101.0."));
    assert!(q.contains("  canonical_url: /learn\n"));
    assert!(q.ends_with("plugin: trovato_site\n"));
}

#[test]
fn links_are_counted_as_rewritten_or_left_on_github() {
    let links: Vec<String> = ["../../INSTALL.md", "#top", "src/main.rs", "README.md#x"]
        .iter()
        .map(|s| s.to_string())
        .collect();
    assert_eq!(count_links(&links), (2, 1));
}

#[test]
fn an_id_is_written_as_the_uuid_crate_writes_it() {
    for slug in ["readme", "install", "known-issues", "design-ai", "tutorial-09-ai-and-search", ""] {
        let id = item_id(slug);
        let text = uuid::Uuid::from_bytes(id).to_string();
        assert_eq!(item_file_name(slug), format!("item.{text}.yml"), "{slug}");
    }
}
