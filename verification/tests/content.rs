//! Checks over the documentation content set that no single record can make on
//! its own, run over the items and aliases the mirror generates.

use std::collections::{HashMap, HashSet};

use trovato_site::docs::all;
use trovato_site::json::{as_str, get, Json};
use trovato_site::mirror::{alias_record, index_alias_record, item_record, neighbours};

struct Content {
    items: HashMap<String, String>,
    aliases: Vec<(String, String)>,
}

fn text(record: &Json, key: &str) -> String {
    get(record, key)
        .and_then(as_str)
        .unwrap_or_default()
        .to_string()
}

/// Every item and alias the mirror writes for the documentation.
fn content() -> Content {
    let mut items = HashMap::new();
    let mut aliases = Vec::new();
    let ordered = all();
    for (index, doc) in ordered.iter().enumerate() {
        let (previous, next) = neighbours(&ordered, index);
        let item = item_record(doc, "<p>rendered</p>", "source", previous, next);
        items.insert(text(&item, "id"), text(&item, "title"));
        let alias = alias_record(doc);
        aliases.push((text(&alias, "source"), text(&alias, "alias")));
    }
    let index_alias = index_alias_record();
    aliases.push((text(&index_alias, "source"), text(&index_alias, "alias")));
    Content { items, aliases }
}

#[test]
fn every_alias_points_at_something_that_exists() {
    let c = content();
    let mut broken = Vec::new();
    for (source, alias) in &c.aliases {
        if let Some(id) = source.strip_prefix("/item/") {
            if !c.items.contains_key(id) {
                broken.push(format!("{alias} points at /item/{id}, which no record declares"));
            }
        }
    }
    assert!(broken.is_empty(), "\n{}\n", broken.join("\n"));
}

#[test]
fn no_item_is_orphaned() {
    let c = content();
    let aliased: HashSet<&str> = c
        .aliases
        .iter()
        .filter_map(|(source, _)| source.strip_prefix("/item/"))
        .collect();

    let front_page = "0193b000-0000-7000-8000-000000000001";
    let orphans: Vec<&String> = c
        .items
        .iter()
        .filter(|(id, _)| id.as_str() != front_page && !aliased.contains(id.as_str()))
        .map(|(_, title)| title)
        .collect();

    assert!(orphans.is_empty(), "items with no alias: {orphans:?}");
}

#[test]
fn no_two_items_claim_the_same_title() {
    let c = content();
    let mut by_title: HashMap<&str, usize> = HashMap::new();
    for title in c.items.values() {
        *by_title.entry(title.as_str()).or_default() += 1;
    }
    let duplicates: Vec<&str> = by_title
        .iter()
        .filter(|(_, n)| **n > 1)
        .map(|(t, _)| *t)
        .collect();
    assert!(duplicates.is_empty(), "duplicate titles: {duplicates:?}");
    assert_eq!(c.items.len(), all().len(), "two documents share an item id");
}

#[test]
fn no_two_aliases_claim_the_same_path() {
    let c = content();
    let mut seen: HashMap<&str, usize> = HashMap::new();
    for (_, alias) in &c.aliases {
        *seen.entry(alias.as_str()).or_default() += 1;
    }
    let duplicates: Vec<&str> = seen
        .iter()
        .filter(|(_, n)| **n > 1)
        .map(|(a, _)| *a)
        .collect();
    assert!(duplicates.is_empty(), "duplicate aliases: {duplicates:?}");
}
