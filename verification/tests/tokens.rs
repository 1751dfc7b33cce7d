use trovato_site::color::{Level, Rgb};
use trovato_site::tokens::{pairings, tokens_for_scheme};

const CSS: &str = ":root {\n\
  --surface: #FAF5EF;\n\
  --text: #221B16;\n\
  --accent: #B14B2E;\n\
  /* @contrast --text on --surface AA */\n\
  --font: system-ui;\n\
}\n\
@media (prefers-color-scheme: dark) {\n\
  :root {\n\
    --surface: #221B16;\n\
    --text: #FAF5EF;\n\
    /* @contrast --text on --surface aa-large */\n\
  }\n\
}\n\
.after {\n\
  --late: #fff;\n\
}\n";

#[test]
fn the_light_scheme_reads_only_outside_the_dark_block() {
    let light = tokens_for_scheme(CSS, "light");
    assert_eq!(light.get("--surface"), Rgb::parse("#FAF5EF"));
    assert_eq!(light.get("--text"), Rgb::parse("#221B16"));
    assert_eq!(light.get("--accent"), Rgb::parse("#B14B2E"));
    assert_eq!(light.get("--late"), Rgb::parse("#ffffff"));
    assert_eq!(light.get("--font"), None);
}

#[test]
fn the_dark_scheme_layers_its_block_over_the_light_values() {
    let dark = tokens_for_scheme(CSS, "dark");
    assert_eq!(dark.get("--surface"), Rgb::parse("#221B16"));
    assert_eq!(dark.get("--text"), Rgb::parse("#FAF5EF"));
    // Not redefined in the dark block: the light value stands.
    assert_eq!(dark.get("--accent"), Rgb::parse("#B14B2E"));
    assert_eq!(dark.get("--late"), Rgb::parse("#fff"));
}

#[test]
fn any_scheme_name_but_dark_reads_as_light() {
    let other = tokens_for_scheme(CSS, "sepia");
    assert_eq!(other.get("--surface"), Rgb::parse("#FAF5EF"));
}

#[test]
fn every_annotation_is_found_with_its_scheme_and_line() {
    let found = pairings(CSS);
    assert_eq!(found.len(), 2);
    assert_eq!(found[0].foreground, "--text");
    assert_eq!(found[0].background, "--surface");
    assert_eq!(found[0].level, Level::Aa);
    assert_eq!(found[0].scheme, "light");
    assert_eq!(found[0].line, 5);
    assert_eq!(found[1].level, Level::AaLarge);
    assert_eq!(found[1].scheme, "dark");
    assert_eq!(found[1].line, 12);
}

#[test]
fn a_malformed_annotation_is_not_a_pairing() {
    let css = "/* @contrast --text --surface AA */\n/* @contrast --a on --b AAA */\n/* @contrast --a on --b ui */\n";
    let found = pairings(css);
    assert_eq!(found.len(), 1);
    assert_eq!(found[0].level, Level::Ui);
    assert_eq!(found[0].line, 3);
}

#[test]
fn an_empty_table_has_nothing() {
    let t = trovato_site::tokens::Tokens::new();
    assert_eq!(t.get("--text"), None);
}

#[test]
fn a_stylesheet_that_never_names_the_dark_scheme_reads_the_same_for_both() {
    let css = ":root {\n  --surface: #FAF5EF;\n  --text: #221B16;\n}\n@media (min-width: 40em) {\n  :root { --gap: #123; }\n  --wide: #abcdef;\n}\n";
    let light = tokens_for_scheme(css, "light");
    let dark = tokens_for_scheme(css, "dark");
    for name in ["--surface", "--text", "--wide", "--gap", "--missing"] {
        assert_eq!(light.get(name), dark.get(name), "{name}");
    }
    assert_eq!(dark.get("--wide"), Rgb::parse("#abcdef"));
}

#[test]
fn a_later_declaration_overrides_an_earlier_one() {
    let css = ":root {\n  --text: #111;\n  --text: not-a-colour;\n  --edge : #222 ;;\n  --text: #333;\n}\n";
    let light = tokens_for_scheme(css, "light");
    assert_eq!(light.get("--text"), Rgb::parse("#333"));
    assert_eq!(light.get("--edge"), Rgb::parse("#222"));
}

#[test]
fn each_pairing_carries_the_scheme_of_its_block() {
    let css = "@media (prefers-color-scheme: dark) {\n  :root {\n    /* @contrast --a on --b AA */\n  }\n}\n/* @contrast --c on --d UI */\n";
    let ps = pairings(css);
    assert_eq!(ps.len(), 2);
    assert_eq!((ps[0].line, ps[0].scheme.as_str()), (3, "dark"));
    assert_eq!((ps[1].line, ps[1].scheme.as_str()), (6, "light"));
    assert_eq!(ps[1].level, Level::Ui);
}
