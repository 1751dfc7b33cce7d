use trovato_site::roundtrip::{compare, compare_texts, equivalent, show, shown_text, value_at, Problem, Unparsed, Yaml};

fn s(t: &str) -> Yaml {
    Yaml::Str(t.to_string())
}

fn map(entries: Vec<(&str, Yaml)>) -> Yaml {
    Yaml::Mapping(entries.into_iter().map(|(k, v)| (k.to_string(), v)).collect())
}

#[test]
fn an_identical_export_has_no_problem() {
    let v = map(vec![("id", s("x")), ("weight", Yaml::Int(3))]);
    let w = map(vec![("id", s("x")), ("weight", Yaml::Int(3))]);
    assert!(compare(&v, &w).is_empty());
}

#[test]
fn a_quoted_number_and_an_unquoted_one_mean_the_same() {
    assert!(equivalent(&s("5"), &Yaml::Int(5)));
    assert!(equivalent(&s(" true "), &Yaml::Bool(true)));
    assert!(equivalent(&s("1.5"), &Yaml::Float("1.5".to_string())));
    assert!(!equivalent(&s("6"), &Yaml::Int(5)));
}

#[test]
fn key_order_is_not_part_of_a_mapping() {
    let a = map(vec![("a", Yaml::Int(1)), ("b", Yaml::Int(2))]);
    let b = map(vec![("b", Yaml::Int(2)), ("a", Yaml::Int(1))]);
    assert!(equivalent(&a, &b));
    let c = map(vec![("a", Yaml::Int(1))]);
    assert!(!equivalent(&a, &c));
}

#[test]
fn lists_compare_element_by_element() {
    let a = Yaml::List(vec![s("1"), Yaml::Int(2)]);
    let b = Yaml::List(vec![Yaml::Int(1), s("2")]);
    assert!(equivalent(&a, &b));
    assert!(!equivalent(&a, &Yaml::List(vec![Yaml::Int(1)])));
}

#[test]
fn a_null_and_a_list_do_not_mean_the_same_thing() {
    let list = Yaml::List(vec![Yaml::Int(1)]);
    assert!(!equivalent(&Yaml::Null, &list));
    assert!(!equivalent(&list, &Yaml::Null));
    assert!(!equivalent(&Yaml::Null, &map(vec![("a", Yaml::Int(1))])));
    assert!(equivalent(&Yaml::Null, &Yaml::Null));
}

#[test]
fn a_value_is_shown_as_its_yaml() {
    assert_eq!(show(&s("hello")), Some("hello".to_string()));
    assert_eq!(show(&Yaml::Int(42)), Some("42".to_string()));
    let m = map(vec![("a", Yaml::Int(1)), ("b", s("x"))]);
    assert_eq!(show(&m), Some("a: 1\n                b: x".to_string()));
    assert_eq!(show(&Yaml::Float("5".into())), Some("5.0".to_string()));
}

#[test]
fn a_cut_inside_a_character_shows_nothing() {
    let text = format!("{}é", "x".repeat(399));
    assert_eq!(show(&s(&text)), None);
    let ok = format!("{}é", "x".repeat(398));
    assert_eq!(show(&s(&ok)), Some(ok.clone()));
}

#[test]
fn the_zeros_and_tags_compare_as_the_yaml_library_compares_them() {
    assert!(equivalent(&Yaml::Float("0".into()), &Yaml::Float("-0".into())));
    let a = Yaml::Tagged("!x".into(), Box::new(Yaml::Int(1)));
    let b = Yaml::Tagged("x".into(), Box::new(Yaml::Int(1)));
    assert!(equivalent(&a, &b));
}

#[test]
fn a_missing_key_and_a_changed_value_are_reported_in_order() {
    let declared = map(vec![
        ("title", s("Home")),
        ("created", Yaml::Int(1)),
        ("status", Yaml::Int(1)),
        ("body", s("old")),
    ]);
    let exported = map(vec![
        ("title", s("Home")),
        ("created", Yaml::Int(99)),
        ("body", s("new")),
        ("extra", Yaml::Null),
    ]);
    assert_eq!(
        compare(&declared, &exported),
        vec![Problem::Absent("status".into()), Problem::Differs("body".into())]
    );
}

#[test]
fn two_files_that_are_not_mappings_must_be_equal() {
    assert_eq!(compare(&s("a"), &s("b")), vec![Problem::NotMapping]);
    assert!(compare(&s("a"), &s("a")).is_empty());
    assert_eq!(compare(&s("1"), &Yaml::Int(1)), vec![Problem::NotMapping]);
}

#[test]
fn a_shown_value_is_trimmed_and_its_lines_indented() {
    assert_eq!(shown_text("  a: 1\nb: 2\n"), "a: 1\n                b: 2");
}

#[test]
fn a_long_value_is_cut_at_four_hundred_bytes() {
    let long = "x".repeat(450);
    let shown = shown_text(&long);
    assert_eq!(shown, format!("{}…", "x".repeat(400)));
    assert_eq!(shown_text(&"y".repeat(400)), "y".repeat(400));
}

#[test]
fn equivalence_does_not_depend_on_which_side_is_declared() {
    let values = [
        s("5"),
        Yaml::Int(5),
        Yaml::Float("5".into()),
        Yaml::Null,
        Yaml::Bool(false),
        s("false"),
        map(vec![("a", Yaml::Int(1)), ("b", s("x"))]),
        map(vec![("b", s("x")), ("a", s("1"))]),
        map(vec![("a", Yaml::Int(1))]),
        Yaml::List(vec![Yaml::Int(1), s("2")]),
        Yaml::List(vec![s("1"), Yaml::Int(2)]),
    ];
    for a in &values {
        assert!(equivalent(a, a), "{a:?}");
        for b in &values {
            assert_eq!(equivalent(a, b), equivalent(b, a), "{a:?} and {b:?}");
        }
    }
}

#[test]
fn value_at_reads_a_mapping_by_key() {
    let v = map(vec![("id", s("x")), ("weight", Yaml::Int(3))]);
    assert!(matches!(value_at(&v, "weight"), Some(Yaml::Int(3))));
    assert!(matches!(value_at(&v, "id"), Some(Yaml::Str(t)) if t == "x"));
    assert!(value_at(&v, "missing").is_none());
    assert!(value_at(&s("x"), "id").is_none());
    assert!(value_at(&Yaml::Null, "id").is_none());
}

#[test]
fn two_texts_are_parsed_and_compared() {
    let c = compare_texts("id: x\nweight: 3\n", "weight: 3\nid: x\nextra: 1\n").unwrap();
    assert!(c.problems.is_empty());
    assert!(matches!(value_at(&c.declared, "weight"), Some(Yaml::Int(3))));

    let c = compare_texts("id: x\nweight: 3\nlabel: Hi\n", "id: x\nweight: 4\n").unwrap();
    assert_eq!(c.problems, vec![Problem::Differs("weight".to_string()), Problem::Absent("label".to_string())]);

    let c = compare_texts("ratio: 1.5\nflag: true\n", "ratio: '1.5'\nflag: 'true'\n").unwrap();
    assert!(c.problems.is_empty());
    assert!(matches!(value_at(&c.declared, "ratio"), Some(Yaml::Float(t)) if t == "1.5"));
}

#[test]
fn a_text_that_does_not_parse_is_named() {
    assert!(matches!(compare_texts("a: [1, 2", "a: 1\n"), Err(Unparsed::Declared(_))));
    assert!(matches!(compare_texts("a: [1, 2", "b: ["), Err(Unparsed::Declared(_))));
    assert!(matches!(compare_texts("a: 1\n", "a: [1, 2"), Err(Unparsed::Exported(_))));
}
