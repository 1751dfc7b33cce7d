use trovato_site::json::Json;
use trovato_site::site::{
    escape_html, front_listing_limit, iso_date, kind_label, listing_sql, live_stage,
    post_from_row, posts_from_json, posts_from_rows, render_actions, render_listing, tap_item_access,
    tap_item_info, tap_item_view, tap_perm, Access, Post,
};

// ─── Content types ───────────────────────────────────────────────

#[test]
fn declares_news_and_front_page() {
    let types = tap_item_info();
    let names: Vec<&str> = types.iter().map(|t| t.machine_name.as_str()).collect();
    assert_eq!(names, vec!["news", "front_page"]);
}

#[test]
fn news_body_is_required() {
    let types = tap_item_info();
    let news = types.iter().find(|t| t.machine_name == "news").unwrap();
    let body = news
        .fields
        .iter()
        .find(|f| f.field_name == "body")
        .expect("news has a body field");
    assert!(body.required, "a news item without a body is not news");
}

#[test]
fn the_summary_is_optional_and_the_front_page_body_required() {
    let types = tap_item_info();
    let news = &types[0];
    assert_eq!(news.fields.len(), 2);
    assert_eq!(news.fields[1].field_name, "summary");
    assert!(!news.fields[1].required);
    assert_eq!(types[1].label, "Front Page");
    assert_eq!(types[1].fields.len(), 1);
    assert!(types[1].fields[0].required);
}

#[test]
fn permissions_cover_both_types() {
    // The plugin declares the four CRUD permissions of each of these types.
    let types = tap_perm();
    assert_eq!(types.len(), 2);
    assert!(types.iter().any(|t| *t == "news"));
    assert!(types.iter().any(|t| *t == "front_page"));
    assert_eq!(types, vec!["news", "front_page"]);
}

// ─── Access ──────────────────────────────────────────────────────

#[test]
fn access_is_neutral_for_other_types() {
    assert_eq!(tap_item_access("blog", 0, 0), Access::Neutral);
}

#[test]
fn author_reaches_their_own_news() {
    let author = 7u128;
    assert_eq!(tap_item_access("news", author, author), Access::Grant);
}

#[test]
fn a_stranger_falls_through_to_the_permission_check() {
    assert_eq!(tap_item_access("news", 1, 2), Access::Neutral);
}

#[test]
fn an_author_reaches_the_front_page_too() {
    assert_eq!(tap_item_access("front_page", 3, 3), Access::Grant);
    assert_eq!(tap_item_access("front_page", 3, 4), Access::Neutral);
}

// ─── The listing ─────────────────────────────────────────────────

#[test]
fn a_blog_post_gets_no_listing() {
    assert_eq!(tap_item_view("blog", &[]), "");
}

#[test]
fn a_news_item_gets_no_listing() {
    assert_eq!(tap_item_view("news", &[post("T", "news", "/n")]), "");
}

fn post(title: &str, kind: &str, path: &str) -> Post {
    Post {
        path: path.into(),
        title: title.into(),
        kind: kind.into(),
        created: 1_767_225_600,
    }
}

#[test]
fn an_empty_listing_renders_nothing_at_all() {
    assert_eq!(render_listing(&[]), "");
}

#[test]
fn the_listing_links_each_post_and_names_its_kind() {
    let html = render_listing(&[
        post("Trovato 0.101.0", "news", "/news/trovato-0-101-0"),
        post(
            "One row, twenty fields",
            "blog",
            "/blog/one-row-twenty-fields",
        ),
    ]);

    assert!(html.contains("href=\"/news/trovato-0-101-0\""));
    assert!(html.contains("Trovato 0.101.0"));
    assert!(html.contains(">News<") || html.contains("News &middot;"));
    assert!(html.contains("href=\"/blog/one-row-twenty-fields\""));
    assert!(html.contains("aria-labelledby=\"front-listing-heading\""));
}

#[test]
fn a_title_cannot_inject_markup() {
    let html = render_listing(&[post("<script>alert(1)</script>", "blog", "/blog/x")]);
    assert!(!html.contains("<script>"));
    assert!(html.contains("&lt;script&gt;"));
}

#[test]
fn a_path_cannot_break_out_of_its_attribute() {
    let html = render_listing(&[post("Fine", "blog", "/blog/x\" onclick=\"evil()")]);
    assert!(!html.contains("onclick=\"evil()"));
    assert!(html.contains("&quot;"));
}

#[test]
fn the_front_page_gets_the_calls_to_action_before_the_listing() {
    let html = tap_item_view("front_page", &[]);
    assert!(html.contains("front-hero__actions"));
    assert!(html.contains("href=\"/get-started\""));
    assert!(html.contains("href=\"/why\""));
    assert!(html.starts_with("<nav class=\"front-hero__actions\""));
}

#[test]
fn the_front_page_listing_follows_the_actions() {
    let posts = [post("Hello", "blog", "/blog/hello")];
    let html = tap_item_view("front_page", &posts);
    assert_eq!(html, format!("{}{}", render_actions(), render_listing(&posts)));
}

#[test]
fn the_calls_to_action_are_a_labelled_nav() {
    assert!(render_actions().contains("aria-label=\"Get started\""));
}

#[test]
fn the_calls_to_action_are_exactly_two_links() {
    assert_eq!(
        render_actions(),
        "<nav class=\"front-hero__actions\" aria-label=\"Get started\">\n\
         <a class=\"button\" href=\"/get-started\">Get started</a>\n\
         <a class=\"button button--secondary\" href=\"/why\">Why Trovato</a>\n\
         </nav>\n"
    );
}

#[test]
fn one_post_renders_one_exact_entry() {
    let html = render_listing(&[post("Hi & bye", "news", "/n")]);
    assert_eq!(
        html,
        "<section class=\"front-listing\" aria-labelledby=\"front-listing-heading\">\n\
         <h2 class=\"front-listing__heading\" id=\"front-listing-heading\">Recent posts</h2>\n\
         <ul class=\"front-listing__items\">\n\
         <li class=\"front-listing__item\">\n\
         <a class=\"front-listing__link\" href=\"/n\">Hi &amp; bye</a>\n\
         <p class=\"front-listing__meta\">News &middot; <time datetime=\"2026-01-01\">2026-01-01</time></p>\n\
         </li>\n\
         </ul>\n</section>\n"
    );
}

// ─── Row mapping ─────────────────────────────────────────────────

fn s(text: &str) -> Json {
    Json::Str(text.to_string())
}

fn row(entries: Vec<(&str, Json)>) -> Json {
    Json::Object(entries.into_iter().map(|(k, v)| (k.to_string(), v)).collect())
}

#[test]
fn a_row_with_an_alias_uses_it() {
    let r = row(vec![
        ("id", s("0193a5a0-0000-7000-8000-00000000000a")),
        ("title", s("Hello")),
        ("kind", s("blog")),
        ("created", Json::Int(1_767_225_600)),
        ("alias", s("/blog/hello")),
    ]);
    assert_eq!(post_from_row(&r).unwrap().path, "/blog/hello");
}

#[test]
fn a_row_without_an_alias_falls_back_to_the_item_path() {
    let r = row(vec![
        ("id", s("0193a5a0-0000-7000-8000-00000000000a")),
        ("title", s("Hello")),
        ("kind", s("blog")),
        ("created", Json::Int(1_767_225_600)),
        ("alias", Json::Null),
    ]);
    assert_eq!(
        post_from_row(&r).unwrap().path,
        "/item/0193a5a0-0000-7000-8000-00000000000a"
    );
}

#[test]
fn an_empty_alias_is_not_a_path() {
    let r = row(vec![
        ("id", s("0193a5a0-0000-7000-8000-00000000000a")),
        ("title", s("Hello")),
        ("kind", s("blog")),
        ("created", Json::Int(1_767_225_600)),
        ("alias", s("")),
    ]);
    assert_eq!(
        post_from_row(&r).unwrap().path,
        "/item/0193a5a0-0000-7000-8000-00000000000a"
    );
}

#[test]
fn a_row_missing_a_title_is_dropped_rather_than_rendered_blank() {
    let r = row(vec![
        ("id", s("0193a5a0-0000-7000-8000-00000000000a")),
        ("kind", s("blog")),
        ("created", Json::Int(1_767_225_600)),
    ]);
    assert_eq!(post_from_row(&r), None);
}

#[test]
fn a_row_whose_date_is_not_an_integer_is_dropped() {
    let r = row(vec![
        ("id", s("x")),
        ("title", s("Hello")),
        ("kind", s("blog")),
        ("created", s("yesterday")),
    ]);
    assert_eq!(post_from_row(&r), None);
    assert_eq!(post_from_row(&Json::Null), None);
}

#[test]
fn a_complete_row_becomes_the_whole_post() {
    let r = row(vec![
        ("id", s("abc")),
        ("title", s("Hello")),
        ("kind", s("news")),
        ("created", Json::Int(-5)),
    ]);
    assert_eq!(
        post_from_row(&r),
        Some(Post {
            path: "/item/abc".into(),
            title: "Hello".into(),
            kind: "news".into(),
            created: -5,
        })
    );
}

#[test]
fn rows_that_cannot_be_rendered_are_skipped_in_order() {
    let good = |title: &str| {
        row(vec![
            ("id", s("i")),
            ("title", s(title)),
            ("kind", s("blog")),
            ("created", Json::Int(0)),
        ])
    };
    let posts = posts_from_rows(&vec![good("a"), Json::Null, good("b")]);
    let titles: Vec<&str> = posts.iter().map(|p| p.title.as_str()).collect();
    assert_eq!(titles, vec!["a", "b"]);
}

// ─── The query ───────────────────────────────────────────────────

#[test]
fn the_listing_compares_both_stage_columns_against_one_parameter() {
    let sql = listing_sql();
    assert!(sql.contains("a.stage_id = $1::uuid"));
    assert!(sql.contains("i.stage_id = $1::uuid"));
    assert!(
        !sql.contains("'live'"),
        "the alias stage must come from the parameter, not a literal"
    );
}

#[test]
fn the_listing_is_limited_and_ordered_newest_first() {
    assert!(listing_sql().contains("ORDER BY i.created DESC"));
    assert!(listing_sql().contains("LIMIT $2"));
}

#[test]
fn the_listing_only_reads_the_tables_the_manifest_declares() {
    for table in ["comment", "users", "session"] {
        assert!(
            !listing_sql().contains(table),
            "the listing reads {table}, which the manifest does not declare"
        );
    }
}

#[test]
fn the_listing_parameters_are_the_live_stage_and_five() {
    assert_eq!(live_stage(), "0193a5a0-0000-7000-8000-000000000001");
    assert_eq!(front_listing_limit(), 5);
}

// ─── Dates ───────────────────────────────────────────────────────

#[test]
fn iso_date_matches_known_dates() {
    assert_eq!(iso_date(0), "1970-01-01");
    assert_eq!(iso_date(1_767_225_600), "2026-01-01");
    assert_eq!(iso_date(1_772_755_200), "2026-03-06");
    assert_eq!(iso_date(1_709_164_800), "2024-02-29");
    assert_eq!(iso_date(951_782_400), "2000-02-29");
}

#[test]
fn iso_date_handles_a_timestamp_before_the_epoch() {
    assert_eq!(iso_date(-1), "1969-12-31");
}

#[test]
fn iso_date_at_the_ends_of_the_range() {
    assert_eq!(iso_date(86_399), "1970-01-01");
    assert_eq!(iso_date(86_400), "1970-01-02");
    assert_eq!(iso_date(-62_135_596_800), "0001-01-01");
    assert_eq!(iso_date(253_402_300_799), "9999-12-31");
    assert_eq!(iso_date(4_107_542_400), "2100-03-01");
}

// ─── Labels and escaping ─────────────────────────────────────────

#[test]
fn kinds_are_named_for_readers() {
    assert_eq!(kind_label("blog"), "Blog");
    assert_eq!(kind_label("news"), "News");
    assert_eq!(kind_label("page"), "page");
}

#[test]
fn escape_html_replaces_the_five_characters() {
    assert_eq!(escape_html("<'&\">"), "&lt;&#39;&amp;&quot;&gt;");
}

fn month_length(y: i64, m: i64) -> i64 {
    let leap = (y % 4 == 0 && y % 100 != 0) || y % 400 == 0;
    match m {
        2 if leap => 29,
        2 => 28,
        4 | 6 | 9 | 11 => 30,
        _ => 31,
    }
}

#[test]
fn consecutive_days_are_consecutive_dates() {
    let parse = |s: &str| -> (i64, i64, i64) {
        let parts: Vec<i64> = s.split('-').map(|p| p.parse().unwrap()).collect();
        (parts[0], parts[1], parts[2])
    };
    let mut previous = parse(&iso_date(-86_400 * 40_000));
    for day in -39_999i64..40_000 {
        let (y, m, d) = parse(&iso_date(day * 86_400));
        assert!((1..=12).contains(&m) && d >= 1 && d <= month_length(y, m), "{y}-{m}-{d}");
        let (py, pm, pd) = previous;
        let expected = if pd < month_length(py, pm) {
            (py, pm, pd + 1)
        } else if pm < 12 {
            (py, pm + 1, 1)
        } else {
            (py + 1, 1, 1)
        };
        assert_eq!((y, m, d), expected, "after {py}-{pm}-{pd}");
        previous = (y, m, d);
    }
}

#[test]
fn every_second_of_a_day_shows_its_date() {
    for t in [0i64, 1, 86_399, 86_400, 1_772_755_200 + 43_210, -1, -86_400, -86_401, i64::MIN + 86_400, i64::MAX] {
        let start = 86_400 * t.div_euclid(86_400);
        assert_eq!(iso_date(t), iso_date(start), "{t}");
    }
    assert_eq!(iso_date(-1), "1969-12-31");
}

#[test]
fn a_query_answer_is_read_into_posts() {
    let answer = r#"[
        {"id": "0193a5a0-0000-7000-8000-00000000000a", "title": "Hello", "kind": "blog",
         "created": 1767225600, "alias": "/blog/hello"},
        {"id": "b", "title": "No date", "kind": "news"},
        {"id": "c", "title": "Later", "kind": "news", "created": 1772755200, "alias": null}
    ]"#;
    let posts = posts_from_json(answer);
    assert_eq!(posts.len(), 2);
    assert_eq!(posts[0].path, "/blog/hello");
    assert_eq!(posts[0].created, 1_767_225_600);
    assert_eq!(posts[1].path, "/item/c");
    assert_eq!(posts[1].title, "Later");
}

#[test]
fn an_answer_that_is_no_json_array_gives_no_posts() {
    assert!(posts_from_json("").is_empty());
    assert!(posts_from_json("not json").is_empty());
    assert!(posts_from_json(r#"{"id": "a"}"#).is_empty());
    assert!(posts_from_json("[]").is_empty());
}
