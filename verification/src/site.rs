//! The site plugin's decisions and markup: the `news` and `front_page`
//! content types, who reaches them, and the front page's calls to action and
//! listing of recent posts.
//!
//! The kernel's SDK is not part of this library: the plugin's taps hand these
//! functions plain values and take plain values back.

use vstd::prelude::*;

use crate::html::{escape_spec, escaped, push_escaped};
use crate::json::{as_i64, as_str, get, json_rows, member, read_rows, Json, JsonV};
use crate::text::{chars_of, eq_vec, push_chars, push_str, string_of};

verus! {

// ───────────────────────── content types ─────────────────────────

/// The kind of a field, as the kernel knows it.
#[derive(Debug, Clone, Copy, PartialEq, Eq, Structural)]
pub enum FieldKind {
    TextLong,
}

/// One field of a content type.
#[derive(Debug, Clone, PartialEq, Eq)]
pub struct FieldSpec {
    pub field_name: String,
    pub kind: FieldKind,
    pub required: bool,
    pub label: String,
}

/// A content type the site defines.
#[derive(Debug, Clone, PartialEq, Eq)]
pub struct ContentType {
    pub machine_name: String,
    pub label: String,
    pub description: String,
    pub fields: Vec<FieldSpec>,
}

/// A field as values: name, kind, required, label.
pub type FieldV = (Seq<char>, FieldKind, bool, Seq<char>);

/// A content type as values: machine name, label, description, fields.
pub type ContentTypeV = (Seq<char>, Seq<char>, Seq<char>, Seq<FieldV>);

pub open spec fn field_view(f: FieldSpec) -> FieldV {
    (f.field_name@, f.kind, f.required, f.label@)
}

pub open spec fn content_type_view(t: ContentType) -> ContentTypeV {
    (
        t.machine_name@,
        t.label@,
        t.description@,
        Seq::new(t.fields@.len(), |i: int| field_view(t.fields@[i])),
    )
}

/// The content types the site defines: `news`, whose body is required, and
/// `front_page`.
///
/// `body`, not `field_body`: the kernel's own `page` type calls it `body`, and
/// both the front-page teaser renderer and the stock gather listing template
/// read `fields.body`.
pub open spec fn item_info_spec() -> Seq<ContentTypeV> {
    seq![
        (
            "news"@,
            "News"@,
            "An announcement in the site's voice: a release, a milestone, a change worth knowing about."@,
            seq![
                ("body"@, FieldKind::TextLong, true, "Body"@),
                ("summary"@, FieldKind::TextLong, false, "Summary"@),
            ],
        ),
        (
            "front_page"@,
            "Front Page"@,
            "The site front page. Its body carries the copy; the listing of recent posts is appended by the site plugin."@,
            seq![("body"@, FieldKind::TextLong, true, "Body"@)],
        ),
    ]
}

fn owned(s: &str) -> (o: String)
    ensures
        o@ == s@,
{
    let mut o = String::new();
    push_str(&mut o, s);
    o
}

fn field(name: &str, required: bool, label: &str) -> (f: FieldSpec)
    ensures
        field_view(f) == (name@, FieldKind::TextLong, required, label@),
{
    FieldSpec { field_name: owned(name), kind: FieldKind::TextLong, required, label: owned(label) }
}

/// The content types the site defines.
pub fn tap_item_info() -> (types: Vec<ContentType>)
    ensures
        types@.len() == item_info_spec().len(),
        forall|k: int| 0 <= k < types@.len() ==> content_type_view(#[trigger] types@[k]) == item_info_spec()[k],
{
    let news_fields = vec![field("body", true, "Body"), field("summary", false, "Summary")];
    let news = ContentType {
        machine_name: owned("news"),
        label: owned("News"),
        description: owned(
            "An announcement in the site's voice: a release, a milestone, a change worth knowing about.",
        ),
        fields: news_fields,
    };
    assert(content_type_view(news).3 =~= item_info_spec()[0].3);
    let front_fields = vec![field("body", true, "Body")];
    let front = ContentType {
        machine_name: owned("front_page"),
        label: owned("Front Page"),
        description: owned(
            "The site front page. Its body carries the copy; the listing of recent posts is appended by the site plugin.",
        ),
        fields: front_fields,
    };
    assert(content_type_view(front).3 =~= item_info_spec()[1].3);
    vec![news, front]
}

/// Permissions for the site's own content types: the content types whose four
/// create, read, update and delete permissions the plugin declares, in order.
pub fn tap_perm() -> (names: Vec<&'static str>)
    ensures
        names@.len() == 2,
        names@[0]@ == "news"@,
        names@[1]@ == "front_page"@,
{
    vec!["news", "front_page"]
}

// ───────────────────────── access ─────────────────────────

/// What the site says about access to an item.
#[derive(Debug, Clone, Copy, PartialEq, Eq, Structural)]
pub enum Access {
    Grant,
    Neutral,
}

/// An author reaches their own item of the site's types at any stage of
/// publication; everyone else falls through to the kernel's permission
/// fallback, as does every item of another type.
pub open spec fn item_access_spec(item_type: Seq<char>, author_id: u128, user_id: u128) -> Access {
    if (item_type == "news"@ || item_type == "front_page"@) && user_id == author_id {
        Access::Grant
    } else {
        Access::Neutral
    }
}

/// Author access for the site's content types.
///
/// The same shape the blog plugin uses: an author reaches their own item at any
/// stage of publication, and everyone else falls through to the kernel's
/// permission fallback (`edit news content`, and so on).
pub fn tap_item_access(item_type: &str, author_id: u128, user_id: u128) -> (a: Access)
    ensures
        a == item_access_spec(item_type@, author_id, user_id),
{
    let t = chars_of(item_type);
    if !eq_vec(&t, &chars_of("news")) && !eq_vec(&t, &chars_of("front_page")) {
        return Access::Neutral;
    }
    if user_id == author_id {
        return Access::Grant;
    }
    Access::Neutral
}

// ───────────────────────── posts ─────────────────────────

/// One entry in the front page's listing.
#[derive(Debug, Clone, PartialEq, Eq)]
pub struct Post {
    /// The path a reader follows to the post: its alias when it has one,
    /// `/item/{uuid}` when it does not.
    pub path: String,
    pub title: String,
    /// `blog` or `news`, rendered as a label so a reader can tell them apart.
    pub kind: String,
    /// Unix timestamp the post was created.
    pub created: i64,
}

/// A post as values: path, title, kind, created.
pub type PostV = (Seq<char>, Seq<char>, Seq<char>, i64);

pub open spec fn post_view(p: Post) -> PostV {
    (p.path@, p.title@, p.kind@, p.created)
}

/// The text of a row's field, when it is a string.
pub open spec fn text_field(row: JsonV, key: Seq<char>) -> Option<Seq<char>> {
    match member(row, key) {
        Some(JsonV::Str(s)) => Some(s),
        _ => None,
    }
}

/// A post from one result row: it needs a string `id`, `title` and `kind` and
/// an integer `created`; its path is the row's `alias` when that is a
/// non-empty string, and `/item/{id}` otherwise.
pub open spec fn post_from_row_spec(row: JsonV) -> Option<PostV> {
    match (text_field(row, "id"@), text_field(row, "title"@), text_field(row, "kind"@), member(row, "created"@)) {
        (Some(id), Some(title), Some(kind), Some(JsonV::Int(created))) => {
            let path = match text_field(row, "alias"@) {
                Some(a) => if a.len() > 0 {
                    a
                } else {
                    "/item/"@ + id
                },
                None => "/item/"@ + id,
            };
            Some((path, title, kind, created))
        },
        _ => None,
    }
}

fn text_of(row: &Json, key: &str) -> (r: Option<String>)
    ensures
        r matches Some(s) ==> text_field(row@, key@) == Some(s@),
        r is None ==> text_field(row@, key@) is None,
{
    match get(row, key) {
        Some(v) => match as_str(v) {
            Some(s) => Some(owned(s)),
            None => None,
        },
        None => None,
    }
}

/// Build a `Post` from one result row, or nothing if the row is missing a field
/// the listing cannot render without.
pub fn post_from_row(row: &Json) -> (p: Option<Post>)
    ensures
        p matches Some(p) ==> post_from_row_spec(row@) == Some(post_view(p)),
        p is None ==> post_from_row_spec(row@) is None,
{
    let id = match text_of(row, "id") {
        Some(id) => id,
        None => return None,
    };
    let path = match text_of(row, "alias") {
        Some(a) => if !a.as_str().is_empty() {
            a
        } else {
            let mut p = owned("/item/");
            push_str(&mut p, id.as_str());
            p
        },
        None => {
            let mut p = owned("/item/");
            push_str(&mut p, id.as_str());
            p
        },
    };
    let title = match text_of(row, "title") {
        Some(t) => t,
        None => return None,
    };
    let kind = match text_of(row, "kind") {
        Some(k) => k,
        None => return None,
    };
    let created = match get(row, "created") {
        Some(v) => match as_i64(v) {
            Some(n) => n,
            None => return None,
        },
        None => return None,
    };
    Some(Post { path, title, kind, created })
}

/// The rows that make posts, in order, each made into its post.
pub open spec fn posts_from_rows_spec(rows: Seq<JsonV>) -> Seq<PostV>
    decreases rows.len(),
{
    if rows.len() == 0 {
        Seq::empty()
    } else {
        let prev = posts_from_rows_spec(rows.drop_last());
        match post_from_row_spec(rows.last()) {
            Some(p) => prev.push(p),
            None => prev,
        }
    }
}

/// The posts of a query's rows, skipping any row a post cannot be made from.
pub fn posts_from_rows(rows: &Vec<Json>) -> (posts: Vec<Post>)
    ensures
        posts@.len() == posts_from_rows_spec(rows@.map_values(|r: Json| r@)).len(),
        forall|k: int|
            0 <= k < posts@.len() ==> post_view(#[trigger] posts@[k]) == posts_from_rows_spec(
                rows@.map_values(|r: Json| r@),
            )[k],
{
    let ghost rv = rows@.map_values(|r: Json| r@);
    let mut posts: Vec<Post> = Vec::new();
    let mut i: usize = 0;
    while i < rows.len()
        invariant
            i <= rows@.len() == rv.len(),
            rv == rows@.map_values(|r: Json| r@),
            posts@.len() == posts_from_rows_spec(rv.take(i as int)).len(),
            forall|k: int|
                0 <= k < posts@.len() ==> post_view(#[trigger] posts@[k]) == posts_from_rows_spec(
                    rv.take(i as int),
                )[k],
        decreases rows@.len() - i,
    {
        assert(rv.take(i + 1).drop_last() =~= rv.take(i as int));
        assert(rv.take(i + 1).last() == rows@[i as int]@);
        let ghost before = posts@;
        if let Some(p) = post_from_row(&rows[i]) {
            posts.push(p);
            assert forall|k: int| 0 <= k < posts@.len() implies post_view(#[trigger] posts@[k])
                == posts_from_rows_spec(rv.take(i + 1))[k] by {
                if k < before.len() {
                    assert(posts@[k] == before[k]);
                }
            }
        }
        i += 1;
    }
    assert(rv.take(rows@.len() as int) =~= rv);
    posts
}

/// The posts of a query's answer: the rows of its JSON array, each made into
/// its post where it can be; no posts when the answer is not a JSON array.
pub fn posts_from_json(text: &str) -> (posts: Vec<Post>)
    ensures
        posts@.map_values(|p: Post| post_view(p)) == match json_rows(text@) {
            Some(rows) => posts_from_rows_spec(rows),
            None => Seq::empty(),
        },
{
    match read_rows(text) {
        Some(rows) => {
            let posts = posts_from_rows(&rows);
            assert(posts@.map_values(|p: Post| post_view(p)) =~= posts_from_rows_spec(
                rows@.map_values(|r: Json| r@),
            ));
            posts
        },
        None => Vec::new(),
    }
}

// ───────────────────────── labels and dates ─────────────────────────

/// The reader-facing name of a content type.
pub open spec fn kind_label_spec(kind: Seq<char>) -> Seq<char> {
    if kind == "blog"@ {
        "Blog"@
    } else if kind == "news"@ {
        "News"@
    } else {
        kind
    }
}

/// The reader-facing name of a content type.
pub fn kind_label(kind: &str) -> (label: String)
    ensures
        label@ == kind_label_spec(kind@),
{
    let k = chars_of(kind);
    if eq_vec(&k, &chars_of("blog")) {
        owned("Blog")
    } else if eq_vec(&k, &chars_of("news")) {
        owned("News")
    } else {
        owned(kind)
    }
}

/// The decimal digits of `n`.
pub open spec fn decimal(n: nat) -> Seq<char>
    decreases n,
{
    if n < 10 {
        seq![(('0' as nat) + n) as char]
    } else {
        decimal(n / 10).push((('0' as nat) + n % 10) as char)
    }
}

/// `s` with zeros in front up to width `w`.
pub open spec fn zero_pad(s: Seq<char>, w: nat) -> Seq<char> {
    if s.len() >= w {
        s
    } else {
        Seq::new((w - s.len()) as nat, |i: int| '0') + s
    }
}

/// `format!("{n:0w$}")`: a sign, then the digits zero-padded so the whole is at
/// least `w` wide.
pub open spec fn padded(n: int, w: nat) -> Seq<char> {
    if n < 0 {
        "-"@ + zero_pad(decimal((-n) as nat), if w > 0 { (w - 1) as nat } else { 0 })
    } else {
        zero_pad(decimal(n as nat), w)
    }
}

/// The civil date (year, month, day) of a day count from 1970-01-01, by
/// Howard Hinnant's `civil_from_days`: shifted to a March-based year of
/// 400-year eras, so that the leap day lands at the end of a year.
pub open spec fn civil_from_days(days: int) -> (int, int, int) {
    let z = days + 719_468;
    let era = z / 146_097;
    let doe = z % 146_097;
    let yoe = (doe - doe / 1460 + doe / 36_524 - doe / 146_096) / 365;
    let doy = doe - (365 * yoe + yoe / 4 - yoe / 100);
    let mp = (5 * doy + 2) / 153;
    let day = doy - (153 * mp + 2) / 5 + 1;
    let month = if mp < 10 {
        mp + 3
    } else {
        mp - 9
    };
    let year = era * 400 + yoe + if month <= 2 {
        1int
    } else {
        0
    };
    (year, month, day)
}

/// A Unix timestamp's UTC date as `YYYY-MM-DD`.
pub open spec fn iso_date_spec(timestamp: int) -> Seq<char> {
    let (y, m, d) = civil_from_days(timestamp / 86_400);
    padded(y, 4) + "-"@ + padded(m, 2) + "-"@ + padded(d, 2)
}

pub(crate) fn decimal_exec(n: u64) -> (s: Vec<char>)
    ensures
        s@ == decimal(n as nat),
    decreases n,
{
    if n < 10 {
        let c = ((n as u8) + 48) as char;
        assert(c == (('0' as nat) + n) as char);
        vec![c]
    } else {
        let mut s = decimal_exec(n / 10);
        let c = (((n % 10) as u8) + 48) as char;
        assert(c == (('0' as nat) + (n as nat) % 10) as char);
        s.push(c);
        s
    }
}

fn zero_pad_exec(s: Vec<char>, w: usize) -> (out: Vec<char>)
    ensures
        out@ == zero_pad(s@, w as nat),
{
    if s.len() >= w {
        return s;
    }
    let mut out: Vec<char> = Vec::new();
    let k = w - s.len();
    let mut i: usize = 0;
    while i < k
        invariant
            i <= k,
            out@ == Seq::new(i as nat, |j: int| '0'),
        decreases k - i,
    {
        out.push('0');
        i += 1;
        assert(out@ =~= Seq::new(i as nat, |j: int| '0'));
    }
    let mut rest = s;
    let ghost sv = rest@;
    out.append(&mut rest);
    assert(out@ =~= zero_pad(sv, w as nat));
    out
}

fn padded_exec(n: i64, w: usize) -> (out: Vec<char>)
    requires
        w >= 1,
        n > i64::MIN,
    ensures
        out@ == padded(n as int, w as nat),
{
    if n < 0 {
        let mut out = vec!['-'];
        proof {
            reveal_strlit("-");
        }
        let mut digits = zero_pad_exec(decimal_exec((-n) as u64), w - 1);
        let ghost dv = digits@;
        out.append(&mut digits);
        assert(out@ =~= padded(n as int, w as nat));
        out
    } else {
        zero_pad_exec(decimal_exec(n as u64), w)
    }
}

/// `civil_from_days` on a day count of at most 2^47 in magnitude.
#[verifier::spinoff_prover]
#[verifier::rlimit(50)]
fn civil_exec(days: i64) -> (ymd: (i64, i64, i64))
    requires
        -0x8000_0000_0000 <= days <= 0x8000_0000_0000,
    ensures
        (ymd.0 as int, ymd.1 as int, ymd.2 as int) == civil_from_days(days as int),
        -0x1_0000_0000_0000 <= ymd.0 <= 0x1_0000_0000_0000,
        -0x1_0000 <= ymd.1 <= 0x1_0000,
        -0x1_0000_0000 <= ymd.2 <= 0x1_0000_0000,
{
    let z = days + 719_468;
    let era = match z.checked_div_euclid(146_097) {
        Some(e) => e,
        None => 0,
    };
    let doe = match z.checked_rem_euclid(146_097) {
        Some(r) => r,
        None => 0,
    };
    assert(era == (z as int) / 146_097);
    assert(doe == (z as int) % 146_097);
    assert(0 <= doe < 146_097);
    assert(-0x1_0000_0000 <= era <= 0x1_0000_0000) by (nonlinear_arith)
        requires
            era == (z as int) / 146_097,
            -0x8000_0000_0000 <= z <= 0x8000_0000_0000 + 719_468,
    {
        vstd::arithmetic::div_mod::lemma_fundamental_div_mod(z as int, 146_097);
    }
    let yoe = (doe - doe / 1460 + doe / 36_524 - doe / 146_096) / 365;
    assert(0 <= yoe <= 1000);
    let doy = doe - (365 * yoe + yoe / 4 - yoe / 100);
    assert(-1_000_000 <= doy <= 1_000_000);
    let mp = (5 * doy + 2) / 153;
    let day = doy - (153 * mp + 2) / 5 + 1;
    let month = if mp < 10 {
        mp + 3
    } else {
        mp - 9
    };
    let year = era * 400 + yoe + if month <= 2 {
        1i64
    } else {
        0
    };
    (year, month, day)
}

/// A Unix timestamp as `YYYY-MM-DD`.
///
/// Hand-rolled because the plugin has no clock, no timezone database and no
/// `chrono`: it is handed a timestamp and needs a date. UTC, deliberately: a
/// publication date that shifts with the reader's timezone is a worse date.
pub fn iso_date(timestamp: i64) -> (date: String)
    ensures
        date@ == iso_date_spec(timestamp as int),
{
    let days = match timestamp.checked_div_euclid(86_400) {
        Some(d) => d,
        None => 0,
    };
    assert(days == (timestamp as int) / 86_400);
    assert(-0x8000_0000_0000 <= days <= 0x8000_0000_0000) by (nonlinear_arith)
        requires
            days == (timestamp as int) / 86_400,
            i64::MIN <= timestamp <= i64::MAX,
    {
        vstd::arithmetic::div_mod::lemma_fundamental_div_mod(timestamp as int, 86_400);
    }
    let (year, month, day) = civil_exec(days);
    let mut out = padded_exec(year, 4);
    out.push('-');
    let mut m = padded_exec(month, 2);
    out.append(&mut m);
    out.push('-');
    let mut d = padded_exec(day, 2);
    out.append(&mut d);
    proof {
        reveal_strlit("-");
    }
    assert(out@ =~= iso_date_spec(timestamp as int));
    string_of(&out)
}

// ───────────────────────── markup ─────────────────────────

/// One call to action: `<a class="{class}" href="{href}">{label}</a>`.
pub open spec fn action_link(href: Seq<char>, label: Seq<char>, class: Seq<char>) -> Seq<char> {
    "<a class=\""@ + escape_spec(class) + "\" href=\""@ + escape_spec(href) + "\">"@
        + escape_spec(label) + "</a>\n"@
}

/// The front page's two calls to action, in a labelled nav.
pub open spec fn actions_spec() -> Seq<char> {
    "<nav class=\"front-hero__actions\" aria-label=\"Get started\">\n"@ + action_link(
        "/get-started"@,
        "Get started"@,
        "button"@,
    ) + action_link("/why"@, "Why Trovato"@, "button button--secondary"@) + "</nav>\n"@
}

fn push_action(html: &mut String, href: &str, label: &str, class: &str)
    ensures
        final(html)@ == old(html)@ + action_link(href@, label@, class@),
{
    push_str(html, "<a class=\"");
    push_escaped(html, class);
    push_str(html, "\" href=\"");
    push_escaped(html, href);
    push_str(html, "\">");
    push_escaped(html, label);
    push_str(html, "</a>\n");
}

/// Render the calls to action.
pub fn render_actions() -> (html: String)
    ensures
        html@ == actions_spec(),
{
    let mut html = owned("<nav class=\"front-hero__actions\" aria-label=\"Get started\">\n");
    push_action(&mut html, "/get-started", "Get started", "button");
    push_action(&mut html, "/why", "Why Trovato", "button button--secondary");
    push_str(&mut html, "</nav>\n");
    html
}

/// One post's entry in the listing.
pub open spec fn listing_item(p: PostV) -> Seq<char> {
    "<li class=\"front-listing__item\">\n"@ + "<a class=\"front-listing__link\" href=\""@
        + escape_spec(p.0) + "\">"@ + escape_spec(p.1) + "</a>\n"@
        + "<p class=\"front-listing__meta\">"@ + escape_spec(kind_label_spec(p.2))
        + " &middot; <time datetime=\""@ + escape_spec(iso_date_spec(p.3 as int)) + "\">"@
        + escape_spec(iso_date_spec(p.3 as int)) + "</time></p>\n"@ + "</li>\n"@
}

/// The entries of `posts`, in order.
pub open spec fn listing_items(posts: Seq<PostV>) -> Seq<char>
    decreases posts.len(),
{
    if posts.len() == 0 {
        Seq::empty()
    } else {
        listing_items(posts.drop_last()) + listing_item(posts.last())
    }
}

/// The listing: nothing at all for no posts, else a labelled section with a
/// heading and one entry per post.
pub open spec fn listing_spec(posts: Seq<PostV>) -> Seq<char> {
    if posts.len() == 0 {
        Seq::empty()
    } else {
        "<section class=\"front-listing\" aria-labelledby=\"front-listing-heading\">\n"@
            + "<h2 class=\"front-listing__heading\" id=\"front-listing-heading\">Recent posts</h2>\n"@
            + "<ul class=\"front-listing__items\">\n"@ + listing_items(posts) + "</ul>\n</section>\n"@
    }
}

/// Render the listing.
///
/// An empty list renders an empty string rather than an empty heading: a front page
/// that has nothing to list should look like a front page with nothing to list, not
/// like one whose listing broke.
#[verifier::spinoff_prover]
#[verifier::rlimit(40)]
pub fn render_listing(posts: &[Post]) -> (html: String)
    ensures
        html@ == listing_spec(posts@.map_values(|p: Post| post_view(p))),
{
    let ghost pv = posts@.map_values(|p: Post| post_view(p));
    if posts.len() == 0 {
        return String::new();
    }
    let mut html = owned(
        "<section class=\"front-listing\" aria-labelledby=\"front-listing-heading\">\n",
    );
    push_str(
        &mut html,
        "<h2 class=\"front-listing__heading\" id=\"front-listing-heading\">Recent posts</h2>\n",
    );
    push_str(&mut html, "<ul class=\"front-listing__items\">\n");
    let ghost head = html@;
    let mut i: usize = 0;
    while i < posts.len()
        invariant
            i <= posts@.len() == pv.len(),
            pv == posts@.map_values(|p: Post| post_view(p)),
            html@ == head + listing_items(pv.take(i as int)),
        decreases posts@.len() - i,
    {
        assert(pv.take(i + 1).drop_last() =~= pv.take(i as int));
        assert(pv.take(i + 1).last() == post_view(posts@[i as int]));
        let post = &posts[i];
        let date = iso_date(post.created);
        let label = kind_label(post.kind.as_str());
        push_str(&mut html, "<li class=\"front-listing__item\">\n");
        push_str(&mut html, "<a class=\"front-listing__link\" href=\"");
        push_escaped(&mut html, post.path.as_str());
        push_str(&mut html, "\">");
        push_escaped(&mut html, post.title.as_str());
        push_str(&mut html, "</a>\n");
        push_str(&mut html, "<p class=\"front-listing__meta\">");
        push_escaped(&mut html, label.as_str());
        push_str(&mut html, " &middot; <time datetime=\"");
        push_escaped(&mut html, date.as_str());
        push_str(&mut html, "\">");
        push_escaped(&mut html, date.as_str());
        push_str(&mut html, "</time></p>\n");
        push_str(&mut html, "</li>\n");
        assert(html@ =~= head + listing_items(pv.take(i + 1)));
        i += 1;
    }
    assert(pv.take(posts@.len() as int) =~= pv);
    push_str(&mut html, "</ul>\n</section>\n");
    html
}

/// Escape text for HTML.
pub fn escape_html(raw: &str) -> (out: String)
    ensures
        out@ == escape_spec(raw@),
{
    escaped(raw)
}

// ───────────────────────── the front page ─────────────────────────

/// The content type whose single item is the site front page.
pub open spec fn is_front_page_spec(item_type: Seq<char>) -> bool {
    item_type == "front_page"@
}

pub fn is_front_page(item_type: &str) -> (b: bool)
    ensures
        b == is_front_page_spec(item_type@),
{
    eq_vec(&chars_of(item_type), &chars_of("front_page"))
}

/// What the front page gets appended: the calls to action, then the listing.
/// Every other item gets nothing, which is every item but one.
pub open spec fn item_view_spec(item_type: Seq<char>, posts: Seq<PostV>) -> Seq<char> {
    if is_front_page_spec(item_type) {
        actions_spec() + listing_spec(posts)
    } else {
        Seq::empty()
    }
}

/// Append the calls to action and the recent-posts listing to the front page,
/// given the item's type and the recent posts.
///
/// Returns an empty string for every other item, which is every item but one.
pub fn tap_item_view(item_type: &str, posts: &[Post]) -> (html: String)
    ensures
        html@ == item_view_spec(item_type@, posts@.map_values(|p: Post| post_view(p))),
{
    if !is_front_page(item_type) {
        return String::new();
    }
    let mut html = render_actions();
    let listing = render_listing(posts);
    push_str(&mut html, listing.as_str());
    html
}

/// How many recent posts the front page lists.
pub fn front_listing_limit() -> (n: i64)
    ensures
        n == 5,
{
    5
}

/// The live stage. Every published page on this site is in it.
pub fn live_stage() -> (s: &'static str)
    ensures
        s@ == "0193a5a0-0000-7000-8000-000000000001"@,
{
    "0193a5a0-0000-7000-8000-000000000001"
}

/// The listing query: published blog posts and news items in the live stage,
/// newest first, each with its alias in the same stage when it has one.
///
/// One stage parameter, compared as a uuid on both sides: `item.stage_id` and
/// `url_alias.stage_id` are both `uuid` columns on a migrated database. The
/// LEFT JOIN is what lets a post link to its friendly path; a post with no
/// alias still belongs in the list and falls back to `/item/{uuid}`.
pub open spec fn listing_sql_spec() -> Seq<char> {
    "SELECT i.id, i.title, i.type AS kind, i.created, a.alias \
     FROM item i \
     LEFT JOIN url_alias a \
       ON a.source = '/item/' || i.id::text \
      AND a.language = COALESCE(i.language, 'en') \
      AND a.stage_id = $1::uuid \
     WHERE i.status = 1 \
       AND i.type IN ('blog', 'news') \
       AND i.stage_id = $1::uuid \
     ORDER BY i.created DESC \
     LIMIT $2"@
}

pub fn listing_sql() -> (sql: &'static str)
    ensures
        sql@ == listing_sql_spec(),
{
    "SELECT i.id, i.title, i.type AS kind, i.created, a.alias \
     FROM item i \
     LEFT JOIN url_alias a \
       ON a.source = '/item/' || i.id::text \
      AND a.language = COALESCE(i.language, 'en') \
      AND a.stage_id = $1::uuid \
     WHERE i.status = 1 \
       AND i.type IN ('blog', 'news') \
       AND i.stage_id = $1::uuid \
     ORDER BY i.created DESC \
     LIMIT $2"
}

// ───────────────────────── laws ─────────────────────────

/// Only an author is granted access, and only to the site's own types; every
/// other request falls through to the kernel's permission check.
pub proof fn law_only_authors_are_granted(item_type: Seq<char>, author_id: u128, user_id: u128)
    ensures
        item_access_spec(item_type, author_id, user_id) == Access::Grant <==> ((item_type == "news"@
            || item_type == "front_page"@) && author_id == user_id),
{
}

/// The front page, and only the front page, gets markup appended: every other
/// item, blog posts included, gets nothing under it.
pub proof fn law_only_the_front_page_gets_markup(item_type: Seq<char>, posts: Seq<PostV>)
    ensures
        item_view_spec(item_type, posts).len() > 0 <==> is_front_page_spec(item_type),
{
    reveal_strlit("<nav class=\"front-hero__actions\" aria-label=\"Get started\">\n");
}

/// Nothing to list renders nothing at all, not an empty heading; anything to
/// list renders a listing.
pub proof fn law_an_empty_listing_renders_nothing(posts: Seq<PostV>)
    ensures
        listing_spec(posts).len() == 0 <==> posts.len() == 0,
{
    reveal_strlit(
        "<section class=\"front-listing\" aria-labelledby=\"front-listing-heading\">\n",
    );
}

// ───────────────────────── the calendar ─────────────────────────

/// A Gregorian leap year.
pub open spec fn leap_year(y: int) -> bool {
    (y % 4 == 0 && y % 100 != 0) || y % 400 == 0
}

/// The number of days in month `m` of year `y`.
pub open spec fn month_length(y: int, m: int) -> int {
    if m == 2 {
        if leap_year(y) {
            29
        } else {
            28
        }
    } else if m == 4 || m == 6 || m == 9 || m == 11 {
        30
    } else {
        31
    }
}

/// The day after a date (year, month, day).
pub open spec fn next_date(d: (int, int, int)) -> (int, int, int) {
    if d.2 < month_length(d.0, d.1) {
        (d.0, d.1, d.2 + 1)
    } else if d.1 < 12 {
        (d.0, d.1 + 1, 1)
    } else {
        (d.0 + 1, 1, 1)
    }
}

/// Whether the year that ends year `yoe` of an era (counted from March 1)
/// ends with a leap day: the following calendar year is a leap year.
pub open spec fn ends_leap(yoe: int) -> bool {
    (yoe % 4 == 3 && yoe % 100 != 99) || yoe == 399
}

/// Day `doe` of a 400-year era counted from March 1 falls in year `yoe` of the
/// era, on day `doy` of that year; the year's last day is day 365 when it ends
/// with a leap day, else day 364.
proof fn lemma_year_of_era(doe: u32, yoe: u32, doy: u32)
    by (bit_vector)
    requires
        doe < 146097,
        yoe == ((doe - doe / 1460 + doe / 36524 - doe / 146096) / 365) as u32,
        doy == (doe - (365 * yoe + yoe / 4 - yoe / 100)) as u32,
    ensures
        yoe <= 399,
        365 * yoe + yoe / 4 - yoe / 100 <= doe,
        doy <= 365,
        doy == 365 ==> ((yoe % 4 == 3 && yoe % 100 != 99) || yoe == 399),
{
}

/// Day `doy` of a year counted from March 1 falls in month `mp` (0 for March),
/// which starts on day `t`; every month has its Gregorian length, February
/// (month 11) starting on day 337.
proof fn lemma_month_of_year(doy: u32, mp: u32, t: u32)
    by (bit_vector)
    requires
        doy <= 365,
        mp == ((5 * doy + 2) / 153) as u32,
        t == ((153 * mp + 2) / 5) as u32,
    ensures
        mp <= 11,
        t <= doy,
        doy - t <= 30,
        mp == 1 || mp == 3 || mp == 6 || mp == 8 ==> doy - t <= 29,
        mp == 11 ==> t == 337,
        doy >= 337 ==> mp == 11,
{
}

/// The day after day `doe` of an era, within the era: the next day of the same
/// year, or the first day of the next year after the year's last day.
#[verifier::rlimit(100)]
proof fn lemma_next_day_of_era(doe: u32, yoe: u32, doy: u32, doe2: u32, yoe2: u32, doy2: u32)
    by (bit_vector)
    requires
        doe < 146096,
        yoe == ((doe - doe / 1460 + doe / 36524 - doe / 146096) / 365) as u32,
        doy == (doe - (365 * yoe + yoe / 4 - yoe / 100)) as u32,
        doe2 == (doe + 1) as u32,
        yoe2 == ((doe2 - doe2 / 1460 + doe2 / 36524 - doe2 / 146096) / 365) as u32,
        doy2 == (doe2 - (365 * yoe2 + yoe2 / 4 - yoe2 / 100)) as u32,
    ensures
        (doy == 365 || (doy == 364 && !((yoe % 4 == 3 && yoe % 100 != 99) || yoe == 399)))
            ==> (yoe2 == (yoe + 1) as u32 && doy2 == 0),
        !(doy == 365 || (doy == 364 && !((yoe % 4 == 3 && yoe % 100 != 99) || yoe == 399)))
            ==> (yoe2 == yoe && doy2 == (doy + 1) as u32),
{
}

/// The day after day `doy` of a year counted from March 1, within the year:
/// the next day of the same month, or the first day of the next month after a
/// month's last day.
proof fn lemma_next_day_of_year(doy: u32, mp: u32, t: u32, doy2: u32, mp2: u32, t2: u32)
    by (bit_vector)
    requires
        doy <= 364,
        mp == ((5 * doy + 2) / 153) as u32,
        t == ((153 * mp + 2) / 5) as u32,
        doy2 == (doy + 1) as u32,
        mp2 == ((5 * doy2 + 2) / 153) as u32,
        t2 == ((153 * mp2 + 2) / 5) as u32,
    ensures
        (mp <= 10 && (((mp == 1 || mp == 3 || mp == 6 || mp == 8) && doy - t == 29) || (!(mp == 1
            || mp == 3 || mp == 6 || mp == 8) && doy - t == 30))) ==> (mp2 == (mp + 1) as u32 && t2 == (doy + 1) as u32),
        !(mp <= 10 && (((mp == 1 || mp == 3 || mp == 6 || mp == 8) && doy - t == 29) || (!(mp == 1
            || mp == 3 || mp == 6 || mp == 8) && doy - t == 30))) ==> (mp2 == mp && t2 == t),
{
}

/// Where day `doe` of an era falls, as `civil_from_days` computes it: the
/// year of the era, the day of that year, the month counted from March, and
/// the day of the year that month starts on.
pub open spec fn era_parts(doe: int) -> (int, int, int, int) {
    let yoe = (doe - doe / 1460 + doe / 36524 - doe / 146096) / 365;
    let doy = doe - (365 * yoe + yoe / 4 - yoe / 100);
    let mp = (5 * doy + 2) / 153;
    let t = (153 * mp + 2) / 5;
    (yoe, doy, mp, t)
}

/// The date of day `doe` of era `era`.
pub open spec fn era_date(era: int, doe: int) -> (int, int, int) {
    let (yoe, doy, mp, t) = era_parts(doe);
    let month = if mp < 10 {
        mp + 3
    } else {
        mp - 9
    };
    (era * 400 + yoe + if month <= 2 {
        1int
    } else {
        0
    }, month, doy - t + 1)
}

proof fn lemma_era_parts(doe: int)
    requires
        0 <= doe < 146097,
    ensures
        0 <= era_parts(doe).0 <= 399,
        0 <= era_parts(doe).1 <= 365,
        era_parts(doe).1 == 365 ==> ends_leap(era_parts(doe).0),
        0 <= era_parts(doe).2 <= 11,
        era_parts(doe).3 <= era_parts(doe).1,
        era_parts(doe).1 - era_parts(doe).3 <= 30,
        era_parts(doe).2 == 1 || era_parts(doe).2 == 3 || era_parts(doe).2 == 6
            || era_parts(doe).2 == 8 ==> era_parts(doe).1 - era_parts(doe).3 <= 29,
        era_parts(doe).2 == 11 ==> era_parts(doe).3 == 337,
        era_parts(doe).1 >= 337 ==> era_parts(doe).2 == 11,
{
    let (yoe, doy, mp, t) = era_parts(doe);
    assert(0 <= yoe <= doe);
    lemma_year_of_era(doe as u32, yoe as u32, doy as u32);
    assert(0 <= mp <= doy);
    assert(0 <= t <= 153 * mp);
    lemma_month_of_year(doy as u32, mp as u32, t as u32);
}

/// The date of a day count is the era's date of its day within the era.
proof fn lemma_civil_is_era_date(days: int)
    ensures
        civil_from_days(days) == era_date(
            (days + 719_468) / 146_097,
            (days + 719_468) % 146_097,
        ),
{
}

/// The year a February falls in is a leap year exactly when its era year ends
/// with a leap day.
proof fn lemma_february_year(era: int, yoe: int)
    requires
        0 <= yoe <= 399,
    ensures
        leap_year(era * 400 + yoe + 1) == ends_leap(yoe),
{
    assert((era * 400 + yoe + 1) % 4 == (yoe + 1) % 4) by (nonlinear_arith);
    assert((era * 400 + yoe + 1) % 100 == (yoe + 1) % 100) by (nonlinear_arith);
    assert((era * 400 + yoe + 1) % 400 == (yoe + 1) % 400) by (nonlinear_arith);
}

/// Every date of an era is a real date.
proof fn lemma_era_date_valid(era: int, doe: int)
    requires
        0 <= doe < 146097,
    ensures
        1 <= era_date(era, doe).1 <= 12,
        1 <= era_date(era, doe).2 <= month_length(era_date(era, doe).0, era_date(era, doe).1),
{
    lemma_era_parts(doe);
    let (yoe, doy, mp, t) = era_parts(doe);
    lemma_february_year(era, yoe);
}

/// Within an era, the next day is the next date.
proof fn lemma_era_date_next(era: int, doe: int)
    requires
        0 <= doe < 146096,
    ensures
        era_date(era, doe + 1) == next_date(era_date(era, doe)),
{
    lemma_era_parts(doe);
    lemma_era_parts(doe + 1);
    let (yoe, doy, mp, t) = era_parts(doe);
    let (yoe2, doy2, mp2, t2) = era_parts(doe + 1);
    lemma_february_year(era, yoe);
    lemma_next_day_of_era(doe as u32, yoe as u32, doy as u32, (doe + 1) as u32, yoe2 as u32, doy2 as u32);
    if doy == 365 || (doy == 364 && !ends_leap(yoe)) {
        assert(yoe2 == yoe + 1 && doy2 == 0);
        lemma_month_of_year(0, 0, 0);
    } else {
        assert(yoe2 == yoe && doy2 == doy + 1);
        lemma_next_day_of_year(doy as u32, mp as u32, t as u32, doy2 as u32, mp2 as u32, t2 as u32);
    }
}

/// The day after an era's last day is the next era's first.
proof fn lemma_era_date_next_era(era: int)
    ensures
        era_date(era + 1, 0) == next_date(era_date(era, 146_096)),
{
    lemma_era_parts(146_096);
    lemma_february_year(era, 399);
    assert(era_parts(146_096) == (399int, 365int, 11int, 337int));
    assert(era_parts(0) == (0int, 0int, 0int, 0int));
}

/// A day count's date is a real date, the next day count is the next date,
/// and day zero is 1970-01-01: the dates are those of the proleptic Gregorian
/// calendar, every one of them.
pub proof fn law_dates_follow_the_gregorian_calendar(days: int)
    ensures
        1 <= civil_from_days(days).1 <= 12,
        1 <= civil_from_days(days).2 <= month_length(
            civil_from_days(days).0,
            civil_from_days(days).1,
        ),
        civil_from_days(days + 1) == next_date(civil_from_days(days)),
        civil_from_days(0) == (1970int, 1int, 1int),
{
    let z = days + 719_468;
    let era = z / 146_097;
    let doe = z % 146_097;
    lemma_civil_is_era_date(days);
    lemma_civil_is_era_date(days + 1);
    lemma_era_date_valid(era, doe);
    if doe < 146_096 {
        vstd::arithmetic::div_mod::lemma_fundamental_div_mod_converse(z + 1, 146_097, era, doe + 1);
        lemma_era_date_next(era, doe);
    } else {
        vstd::arithmetic::div_mod::lemma_fundamental_div_mod_converse(z + 1, 146_097, era + 1, 0);
        lemma_era_date_next_era(era);
    }
    lemma_epoch();
}

/// Day zero is 1970-01-01.
proof fn lemma_epoch()
    ensures
        civil_from_days(0) == (1970int, 1int, 1int),
{
    lemma_civil_is_era_date(0);
    assert(era_parts(135_080) == (369int, 306int, 10int, 306int));
}


/// The date `n` days after `date`, counting one Gregorian day at a time.
pub open spec fn days_after(date: (int, int, int), n: nat) -> (int, int, int)
    decreases n,
{
    if n == 0 {
        date
    } else {
        next_date(days_after(date, (n - 1) as nat))
    }
}

/// `civil_from_days` is the proleptic Gregorian calendar counted from
/// 1970-01-01 as day 0: `n` days after any day's date is the date of the day
/// `n` later, so a day `d` on or after the epoch is the date `d` days after
/// 1970-01-01, and 1970-01-01 is `-d` days after the date of an earlier day `d`.
pub proof fn law_days_count_from_the_epoch(days: int, n: nat)
    ensures
        civil_from_days(days + n) == days_after(civil_from_days(days), n),
        days >= 0 ==> civil_from_days(days) == days_after((1970int, 1int, 1int), days as nat),
        days < 0 ==> days_after(civil_from_days(days), (-days) as nat) == (1970int, 1int, 1int),
{
    law_dates_follow_the_gregorian_calendar(0);
    lemma_days_after(days, n);
    if days >= 0 {
        lemma_days_after(0, days as nat);
    } else {
        lemma_days_after(days, (-days) as nat);
    }
}

proof fn lemma_days_after(days: int, n: nat)
    ensures
        civil_from_days(days + n) == days_after(civil_from_days(days), n),
    decreases n,
{
    if n > 0 {
        lemma_days_after(days, (n - 1) as nat);
        law_dates_follow_the_gregorian_calendar(days + n - 1);
    }
}

/// A timestamp's date is the date of the start of its day: every second of a
/// UTC day shows the same date.
pub proof fn law_a_date_is_its_day(timestamp: int)
    ensures
        iso_date_spec(timestamp) == iso_date_spec(86_400 * (timestamp / 86_400)),
{
    vstd::arithmetic::div_mod::lemma_div_multiples_vanish(timestamp / 86_400, 86_400);
}

} // verus!
