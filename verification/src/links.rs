//! Where the mirrored documents come from, and how a link written for the
//! kernel repository is rewritten for this site.

use vstd::prelude::*;

use crate::docs::{all, all_spec, doc_view, is_markdown_name, lemma_sources_are_markdown, Doc, DocV};
use crate::text::{
    after_last, after_last_exec, chars_of, contains, contains_exec, ends_with, ends_with_exec,
    eq_vec, push_chars, push_str, split_once, split_once_exec, starts_with, starts_with_exec,
    trim_start_matches, trim_start_matches_exec, occurs_at, lemma_find_char_none,
    lemma_find_char_at, lemma_after_last_behind, lemma_after_last_plain_tail,
    lemma_trim_start_matches_plain, lemma_trim_start_matches_done,
};

verus! {

/// The repository the site mirrors.
pub open spec fn repo_spec() -> Seq<char> {
    "jeremyandrews/trovato"@
}

/// The release the site mirrors.
pub open spec fn tag_spec() -> Seq<char> {
    "v0.101.0"@
}

/// The repository the site mirrors.
pub fn repo() -> (s: &'static str)
    ensures
        s@ == repo_spec(),
{
    "jeremyandrews/trovato"
}

/// The release the site mirrors. One line, and the only thing to change when
/// the kernel releases.
pub fn tag() -> (s: &'static str)
    ensures
        s@ == tag_spec(),
{
    "v0.101.0"
}

pub open spec fn raw_url_spec(source: Seq<char>) -> Seq<char> {
    "https://raw.githubusercontent.com/"@ + repo_spec() + "/"@ + tag_spec() + "/"@ + source
}

pub open spec fn edit_url_spec(source: Seq<char>) -> Seq<char> {
    "https://github.com/"@ + repo_spec() + "/blob/"@ + tag_spec() + "/"@ + source
}

/// Where a document's markdown is fetched from.
pub fn raw_url(source: &str) -> (url: String)
    ensures
        url@ == raw_url_spec(source@),
{
    let mut url = String::new();
    push_str(&mut url, "https://raw.githubusercontent.com/");
    push_str(&mut url, repo());
    push_str(&mut url, "/");
    push_str(&mut url, tag());
    push_str(&mut url, "/");
    push_str(&mut url, source);
    url
}

fn edit_url_chars(source: &Vec<char>) -> (url: String)
    ensures
        url@ == edit_url_spec(source@),
{
    let mut url = String::new();
    push_str(&mut url, "https://github.com/");
    push_str(&mut url, repo());
    push_str(&mut url, "/blob/");
    push_str(&mut url, tag());
    push_str(&mut url, "/");
    push_chars(&mut url, source);
    url
}

/// Where a reader edits it.
pub fn edit_url(source: &str) -> (url: String)
    ensures
        url@ == edit_url_spec(source@),
{
    edit_url_chars(&chars_of(source))
}

// ───────────────────────── finding documents ─────────────────────────

/// Some document in `ds` has `source`.
pub open spec fn has_source(ds: Seq<DocV>, source: Seq<char>) -> bool {
    exists|i: int| 0 <= i < ds.len() && (#[trigger] ds[i]).0 == source
}

/// The first document in `ds` whose source is `source`.
pub open spec fn find_source(ds: Seq<DocV>, source: Seq<char>) -> Option<DocV>
    decreases ds.len(),
{
    if ds.len() == 0 {
        None
    } else if ds[0].0 == source {
        Some(ds[0])
    } else {
        find_source(ds.drop_first(), source)
    }
}

/// The first document in `ds` whose file name (after the last `/` of its
/// source) is `name`.
pub open spec fn find_file_name(ds: Seq<DocV>, name: Seq<char>) -> Option<DocV>
    decreases ds.len(),
{
    if ds.len() == 0 {
        None
    } else if after_last(ds[0].0, '/') == name {
        Some(ds[0])
    } else {
        find_file_name(ds.drop_first(), name)
    }
}

proof fn lemma_find_source_some(ds: Seq<DocV>, source: Seq<char>)
    ensures
        find_source(ds, source) is Some <==> has_source(ds, source),
    decreases ds.len(),
{
    if ds.len() > 0 {
        lemma_find_source_some(ds.drop_first(), source);
        if has_source(ds.drop_first(), source) {
            let i = choose|i: int|
                0 <= i < ds.drop_first().len() && (#[trigger] ds.drop_first()[i]).0 == source;
            assert(ds[i + 1] == ds.drop_first()[i]);
        }
        if has_source(ds, source) && ds[0].0 != source {
            let i = choose|i: int| 0 <= i < ds.len() && (#[trigger] ds[i]).0 == source;
            assert(ds.drop_first()[i - 1] == ds[i]);
        }
    }
}

/// `ds` as documents whose views are `v`.
pub open spec fn docs_match(ds: Seq<Doc>, v: Seq<DocV>) -> bool {
    ds.len() == v.len() && forall|k: int| 0 <= k < ds.len() ==> doc_view(#[trigger] ds[k]) == v[k]
}

fn find_source_exec(ds: &Vec<Doc>, source: &Vec<char>) -> (r: Option<Doc>)
    requires
        docs_match(ds@, all_spec()),
    ensures
        r matches Some(d) ==> find_source(all_spec(), source@) == Some(doc_view(d)),
        r is None ==> find_source(all_spec(), source@) is None,
{
    let mut i: usize = 0;
    assert(all_spec().skip(0) =~= all_spec());
    while i < ds.len()
        invariant
            i <= ds@.len(),
            docs_match(ds@, all_spec()),
            find_source(all_spec(), source@) == find_source(all_spec().skip(i as int), source@),
        decreases ds@.len() - i,
    {
        let ghost rest = all_spec().skip(i as int);
        assert(rest.drop_first() =~= all_spec().skip(i + 1));
        assert(rest[0] == all_spec()[i as int]);
        assert(doc_view(ds@[i as int]) == all_spec()[i as int]);
        if eq_vec(&chars_of(ds[i].source), source) {
            return Some(ds[i]);
        }
        i += 1;
    }
    None
}

fn find_file_name_exec(ds: &Vec<Doc>, name: &Vec<char>) -> (r: Option<Doc>)
    requires
        docs_match(ds@, all_spec()),
    ensures
        r matches Some(d) ==> find_file_name(all_spec(), name@) == Some(doc_view(d)),
        r is None ==> find_file_name(all_spec(), name@) is None,
{
    let mut i: usize = 0;
    assert(all_spec().skip(0) =~= all_spec());
    while i < ds.len()
        invariant
            i <= ds@.len(),
            docs_match(ds@, all_spec()),
            find_file_name(all_spec(), name@) == find_file_name(all_spec().skip(i as int), name@),
        decreases ds@.len() - i,
    {
        let ghost rest = all_spec().skip(i as int);
        assert(rest.drop_first() =~= all_spec().skip(i + 1));
        assert(rest[0] == all_spec()[i as int]);
        assert(doc_view(ds@[i as int]) == all_spec()[i as int]);
        let file = after_last_exec(&chars_of(ds[i].source), '/');
        if eq_vec(&file, name) {
            return Some(ds[i]);
        }
        i += 1;
    }
    None
}

// ───────────────────────── normalizing ─────────────────────────

/// The four spellings of a link tried against the manifest, in order.
pub open spec fn candidates(cleaned: Seq<char>) -> Seq<Seq<char>> {
    seq![
        cleaned,
        "docs/"@ + cleaned,
        trim_start_matches(cleaned, "../"@),
        trim_start_matches(cleaned, "../../"@),
    ]
}

/// The first candidate some mirrored document has as its source.
pub open spec fn first_known(cs: Seq<Seq<char>>) -> Option<Seq<char>>
    decreases cs.len(),
{
    if cs.len() == 0 {
        None
    } else if has_source(all_spec(), cs[0]) {
        Some(cs[0])
    } else {
        first_known(cs.drop_first())
    }
}

/// A repository-relative link resolved to a repository path: the first of its
/// spellings that a mirrored document has; else the source of the first
/// mirrored document with the same `.md` file name; else the link with its
/// leading `../` removed.
pub open spec fn normalize_spec(path: Seq<char>) -> Seq<char> {
    let cleaned = trim_start_matches(path, "./"@);
    let bare = after_last(cleaned, '/');
    match first_known(candidates(cleaned)) {
        Some(c) => c,
        None => match find_file_name(all_spec(), bare) {
            Some(d) => if ends_with(bare, ".md"@) {
                d.0
            } else {
                trim_start_matches(cleaned, "../"@)
            },
            None => trim_start_matches(cleaned, "../"@),
        },
    }
}

proof fn lemma_first_known(cs: Seq<Seq<char>>)
    ensures
        first_known(cs) matches Some(k) ==> has_source(all_spec(), k),
        first_known(cs) is None <==> forall|i: int|
            0 <= i < cs.len() ==> !has_source(all_spec(), #[trigger] cs[i]),
    decreases cs.len(),
{
    if cs.len() > 0 {
        lemma_first_known(cs.drop_first());
        if first_known(cs) is None {
            assert forall|i: int| 0 <= i < cs.len() implies !has_source(all_spec(), #[trigger] cs[i]) by {
                if i > 0 {
                    assert(cs[i] == cs.drop_first()[i - 1]);
                }
            }
        } else if forall|i: int| 0 <= i < cs.len() ==> !has_source(all_spec(), #[trigger] cs[i]) {
            assert(!has_source(all_spec(), cs[0]));
            assert forall|i: int| 0 <= i < cs.drop_first().len() implies !has_source(
                all_spec(),
                #[trigger] cs.drop_first()[i],
            ) by {
                assert(cs.drop_first()[i] == cs[i + 1]);
            }
        }
    }
}

proof fn lemma_find_file_name(ds: Seq<DocV>, name: Seq<char>)
    ensures
        find_file_name(ds, name) matches Some(d) ==> has_source(ds, d.0),
        (exists|i: int| 0 <= i < ds.len() && after_last((#[trigger] ds[i]).0, '/') == name)
            ==> find_file_name(ds, name) is Some,
    decreases ds.len(),
{
    if ds.len() > 0 {
        lemma_find_file_name(ds.drop_first(), name);
        if let Some(d) = find_file_name(ds.drop_first(), name) {
            let k = choose|k: int| 0 <= k < ds.drop_first().len() && (#[trigger] ds.drop_first()[k]).0 == d.0;
            assert(ds[k + 1] == ds.drop_first()[k]);
        }
        if exists|i: int| 0 <= i < ds.len() && after_last((#[trigger] ds[i]).0, '/') == name {
            let i = choose|i: int| 0 <= i < ds.len() && after_last((#[trigger] ds[i]).0, '/') == name;
            if i > 0 {
                assert(ds.drop_first()[i - 1] == ds[i]);
            }
        }
    }
}

proof fn lemma_after_last_trim_up(c: Seq<char>)
    ensures
        after_last(trim_start_matches(c, "../"@), '/') == after_last(c, '/'),
    decreases c.len(),
{
    reveal_strlit("../");
    if starts_with(c, "../"@) {
        let rest = c.skip(3);
        assert(c =~= "../"@ + rest);
        lemma_after_last_behind("../"@, rest, '/');
        lemma_after_last_trim_up(rest);
    }
}

proof fn lemma_markdown_file_name(x: Seq<char>)
    requires
        is_markdown_name(x),
    ensures
        ends_with(after_last(x, '/'), ".md"@),
{
    reveal_strlit(".md");
    let y = x.take(x.len() - 3);
    let t = x.skip(x.len() - 3);
    assert(x =~= y + t);
    assert(t =~= ".md"@);
    lemma_after_last_plain_tail(y, t, '/');
    let a = after_last(y, '/') + t;
    assert(a.skip(a.len() - 3) =~= t);
}

proof fn lemma_up_twice(r: Seq<char>)
    ensures
        starts_with(r, "../../"@) ==> starts_with(r, "../"@),
{
    reveal_strlit("../");
    reveal_strlit("../../");
    if starts_with(r, "../../"@) {
        assert(r.take(6)[0] == r[0] && r.take(6)[1] == r[1] && r.take(6)[2] == r[2]);
        assert(r.take(3) =~= "../"@);
    }
}

/// A link that a mirrored document has as its source, and that does not
/// start with `./`, normalizes to itself.
proof fn lemma_known_is_fixed(n: Seq<char>)
    requires
        has_source(all_spec(), n),
        !starts_with(n, "./"@),
    ensures
        normalize_spec(n) == n,
{
    lemma_trim_start_matches_plain(n, "./"@);
    assert(candidates(n)[0] == n);
}

/// Normalizing is done in one step: unless the result starts with `./` (which
/// the next normalizing would strip), normalizing it again gives it back.
/// What normalizing gives is the source of a mirrored document, or else the
/// link with its leading `./` and `../` removed.
pub proof fn law_normalize_is_idempotent(path: Seq<char>)
    requires
        !starts_with(normalize_spec(path), "./"@),
    ensures
        normalize_spec(normalize_spec(path)) == normalize_spec(path),
        has_source(all_spec(), normalize_spec(path)) || normalize_spec(path)
            == trim_start_matches(trim_start_matches(path, "./"@), "../"@),
{
    reveal_strlit("./");
    reveal_strlit("../");
    reveal_strlit("../../");
    reveal_strlit("docs/");
    let n = normalize_spec(path);
    let c = trim_start_matches(path, "./"@);
    let bare = after_last(c, '/');
    let r = trim_start_matches(c, "../"@);
    lemma_first_known(candidates(c));
    lemma_find_file_name(all_spec(), bare);
    if has_source(all_spec(), n) {
        lemma_known_is_fixed(n);
    } else {
        assert(n == r);
        lemma_trim_start_matches_plain(r, "./"@);
        lemma_trim_start_matches_done(c, "../"@);
        lemma_trim_start_matches_plain(r, "../"@);
        lemma_up_twice(r);
        lemma_trim_start_matches_plain(r, "../../"@);
        assert(candidates(c)[2] == r);
        assert(!has_source(all_spec(), r));
        lemma_after_last_trim_up(c);
        let x = "docs/"@ + r;
        if has_source(all_spec(), x) {
            let i = choose|i: int| 0 <= i < all_spec().len() && (#[trigger] all_spec()[i]).0 == x;
            lemma_after_last_behind("docs/"@, r, '/');
            assert(after_last(all_spec()[i].0, '/') == bare);
            lemma_sources_are_markdown();
            assert(is_markdown_name(all_spec()[i].0));
            lemma_markdown_file_name(x);
            assert(false);
        }
        let cr = candidates(r);
        assert(cr[0] == r && cr[1] == x && cr[2] == r && cr[3] == r);
        assert forall|i: int| 0 <= i < cr.len() implies !has_source(all_spec(), #[trigger] cr[i]) by {
            if i == 0 {
            } else if i == 1 {
            } else if i == 2 {
            } else {
            }
        }
        lemma_first_known(cr);
        assert(after_last(r, '/') == bare);
    }
}

/// Whether some mirrored document has this source.
fn is_known(ds: &Vec<Doc>, c: &Vec<char>) -> (b: bool)
    requires
        docs_match(ds@, all_spec()),
    ensures
        b == has_source(all_spec(), c@),
{
    let r = find_source_exec(ds, c);
    proof {
        lemma_find_source_some(all_spec(), c@);
    }
    r.is_some()
}

/// Resolve a repository-relative link against the `docs/` directory most of
/// them are written from.
///
/// The documents live at several depths and their links are written relative to
/// wherever each one sits, so `../../INSTALL.md` from `docs/tutorial/` and
/// `design/Overview.md` from `docs/` both have to land on the same repository
/// path. Rather than track each document's directory, both spellings of every
/// mirrored file are tried against the manifest, which is small and exact.
pub fn normalize(path: &str) -> (out: String)
    ensures
        out@ == normalize_spec(path@),
{
    let v = normalize_chars(&chars_of(path));
    crate::text::string_of(&v)
}

fn normalize_chars(path: &Vec<char>) -> (out: Vec<char>)
    ensures
        out@ == normalize_spec(path@),
{
    let ds = all();
    let cleaned = trim_start_matches_exec(path, &chars_of("./"));
    let bare = after_last_exec(&cleaned, '/');
    let mut docs_prefixed = chars_of("docs/");
    let mut cleaned_copy = cleaned.clone();
    docs_prefixed.append(&mut cleaned_copy);
    let up = trim_start_matches_exec(&cleaned, &chars_of("../"));
    let up2 = trim_start_matches_exec(&cleaned, &chars_of("../../"));
    let ghost cs = candidates(cleaned@);
    proof {
        reveal_with_fuel(first_known, 5);
        assert(cs[0] == cleaned@ && cs[1] == docs_prefixed@ && cs[2] == up@ && cs[3] == up2@);
        assert(cs.drop_first().drop_first().drop_first().drop_first().len() == 0);
        assert(cs.drop_first()[0] == cs[1]);
        assert(cs.drop_first().drop_first()[0] == cs[2]);
        assert(cs.drop_first().drop_first().drop_first()[0] == cs[3]);
    }
    if is_known(&ds, &cleaned) {
        return cleaned;
    }
    if is_known(&ds, &docs_prefixed) {
        return docs_prefixed;
    }
    if is_known(&ds, &up) {
        return up;
    }
    if is_known(&ds, &up2) {
        return up2;
    }
    // A last resort for a link written with a depth this does not model: match
    // on the file name alone, which is unique across the manifest.
    if let Some(doc) = find_file_name_exec(&ds, &bare) {
        if ends_with_exec(&bare, &chars_of(".md")) {
            return chars_of(doc.source);
        }
    }
    up
}

// ───────────────────────── rewriting links ─────────────────────────

/// A link rewritten for this site. An anchor, an external URL or a `mailto:`
/// is left alone (`None`). A link to a mirrored document becomes its `/learn`
/// path, keeping the fragment; any other repository link becomes an absolute
/// GitHub URL at the pinned tag.
pub open spec fn resolve_link_spec(link: Seq<char>) -> Option<Seq<char>> {
    if starts_with(link, "#"@) || contains(link, "://"@) || starts_with(link, "mailto:"@) {
        None
    } else {
        let (path, fragment) = match split_once(link, '#') {
            Some((p, f)) => (p, Some(f)),
            None => (link, None),
        };
        let normalized = normalize_spec(path);
        match find_source(all_spec(), normalized) {
            Some(d) => Some(
                match fragment {
                    Some(f) => "/learn/"@ + d.1 + "#"@ + f,
                    None => "/learn/"@ + d.1,
                },
            ),
            None => Some(edit_url_spec(normalized)),
        }
    }
}

/// Rewrite a link written for the kernel repository into one for this site.
///
/// A link to a document the site mirrors becomes the site's path. A link to
/// anything else in the repository becomes an absolute GitHub URL, because a
/// relative path that made sense in `docs/` means nothing under `/learn`. An
/// anchor or an external URL is left alone.
pub fn resolve_link(link: &str) -> (out: Option<String>)
    ensures
        out matches Some(s) ==> resolve_link_spec(link@) == Some(s@),
        out is None ==> resolve_link_spec(link@) is None,
{
    let l = chars_of(link);
    if starts_with_exec(&l, &chars_of("#")) || contains_exec(&l, &chars_of("://"))
        || starts_with_exec(&l, &chars_of("mailto:")) {
        return None;
    }
    let (path, fragment) = match split_once_exec(&l, '#') {
        Some((p, f)) => (p, Some(f)),
        None => (l.clone(), None),
    };
    let normalized = normalize_chars(&path);
    let ds = all();
    match find_source_exec(&ds, &normalized) {
        Some(doc) => {
            let mut out = String::new();
            push_str(&mut out, "/learn/");
            push_str(&mut out, doc.slug);
            match fragment {
                Some(f) => {
                    push_str(&mut out, "#");
                    push_chars(&mut out, &f);
                },
                None => {},
            }
            Some(out)
        },
        None => Some(edit_url_chars(&normalized)),
    }
}

// ───────────────────────── laws ─────────────────────────

/// Exactly the anchors, the external URLs and the `mailto:` links are left
/// alone; every other link is rewritten.
pub proof fn law_only_anchors_and_external_links_are_left(link: Seq<char>)
    ensures
        resolve_link_spec(link) is None <==> (starts_with(link, "#"@) || contains(link, "://"@)
            || starts_with(link, "mailto:"@)),
{
}

/// A rewritten link points into this site's `/learn` pages or at the
/// repository on GitHub at the pinned tag.
pub proof fn law_rewritten_links_point_here_or_at_the_tag(link: Seq<char>)
    ensures
        resolve_link_spec(link) matches Some(t) ==> (starts_with(t, "/learn/"@) || starts_with(
            t,
            "https://github.com/"@ + repo_spec() + "/blob/"@ + tag_spec() + "/"@,
        )),
{
    reveal_strlit("/learn/");
    match resolve_link_spec(link) {
        Some(t) => {
            let (path, fragment) = match split_once(link, '#') {
                Some((p, f)) => (p, Some(f)),
                None => (link, None),
            };
            let normalized = normalize_spec(path);
            match find_source(all_spec(), normalized) {
                Some(d) => {
                    match fragment {
                        Some(f) => assert(("/learn/"@ + d.1 + "#"@ + f).take(7) =~= "/learn/"@),
                        None => assert(("/learn/"@ + d.1).take(7) =~= "/learn/"@),
                    }
                },
                None => {
                    let prefix = "https://github.com/"@ + repo_spec() + "/blob/"@ + tag_spec()
                        + "/"@;
                    assert(edit_url_spec(normalized) =~= prefix + normalized);
                    assert((prefix + normalized).take(prefix.len() as int) =~= prefix);
                },
            }
        },
        None => {},
    }
}

/// A link written as a mirrored document's exact source lands on that
/// document's page, and a fragment after it is kept.
pub proof fn law_a_mirrored_source_lands_on_its_page(source: Seq<char>, fragment: Seq<char>)
    requires
        has_source(all_spec(), source),
        source.len() > 0,
        !starts_with(source, "./"@),
        !starts_with(source, "#"@),
        !starts_with(source, "mailto:"@),
        !contains(source + "#"@ + fragment, "://"@),
        forall|j: int| 0 <= j < source.len() ==> source[j] != '#',
    ensures
        resolve_link_spec(source) == Some("/learn/"@ + (find_source(all_spec(), source)->0).1),
        resolve_link_spec(source + "#"@ + fragment) == Some(
            "/learn/"@ + (find_source(all_spec(), source)->0).1 + "#"@ + fragment,
        ),
{
    reveal_strlit("#");
    reveal_strlit("./");
    reveal_strlit("mailto:");
    reveal_strlit("://");
    let link = source + "#"@ + fragment;
    // The path is the source itself, which is the first spelling tried.
    assert(trim_start_matches(source, "./"@) == source);
    let cs = candidates(source);
    assert(cs[0] == source);
    assert(first_known(cs) == Some(source));
    assert(normalize_spec(source) == source);
    lemma_find_source_some(all_spec(), source);
    // Without a fragment there is nothing to split off.
    lemma_find_char_none(source, '#');
    assert(!contains(source, "://"@)) by {
        if contains(source, "://"@) {
            let i = choose|i: int| occurs_at(source, "://"@, i);
            assert(link.subrange(i, i + 3) =~= source.subrange(i, i + 3));
            assert(occurs_at(link, "://"@, i));
        }
    }
    // With one, the split falls at the `#` after the source.
    assert(link[source.len() as int] == '#');
    assert forall|j: int| 0 <= j < source.len() implies link[j] != '#' by {
        assert(link[j] == source[j]);
    }
    lemma_find_char_at(link, '#', source.len() as int);
    assert(link.take(source.len() as int) =~= source);
    assert(link.skip(source.len() as int + 1) =~= fragment);
    assert(starts_with(link, "#"@) == starts_with(source, "#"@)) by {
        if source.len() > 0 {
            assert(link[0] == source[0]);
        }
    }
    assert(starts_with(link, "mailto:"@) ==> starts_with(source, "mailto:"@)) by {
        if starts_with(link, "mailto:"@) && source.len() >= 7 {
            assert(link.take(7) =~= source.take(7));
        }
        if starts_with(link, "mailto:"@) && source.len() < 7 {
            assert(link[source.len() as int] == '#');
            assert("mailto:"@[source.len() as int] != '#');
            assert(link.take(7)[source.len() as int] == link[source.len() as int]);
        }
    }
}

} // verus!
