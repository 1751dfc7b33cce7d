//! What the site mirrors from the kernel repository, and where each page lands.

use vstd::prelude::*;

use crate::text::{chars_of, eq_vec};

verus! {

/// A group in the documentation index.
#[derive(Debug, Clone, Copy, PartialEq, Eq, Structural)]
pub enum Section {
    Start,
    Tutorial,
    Plugins,
    Design,
    Project,
}

/// Index order of a section.
pub open spec fn section_weight(s: Section) -> u32 {
    match s {
        Section::Start => 0,
        Section::Tutorial => 100,
        Section::Plugins => 200,
        Section::Design => 300,
        Section::Project => 400,
    }
}

pub open spec fn section_title(s: Section) -> Seq<char> {
    match s {
        Section::Start => "Start here"@,
        Section::Tutorial => "The tutorial"@,
        Section::Plugins => "Writing plugins"@,
        Section::Design => "How it works"@,
        Section::Project => "The project"@,
    }
}

pub open spec fn section_blurb(s: Section) -> Seq<char> {
    match s {
        Section::Start => "Getting a site running and putting content in it."@,
        Section::Tutorial => "Nine parts, building one real site from an empty database."@,
        Section::Plugins => "The plugin contract, the taps, and what a plugin may reach."@,
        Section::Design => "The design documents: what each part does and why it is shaped that way."@,
        Section::Project => "Standards, known problems, and how the work is organised."@,
    }
}

impl Section {
    pub fn title(self) -> (s: &'static str)
        ensures
            s@ == section_title(self),
    {
        match self {
            Section::Start => "Start here",
            Section::Tutorial => "The tutorial",
            Section::Plugins => "Writing plugins",
            Section::Design => "How it works",
            Section::Project => "The project",
        }
    }

    pub fn blurb(self) -> (s: &'static str)
        ensures
            s@ == section_blurb(self),
    {
        match self {
            Section::Start => "Getting a site running and putting content in it.",
            Section::Tutorial => "Nine parts, building one real site from an empty database.",
            Section::Plugins => "The plugin contract, the taps, and what a plugin may reach.",
            Section::Design => {
                "The design documents: what each part does and why it is shaped that way."
            },
            Section::Project => "Standards, known problems, and how the work is organised.",
        }
    }

    /// Index order.
    pub fn weight(self) -> (w: u32)
        ensures
            w == section_weight(self),
    {
        match self {
            Section::Start => 0,
            Section::Tutorial => 100,
            Section::Plugins => 200,
            Section::Design => 300,
            Section::Project => 400,
        }
    }
}

/// One mirrored document.
#[derive(Debug, Clone, Copy)]
pub struct Doc {
    /// Path in the kernel repository, from its root.
    pub source: &'static str,
    /// The site path, under `/learn`.
    pub slug: &'static str,
    /// Title, as it appears on the page and in the index.
    pub title: &'static str,
    /// Which part of the index it belongs to.
    pub section: Section,
}

/// A document as values: source, slug, title, section.
pub type DocV = (Seq<char>, Seq<char>, Seq<char>, Section);

pub open spec fn doc_v(source: Seq<char>, slug: Seq<char>, title: Seq<char>, section: Section) -> DocV {
    (source, slug, title, section)
}

pub open spec fn doc_view(d: Doc) -> DocV {
    (d.source@, d.slug@, d.title@, d.section)
}

/// The corpus, in reading order.
///
/// Named one by one rather than globbed. A glob would mirror whatever happened
/// to be in `docs/` at the pinned tag, including working notes and audits
/// written for the person building the kernel rather than for someone reading
/// about it, and it would silently change what the site publishes every time the
/// kernel adds a file. This list is a decision about what the site is for.
pub open spec fn manifest() -> Seq<DocV> {
    seq![
        doc_v("README.md"@, "readme"@, "Read me first"@, Section::Start),
        doc_v("INSTALL.md"@, "install"@, "Installing Trovato"@, Section::Start),
        doc_v("docs/building-your-first-site.md"@, "building-your-first-site"@, "Building your first site"@, Section::Start),
        doc_v("docs/docker-development.md"@, "docker-development"@, "Developing with Docker"@, Section::Start),
        doc_v("docs/tutorial/part-01-hello-trovato.md"@, "tutorial-01-hello-trovato"@, "Part 1: Hello, Trovato"@, Section::Tutorial),
        doc_v("docs/tutorial/part-02-ritrovo-importer.md"@, "tutorial-02-importer"@, "Part 2: The importer"@, Section::Tutorial),
        doc_v("docs/tutorial/part-03-look-and-feel.md"@, "tutorial-03-look-and-feel"@, "Part 3: Look and feel"@, Section::Tutorial),
        doc_v("docs/tutorial/part-04-editorial-engine.md"@, "tutorial-04-editorial-engine"@, "Part 4: The editorial engine"@, Section::Tutorial),
        doc_v("docs/tutorial/part-05-forms-and-input.md"@, "tutorial-05-forms-and-input"@, "Part 5: Forms and input"@, Section::Tutorial),
        doc_v("docs/tutorial/part-06-community.md"@, "tutorial-06-community"@, "Part 6: Community"@, Section::Tutorial),
        doc_v("docs/tutorial/part-07-going-global.md"@, "tutorial-07-going-global"@, "Part 7: Going global"@, Section::Tutorial),
        doc_v("docs/tutorial/part-08-production-ready.md"@, "tutorial-08-production-ready"@, "Part 8: Production ready"@, Section::Tutorial),
        doc_v("docs/tutorial/part-09-ai-and-search.md"@, "tutorial-09-ai-and-search"@, "Part 9: AI and search"@, Section::Tutorial),
        doc_v("docs/plugin-development.md"@, "plugin-development"@, "The plugin development guide"@, Section::Plugins),
        doc_v("docs/plugin-quick-reference.md"@, "plugin-quick-reference"@, "Plugin quick reference"@, Section::Plugins),
        doc_v("docs/plugin-error-codes.md"@, "plugin-error-codes"@, "Plugin error codes"@, Section::Plugins),
        doc_v("docs/plugin-queue.md"@, "plugin-queue"@, "The plugin queue"@, Section::Plugins),
        doc_v("docs/api-reference.md"@, "api-reference"@, "API reference"@, Section::Plugins),
        doc_v("docs/design/Overview.md"@, "design-overview"@, "Overview"@, Section::Design),
        doc_v("docs/design/Architecture.md"@, "design-architecture"@, "Architecture"@, Section::Design),
        doc_v("docs/design/Terminology.md"@, "design-terminology"@, "Terminology: the Drupal words and the Trovato ones"@, Section::Design),
        doc_v("docs/design/Design-Content-Model.md"@, "design-content-model"@, "The content model"@, Section::Design),
        doc_v("docs/design/Design-Query-Engine.md"@, "design-query-engine"@, "Gather, the query engine"@, Section::Design),
        doc_v("docs/design/Design-Plugin-System.md"@, "design-plugin-system"@, "The plugin system"@, Section::Design),
        doc_v("docs/design/Design-Plugin-SDK.md"@, "design-plugin-sdk"@, "The plugin SDK"@, Section::Design),
        doc_v("docs/design/Design-Render-Theme.md"@, "design-render-theme"@, "Rendering and theming"@, Section::Design),
        doc_v("docs/design/Design-Web-Layer.md"@, "design-web-layer"@, "The web layer"@, Section::Design),
        doc_v("docs/design/Design-Infrastructure.md"@, "design-infrastructure"@, "Infrastructure"@, Section::Design),
        doc_v("docs/design/search-architecture.md"@, "design-search"@, "Search architecture"@, Section::Design),
        doc_v("docs/design/ai-integration.md"@, "design-ai"@, "AI integration"@, Section::Design),
        doc_v("docs/design/Versioning.md"@, "design-versioning"@, "Versioning"@, Section::Design),
        doc_v("docs/coding-standards.md"@, "coding-standards"@, "Coding standards"@, Section::Project),
        doc_v("ROADMAP.md"@, "roadmap"@, "Roadmap"@, Section::Project),
        doc_v("CONTRIBUTING.md"@, "contributing"@, "Contributing"@, Section::Project),
        doc_v("CODE_OF_CONDUCT.md"@, "code-of-conduct"@, "Code of conduct"@, Section::Project)
    ]
}

/// The known-issues page, which the site treats differently from the rest: it is
/// dated on the page, because a list of what is broken is worth nothing without
/// the date it was true.
pub open spec fn known_issues_v() -> DocV {
    doc_v("KNOWN-ISSUES.md"@, "known-issues"@, "Known issues"@, Section::Project)
}

/// The corpus, in reading order.
pub fn docs() -> (out: Vec<Doc>)
    ensures
        out@.len() == manifest().len(),
        forall|k: int| 0 <= k < out@.len() ==> doc_view(#[trigger] out@[k]) == manifest()[k],
{
    let out = vec![
        Doc { source: "README.md", slug: "readme", title: "Read me first", section: Section::Start },
        Doc { source: "INSTALL.md", slug: "install", title: "Installing Trovato", section: Section::Start },
        Doc { source: "docs/building-your-first-site.md", slug: "building-your-first-site", title: "Building your first site", section: Section::Start },
        Doc { source: "docs/docker-development.md", slug: "docker-development", title: "Developing with Docker", section: Section::Start },
        Doc { source: "docs/tutorial/part-01-hello-trovato.md", slug: "tutorial-01-hello-trovato", title: "Part 1: Hello, Trovato", section: Section::Tutorial },
        Doc { source: "docs/tutorial/part-02-ritrovo-importer.md", slug: "tutorial-02-importer", title: "Part 2: The importer", section: Section::Tutorial },
        Doc { source: "docs/tutorial/part-03-look-and-feel.md", slug: "tutorial-03-look-and-feel", title: "Part 3: Look and feel", section: Section::Tutorial },
        Doc { source: "docs/tutorial/part-04-editorial-engine.md", slug: "tutorial-04-editorial-engine", title: "Part 4: The editorial engine", section: Section::Tutorial },
        Doc { source: "docs/tutorial/part-05-forms-and-input.md", slug: "tutorial-05-forms-and-input", title: "Part 5: Forms and input", section: Section::Tutorial },
        Doc { source: "docs/tutorial/part-06-community.md", slug: "tutorial-06-community", title: "Part 6: Community", section: Section::Tutorial },
        Doc { source: "docs/tutorial/part-07-going-global.md", slug: "tutorial-07-going-global", title: "Part 7: Going global", section: Section::Tutorial },
        Doc { source: "docs/tutorial/part-08-production-ready.md", slug: "tutorial-08-production-ready", title: "Part 8: Production ready", section: Section::Tutorial },
        Doc { source: "docs/tutorial/part-09-ai-and-search.md", slug: "tutorial-09-ai-and-search", title: "Part 9: AI and search", section: Section::Tutorial },
        Doc { source: "docs/plugin-development.md", slug: "plugin-development", title: "The plugin development guide", section: Section::Plugins },
        Doc { source: "docs/plugin-quick-reference.md", slug: "plugin-quick-reference", title: "Plugin quick reference", section: Section::Plugins },
        Doc { source: "docs/plugin-error-codes.md", slug: "plugin-error-codes", title: "Plugin error codes", section: Section::Plugins },
        Doc { source: "docs/plugin-queue.md", slug: "plugin-queue", title: "The plugin queue", section: Section::Plugins },
        Doc { source: "docs/api-reference.md", slug: "api-reference", title: "API reference", section: Section::Plugins },
        Doc { source: "docs/design/Overview.md", slug: "design-overview", title: "Overview", section: Section::Design },
        Doc { source: "docs/design/Architecture.md", slug: "design-architecture", title: "Architecture", section: Section::Design },
        Doc { source: "docs/design/Terminology.md", slug: "design-terminology", title: "Terminology: the Drupal words and the Trovato ones", section: Section::Design },
        Doc { source: "docs/design/Design-Content-Model.md", slug: "design-content-model", title: "The content model", section: Section::Design },
        Doc { source: "docs/design/Design-Query-Engine.md", slug: "design-query-engine", title: "Gather, the query engine", section: Section::Design },
        Doc { source: "docs/design/Design-Plugin-System.md", slug: "design-plugin-system", title: "The plugin system", section: Section::Design },
        Doc { source: "docs/design/Design-Plugin-SDK.md", slug: "design-plugin-sdk", title: "The plugin SDK", section: Section::Design },
        Doc { source: "docs/design/Design-Render-Theme.md", slug: "design-render-theme", title: "Rendering and theming", section: Section::Design },
        Doc { source: "docs/design/Design-Web-Layer.md", slug: "design-web-layer", title: "The web layer", section: Section::Design },
        Doc { source: "docs/design/Design-Infrastructure.md", slug: "design-infrastructure", title: "Infrastructure", section: Section::Design },
        Doc { source: "docs/design/search-architecture.md", slug: "design-search", title: "Search architecture", section: Section::Design },
        Doc { source: "docs/design/ai-integration.md", slug: "design-ai", title: "AI integration", section: Section::Design },
        Doc { source: "docs/design/Versioning.md", slug: "design-versioning", title: "Versioning", section: Section::Design },
        Doc { source: "docs/coding-standards.md", slug: "coding-standards", title: "Coding standards", section: Section::Project },
        Doc { source: "ROADMAP.md", slug: "roadmap", title: "Roadmap", section: Section::Project },
        Doc { source: "CONTRIBUTING.md", slug: "contributing", title: "Contributing", section: Section::Project },
        Doc { source: "CODE_OF_CONDUCT.md", slug: "code-of-conduct", title: "Code of conduct", section: Section::Project },
    ];
    assert(out@.len() == manifest().len());
    out
}

/// The known-issues page.
pub fn known_issues() -> (d: Doc)
    ensures
        doc_view(d) == known_issues_v(),
{
    Doc {
        source: "KNOWN-ISSUES.md",
        slug: "known-issues",
        title: "Known issues",
        section: Section::Project,
    }
}


// ───────────────────────── index order ─────────────────────────

/// The position of the first manifest entry with this slug.
pub open spec fn slug_position(t: Seq<DocV>, slug: Seq<char>) -> Option<nat>
    decreases t.len(),
{
    if t.len() == 0 {
        None
    } else if t[0].1 == slug {
        Some(0)
    } else {
        match slug_position(t.drop_first(), slug) {
            Some(p) => Some(p + 1),
            None => None,
        }
    }
}

/// A document's place in the index: its section's weight, then its position in
/// the manifest (a document the manifest does not name sorts last).
pub open spec fn index_key(d: DocV) -> (nat, nat) {
    (
        section_weight(d.3) as nat,
        match slug_position(manifest(), d.1) {
            Some(p) => p,
            None => usize::MAX as nat,
        },
    )
}

pub open spec fn key_le(a: (nat, nat), b: (nat, nat)) -> bool {
    a.0 < b.0 || (a.0 == b.0 && a.1 <= b.1)
}

/// `x` placed into `sorted` after every entry whose key is not above its own:
/// one step of a stable sort.
pub open spec fn insert_by_key(sorted: Seq<DocV>, x: DocV) -> Seq<DocV>
    decreases sorted.len(),
{
    if sorted.len() == 0 {
        seq![x]
    } else if key_le(index_key(sorted.last()), index_key(x)) {
        sorted.push(x)
    } else {
        insert_by_key(sorted.drop_last(), x).push(sorted.last())
    }
}

/// `s` stably sorted by `index_key` (what `sort_by_key` computes).
pub open spec fn sort_by_index_key(s: Seq<DocV>) -> Seq<DocV>
    decreases s.len(),
{
    if s.len() == 0 {
        s
    } else {
        insert_by_key(sort_by_index_key(s.drop_last()), s.last())
    }
}

/// Every document, in index order.
pub open spec fn all_spec() -> Seq<DocV> {
    sort_by_index_key(manifest().push(known_issues_v()))
}

/// The position of `slug` in the manifest, or `usize::MAX`.
fn position_in_manifest(table: &Vec<Doc>, slug: &str) -> (p: usize)
    requires
        table@.len() == manifest().len(),
        forall|k: int| 0 <= k < table@.len() ==> doc_view(#[trigger] table@[k]) == manifest()[k],
    ensures
        p as nat == match slug_position(manifest(), slug@) {
            Some(p) => p,
            None => usize::MAX as nat,
        },
{
    let key = chars_of(slug);
    let mut i: usize = 0;
    assert(manifest().skip(0) =~= manifest());
    while i < table.len()
        invariant
            i <= table@.len() == manifest().len(),
            forall|k: int| 0 <= k < table@.len() ==> doc_view(#[trigger] table@[k]) == manifest()[k],
            key@ == slug@,
            slug_position(manifest(), slug@) == match slug_position(manifest().skip(i as int), slug@) {
                Some(p) => Some((p + i) as nat),
                None => None::<nat>,
            },
        decreases table@.len() - i,
    {
        let ghost rest = manifest().skip(i as int);
        assert(rest.drop_first() =~= manifest().skip(i + 1));
        assert(rest[0] == manifest()[i as int]);
        assert(doc_view(table@[i as int]) == manifest()[i as int]);
        let here = chars_of(table[i].slug);
        if eq_vec(&here, &key) {
            return i;
        }
        i += 1;
    }
    proof {
        assert(manifest().skip(i as int).len() == 0);
    }
    usize::MAX
}

fn key_of(table: &Vec<Doc>, d: &Doc) -> (k: (u32, usize))
    requires
        table@.len() == manifest().len(),
        forall|k: int| 0 <= k < table@.len() ==> doc_view(#[trigger] table@[k]) == manifest()[k],
    ensures
        (k.0 as nat, k.1 as nat) == index_key(doc_view(*d)),
{
    (d.section.weight(), position_in_manifest(table, d.slug))
}

/// Every document, in index order.
pub fn all() -> (out: Vec<Doc>)
    ensures
        out@.len() == all_spec().len(),
        forall|k: int| 0 <= k < out@.len() ==> doc_view(#[trigger] out@[k]) == all_spec()[k],
{
    let table = docs();
    let mut input = docs();
    let ghost before = input@;
    input.push(known_issues());
    let ghost src = manifest().push(known_issues_v());
    assert forall|k: int| 0 <= k < input@.len() implies doc_view(#[trigger] input@[k]) == src[k] by {
        if k < before.len() {
            assert(input@[k] == before[k]);
        }
    }
    let mut out: Vec<Doc> = Vec::new();
    let mut i: usize = 0;
    while i < input.len()
        invariant
            i <= input@.len() == src.len(),
            forall|k: int| 0 <= k < input@.len() ==> doc_view(#[trigger] input@[k]) == src[k],
            table@.len() == manifest().len(),
            forall|k: int| 0 <= k < table@.len() ==> doc_view(#[trigger] table@[k]) == manifest()[k],
            out@.len() == sort_by_index_key(src.take(i as int)).len(),
            forall|k: int|
                0 <= k < out@.len() ==> doc_view(#[trigger] out@[k]) == sort_by_index_key(
                    src.take(i as int),
                )[k],
        decreases input@.len() - i,
    {
        let x = input[i];
        let kx = key_of(&table, &x);
        assert(src.take(i + 1).drop_last() =~= src.take(i as int));
        assert(src.take(i + 1).last() == src[i as int]);
        let ghost sorted = sort_by_index_key(src.take(i as int));
        let ghost target = insert_by_key(sorted, src[i as int]);
        // Walk back from the end past every entry whose key is above x's.
        let mut j: usize = out.len();
        assert(sorted.take(j as int) =~= sorted);
        assert(sorted + sorted.skip(j as int) =~= sorted);
        loop
            invariant
                i < src.len(),
                j <= out@.len() == sorted.len(),
                forall|k: int| 0 <= k < out@.len() ==> doc_view(#[trigger] out@[k]) == sorted[k],
                table@.len() == manifest().len(),
                forall|k: int| 0 <= k < table@.len() ==> doc_view(#[trigger] table@[k]) == manifest()[k],
                (kx.0 as nat, kx.1 as nat) == index_key(src[i as int]),
                target == insert_by_key(sorted.take(j as int), src[i as int]) + sorted.skip(j as int),
            ensures
                j <= out@.len() == sorted.len(),
                target == insert_by_key(sorted.take(j as int), src[i as int]) + sorted.skip(j as int),
                j == 0 || key_le(index_key(sorted[j - 1]), index_key(src[i as int])),
            decreases j,
        {
            if j == 0 {
                break;
            }
            let kj = key_of(&table, &out[j - 1]);
            if kj.0 < kx.0 || (kj.0 == kx.0 && kj.1 <= kx.1) {
                break;
            }
            proof {
                let p = sorted.take(j as int);
                assert(p.last() == sorted[j - 1]);
                assert(p.drop_last() =~= sorted.take(j - 1));
                assert(sorted.skip(j - 1) =~= seq![sorted[j - 1]] + sorted.skip(j as int));
                assert(insert_by_key(p, src[i as int]) == insert_by_key(sorted.take(j - 1), src[i as int]).push(sorted[j - 1]));
                assert(insert_by_key(sorted.take(j - 1), src[i as int]).push(sorted[j - 1]) + sorted.skip(j as int)
                    =~= insert_by_key(sorted.take(j - 1), src[i as int]) + sorted.skip(j - 1));
            }
            j -= 1;
        }
        proof {
            let p = sorted.take(j as int);
            if j > 0 {
                assert(p.last() == sorted[j - 1]);
            }
            assert(insert_by_key(p, src[i as int]) =~= p.push(src[i as int]));
        }
        out.insert(j, x);
        proof {
            assert(target =~= sorted.take(j as int).push(src[i as int]) + sorted.skip(j as int));
            assert forall|k: int| 0 <= k < out@.len() implies doc_view(#[trigger] out@[k]) == target[k] by {
                if k < j {
                } else if k == j {
                } else {
                }
            }
        }
        i += 1;
    }
    proof {
        assert(src.take(input@.len() as int) =~= src);
    }
    out
}

// ───────────────────────── laws ─────────────────────────

/// Entries appear in non-decreasing `index_key` order.
pub open spec fn in_index_order(s: Seq<DocV>) -> bool {
    forall|i: int, j: int|
        0 <= i < j < s.len() ==> key_le(index_key(#[trigger] s[i]), index_key(#[trigger] s[j]))
}

proof fn lemma_insert_by_key(s: Seq<DocV>, x: DocV)
    ensures
        insert_by_key(s, x).len() == s.len() + 1,
        insert_by_key(s, x).to_multiset() == s.to_multiset().insert(x),
        forall|k: int|
            0 <= k < insert_by_key(s, x).len() ==> #[trigger] insert_by_key(s, x)[k] == x
                || s.contains(insert_by_key(s, x)[k]),
        in_index_order(s) ==> in_index_order(insert_by_key(s, x)),
    decreases s.len(),
{
    broadcast use vstd::seq_lib::group_to_multiset_ensures;

    if s.len() == 0 {
        assert(seq![x] =~= Seq::<DocV>::empty().push(x));
    } else if key_le(index_key(s.last()), index_key(x)) {
        let r = s.push(x);
        assert forall|k: int| 0 <= k < r.len() implies #[trigger] r[k] == x || s.contains(r[k]) by {
            if k < s.len() {
                assert(r[k] == s[k]);
            }
        }
    } else {
        let p = s.drop_last();
        lemma_insert_by_key(p, x);
        let q = insert_by_key(p, x);
        let r = q.push(s.last());
        assert(s =~= p.push(s.last()));
        assert forall|k: int| 0 <= k < r.len() implies #[trigger] r[k] == x || s.contains(r[k]) by {
            if k < q.len() {
                assert(r[k] == q[k]);
                if q[k] != x {
                    let m = choose|m: int| 0 <= m < p.len() && p[m] == q[k];
                    assert(s[m] == p[m]);
                }
            } else {
                assert(s[s.len() - 1] == s.last());
            }
        }
        if in_index_order(s) {
            assert(in_index_order(p)) by {
                assert forall|i: int, j: int| 0 <= i < j < p.len() implies key_le(
                    index_key(#[trigger] p[i]),
                    index_key(#[trigger] p[j]),
                ) by {
                    assert(p[i] == s[i] && p[j] == s[j]);
                }
            }
            assert forall|i: int, j: int| 0 <= i < j < r.len() implies key_le(
                index_key(#[trigger] r[i]),
                index_key(#[trigger] r[j]),
            ) by {
                if j == r.len() - 1 {
                    assert(r[j] == s.last());
                    assert(r[i] == q[i]);
                    if q[i] == x {
                    } else {
                        let m = choose|m: int| 0 <= m < p.len() && p[m] == q[i];
                        assert(s[m] == p[m]);
                        assert(s[s.len() - 1] == s.last());
                    }
                } else {
                    assert(r[i] == q[i] && r[j] == q[j]);
                }
            }
        }
    }
}

proof fn lemma_sort_by_index_key(s: Seq<DocV>)
    ensures
        in_index_order(sort_by_index_key(s)),
        sort_by_index_key(s).to_multiset() == s.to_multiset(),
    decreases s.len(),
{
    broadcast use vstd::seq_lib::group_to_multiset_ensures;

    if s.len() > 0 {
        lemma_sort_by_index_key(s.drop_last());
        lemma_insert_by_key(sort_by_index_key(s.drop_last()), s.last());
        assert(s =~= s.drop_last().push(s.last()));
    }
}

/// The index lists every document of the manifest and the known-issues page,
/// each as often as it is declared, in section order and, within a section, in
/// the order the manifest gives.
pub proof fn law_index_order()
    ensures
        in_index_order(all_spec()),
        all_spec().to_multiset() == manifest().push(known_issues_v()).to_multiset(),
{
    lemma_sort_by_index_key(manifest().push(known_issues_v()));
}

/// A file name with the `.md` extension.
pub open spec fn is_markdown_name(s: Seq<char>) -> bool {
    s.len() >= 3 && s[s.len() - 3] == '.' && s[s.len() - 2] == 'm' && s[s.len() - 1] == 'd'
}

proof fn lemma_declared_sources_are_markdown()
    ensures
        forall|j: int|
            0 <= j < manifest().push(known_issues_v()).len() ==> is_markdown_name(
                #[trigger] manifest().push(known_issues_v())[j].0,
            ),
{
    reveal_strlit("README.md");
    reveal_strlit("INSTALL.md");
    reveal_strlit("docs/building-your-first-site.md");
    reveal_strlit("docs/docker-development.md");
    reveal_strlit("docs/tutorial/part-01-hello-trovato.md");
    reveal_strlit("docs/tutorial/part-02-ritrovo-importer.md");
    reveal_strlit("docs/tutorial/part-03-look-and-feel.md");
    reveal_strlit("docs/tutorial/part-04-editorial-engine.md");
    reveal_strlit("docs/tutorial/part-05-forms-and-input.md");
    reveal_strlit("docs/tutorial/part-06-community.md");
    reveal_strlit("docs/tutorial/part-07-going-global.md");
    reveal_strlit("docs/tutorial/part-08-production-ready.md");
    reveal_strlit("docs/tutorial/part-09-ai-and-search.md");
    reveal_strlit("docs/plugin-development.md");
    reveal_strlit("docs/plugin-quick-reference.md");
    reveal_strlit("docs/plugin-error-codes.md");
    reveal_strlit("docs/plugin-queue.md");
    reveal_strlit("docs/api-reference.md");
    reveal_strlit("docs/design/Overview.md");
    reveal_strlit("docs/design/Architecture.md");
    reveal_strlit("docs/design/Terminology.md");
    reveal_strlit("docs/design/Design-Content-Model.md");
    reveal_strlit("docs/design/Design-Query-Engine.md");
    reveal_strlit("docs/design/Design-Plugin-System.md");
    reveal_strlit("docs/design/Design-Plugin-SDK.md");
    reveal_strlit("docs/design/Design-Render-Theme.md");
    reveal_strlit("docs/design/Design-Web-Layer.md");
    reveal_strlit("docs/design/Design-Infrastructure.md");
    reveal_strlit("docs/design/search-architecture.md");
    reveal_strlit("docs/design/ai-integration.md");
    reveal_strlit("docs/design/Versioning.md");
    reveal_strlit("docs/coding-standards.md");
    reveal_strlit("ROADMAP.md");
    reveal_strlit("CONTRIBUTING.md");
    reveal_strlit("CODE_OF_CONDUCT.md");
    reveal_strlit("KNOWN-ISSUES.md");
    let d = manifest().push(known_issues_v());
    assert(d.len() == 36);
    assert(is_markdown_name(d[0].0));
    assert(is_markdown_name(d[1].0));
    assert(is_markdown_name(d[2].0));
    assert(is_markdown_name(d[3].0));
    assert(is_markdown_name(d[4].0));
    assert(is_markdown_name(d[5].0));
    assert(is_markdown_name(d[6].0));
    assert(is_markdown_name(d[7].0));
    assert(is_markdown_name(d[8].0));
    assert(is_markdown_name(d[9].0));
    assert(is_markdown_name(d[10].0));
    assert(is_markdown_name(d[11].0));
    assert(is_markdown_name(d[12].0));
    assert(is_markdown_name(d[13].0));
    assert(is_markdown_name(d[14].0));
    assert(is_markdown_name(d[15].0));
    assert(is_markdown_name(d[16].0));
    assert(is_markdown_name(d[17].0));
    assert(is_markdown_name(d[18].0));
    assert(is_markdown_name(d[19].0));
    assert(is_markdown_name(d[20].0));
    assert(is_markdown_name(d[21].0));
    assert(is_markdown_name(d[22].0));
    assert(is_markdown_name(d[23].0));
    assert(is_markdown_name(d[24].0));
    assert(is_markdown_name(d[25].0));
    assert(is_markdown_name(d[26].0));
    assert(is_markdown_name(d[27].0));
    assert(is_markdown_name(d[28].0));
    assert(is_markdown_name(d[29].0));
    assert(is_markdown_name(d[30].0));
    assert(is_markdown_name(d[31].0));
    assert(is_markdown_name(d[32].0));
    assert(is_markdown_name(d[33].0));
    assert(is_markdown_name(d[34].0));
    assert(is_markdown_name(d[35].0));
    assert forall|j: int| 0 <= j < d.len() implies is_markdown_name(#[trigger] d[j].0) by {
        if j == 0 {
        } else if j == 1 {
        } else if j == 2 {
        } else if j == 3 {
        } else if j == 4 {
        } else if j == 5 {
        } else if j == 6 {
        } else if j == 7 {
        } else if j == 8 {
        } else if j == 9 {
        } else if j == 10 {
        } else if j == 11 {
        } else if j == 12 {
        } else if j == 13 {
        } else if j == 14 {
        } else if j == 15 {
        } else if j == 16 {
        } else if j == 17 {
        } else if j == 18 {
        } else if j == 19 {
        } else if j == 20 {
        } else if j == 21 {
        } else if j == 22 {
        } else if j == 23 {
        } else if j == 24 {
        } else if j == 25 {
        } else if j == 26 {
        } else if j == 27 {
        } else if j == 28 {
        } else if j == 29 {
        } else if j == 30 {
        } else if j == 31 {
        } else if j == 32 {
        } else if j == 33 {
        } else if j == 34 {
        } else if j == 35 {
        }
    }
}

/// Every mirrored document is a markdown file.
pub proof fn lemma_sources_are_markdown()
    ensures
        forall|i: int| 0 <= i < all_spec().len() ==> is_markdown_name(#[trigger] all_spec()[i].0),
{
    broadcast use vstd::seq_lib::group_to_multiset_ensures;

    law_index_order();
    lemma_declared_sources_are_markdown();
    let d = manifest().push(known_issues_v());
    assert forall|i: int| 0 <= i < all_spec().len() implies is_markdown_name(#[trigger] all_spec()[i].0) by {
        let a = all_spec();
        let x = a[i];
        assert(a[i] == x);
        assert(a.contains(x));
        assert(a.to_multiset().count(x) > 0);
        assert(d.contains(x));
        let j = choose|j: int| 0 <= j < d.len() && d[j] == x;
        assert(is_markdown_name(d[j].0));
    }
}

// ───────────────────────── distinctness ─────────────────────────

/// The first position of `x` in `t`, or the length of `t` where `x` is absent.
pub open spec fn first_index<T>(t: Seq<T>, x: T) -> int
    decreases t.len(),
{
    if t.len() == 0 || t[0] == x {
        0
    } else {
        1 + first_index(t.drop_first(), x)
    }
}

proof fn lemma_first_index_distinct<T>(t: Seq<T>)
    requires
        forall|i: int| 0 <= i < t.len() ==> first_index(t, #[trigger] t[i]) == i,
    ensures
        t.no_duplicates(),
{
    assert forall|i: int, j: int| 0 <= i < t.len() && 0 <= j < t.len() && i != j implies t[i] != t[j] by {
        if t[i] == t[j] {
            assert(first_index(t, t[i]) == first_index(t, t[j]));
        }
    }
}

/// A short fingerprint of a text: its length, its `a`-th character and its
/// `b`-th character from the end.
pub open spec fn fingerprint(s: Seq<char>, a: int, b: int) -> (nat, char, char) {
    (s.len(), s[a], s[s.len() - 1 - b])
}

/// The declared documents, the manifest and then the known-issues page.
pub open spec fn declared() -> Seq<DocV> {
    manifest().push(known_issues_v())
}

/// The file name of a document: its source after the last `/`.
pub open spec fn file_name(d: DocV) -> Seq<char> {
    crate::text::after_last(d.0, '/')
}

/// The fingerprints of the declared slugs, in declared order.
spec fn slug_prints() -> Seq<(nat, char, char)> {
    seq![(6nat, 'r', 'd'), (7nat, 'i', 'a'), (24nat, 'b', 'i'), (18nat, 'd', 'e'), (25nat, 't', 'a'), (20nat, 't', 't'), (25nat, 't', 'e'), (28nat, 't', 'i'), (27nat, 't', 'p'), (21nat, 't', 'i'), (24nat, 't', 'b'), (28nat, 't', 'a'), (25nat, 't', 'r'), (18nat, 'p', 'e'), (22nat, 'p', 'n'), (18nat, 'p', 'd'), (12nat, 'p', 'e'), (13nat, 'a', 'n'), (15nat, 'd', 'i'), (19nat, 'd', 'u'), (18nat, 'd', 'o'), (20nat, 'd', 'd'), (19nat, 'd', 'i'), (20nat, 'd', 't'), (17nat, 'd', 's'), (19nat, 'd', 'e'), (16nat, 'd', 'y'), (21nat, 'd', 'u'), (13nat, 'd', 'r'), (9nat, 'd', '-'), (17nat, 'd', 'i'), (16nat, 'c', 'r'), (7nat, 'r', 'm'), (12nat, 'c', 'i'), (15nat, 'c', 'u'), (12nat, 'k', 'u')]
}

/// The fingerprints of the declared sources, in declared order.
spec fn source_prints() -> Seq<(nat, char, char)> {
    seq![(9nat, 'E', 'D'), (10nat, 'L', 'A'), (32nat, 'b', 'i'), (26nat, 'd', 'e'), (38nat, 't', 'a'), (41nat, 't', 't'), (38nat, 't', 'e'), (41nat, 't', 'i'), (40nat, 't', 'p'), (34nat, 't', 'i'), (37nat, 't', 'b'), (41nat, 't', 'a'), (38nat, 't', 'r'), (26nat, 'p', 'e'), (30nat, 'p', 'n'), (26nat, 'p', 'd'), (20nat, 'p', 'e'), (21nat, 'a', 'n'), (23nat, 'd', 'i'), (27nat, 'd', 'u'), (26nat, 'd', 'o'), (35nat, 'd', 'd'), (34nat, 'd', 'i'), (35nat, 'd', 't'), (32nat, 'd', 'S'), (34nat, 'd', 'e'), (31nat, 'd', 'y'), (36nat, 'd', 'u'), (34nat, 'd', 'u'), (29nat, 'd', 'i'), (25nat, 'd', 'i'), (24nat, 'c', 'r'), (10nat, 'A', 'M'), (15nat, 'I', 'I'), (18nat, 'O', 'U'), (15nat, '-', 'U')]
}

/// The fingerprints of the declared file names, in declared order.
spec fn file_prints() -> Seq<(nat, char, char)> {
    seq![(9nat, 'R', 'D'), (10nat, 'I', 'A'), (27nat, 'b', 'i'), (21nat, 'd', 'e'), (24nat, 'p', 'a'), (27nat, 'p', 't'), (24nat, 'p', 'e'), (27nat, 'p', 'i'), (26nat, 'p', 'p'), (20nat, 'p', 'i'), (23nat, 'p', 'b'), (27nat, 'p', 'a'), (24nat, 'p', 'r'), (21nat, 'p', 'e'), (25nat, 'p', 'n'), (21nat, 'p', 'd'), (15nat, 'p', 'e'), (16nat, 'a', 'n'), (11nat, 'O', 'i'), (15nat, 'A', 'u'), (14nat, 'T', 'o'), (23nat, 'D', 'd'), (22nat, 'D', 'i'), (23nat, 'D', 't'), (20nat, 'D', 'S'), (22nat, 'D', 'e'), (19nat, 'D', 'y'), (24nat, 'D', 'u'), (22nat, 's', 'u'), (17nat, 'a', 'i'), (13nat, 'V', 'i'), (19nat, 'c', 'r'), (10nat, 'R', 'M'), (15nat, 'C', 'I'), (18nat, 'C', 'U'), (15nat, 'K', 'U')]
}

#[verifier::spinoff_prover]
#[verifier::rlimit(60)]
proof fn lemma_slug_prints_are_distinct()
    ensures
        slug_prints().no_duplicates(),
{
    reveal_with_fuel(first_index, 37);
    let a = slug_prints();
    assert forall|i: int| 0 <= i < a.len() implies first_index(a, #[trigger] a[i]) == i by {
        // Entry by entry, each checked against its own text.
        if i == 0 {} else if i == 1 {} else if i == 2 {} else if i == 3 {} else if i == 4 {} else if i == 5 {} else
        if i == 6 {} else if i == 7 {} else if i == 8 {} else if i == 9 {} else if i == 10 {} else if i == 11 {} else
        if i == 12 {} else if i == 13 {} else if i == 14 {} else if i == 15 {} else if i == 16 {} else if i == 17 {} else
        if i == 18 {} else if i == 19 {} else if i == 20 {} else if i == 21 {} else if i == 22 {} else if i == 23 {} else
        if i == 24 {} else if i == 25 {} else if i == 26 {} else if i == 27 {} else if i == 28 {} else if i == 29 {} else
        if i == 30 {} else if i == 31 {} else if i == 32 {} else if i == 33 {} else if i == 34 {} else if i == 35 {}
    }
    lemma_first_index_distinct(a);
}

#[verifier::spinoff_prover]
#[verifier::rlimit(60)]
proof fn lemma_source_prints_are_distinct()
    ensures
        source_prints().no_duplicates(),
{
    reveal_with_fuel(first_index, 37);
    let a = source_prints();
    assert forall|i: int| 0 <= i < a.len() implies first_index(a, #[trigger] a[i]) == i by {
        // Entry by entry, each checked against its own text.
        if i == 0 {} else if i == 1 {} else if i == 2 {} else if i == 3 {} else if i == 4 {} else if i == 5 {} else
        if i == 6 {} else if i == 7 {} else if i == 8 {} else if i == 9 {} else if i == 10 {} else if i == 11 {} else
        if i == 12 {} else if i == 13 {} else if i == 14 {} else if i == 15 {} else if i == 16 {} else if i == 17 {} else
        if i == 18 {} else if i == 19 {} else if i == 20 {} else if i == 21 {} else if i == 22 {} else if i == 23 {} else
        if i == 24 {} else if i == 25 {} else if i == 26 {} else if i == 27 {} else if i == 28 {} else if i == 29 {} else
        if i == 30 {} else if i == 31 {} else if i == 32 {} else if i == 33 {} else if i == 34 {} else if i == 35 {}
    }
    lemma_first_index_distinct(a);
}

#[verifier::spinoff_prover]
#[verifier::rlimit(60)]
proof fn lemma_file_prints_are_distinct()
    ensures
        file_prints().no_duplicates(),
{
    reveal_with_fuel(first_index, 37);
    let a = file_prints();
    assert forall|i: int| 0 <= i < a.len() implies first_index(a, #[trigger] a[i]) == i by {
        // Entry by entry, each checked against its own text.
        if i == 0 {} else if i == 1 {} else if i == 2 {} else if i == 3 {} else if i == 4 {} else if i == 5 {} else
        if i == 6 {} else if i == 7 {} else if i == 8 {} else if i == 9 {} else if i == 10 {} else if i == 11 {} else
        if i == 12 {} else if i == 13 {} else if i == 14 {} else if i == 15 {} else if i == 16 {} else if i == 17 {} else
        if i == 18 {} else if i == 19 {} else if i == 20 {} else if i == 21 {} else if i == 22 {} else if i == 23 {} else
        if i == 24 {} else if i == 25 {} else if i == 26 {} else if i == 27 {} else if i == 28 {} else if i == 29 {} else
        if i == 30 {} else if i == 31 {} else if i == 32 {} else if i == 33 {} else if i == 34 {} else if i == 35 {}
    }
    lemma_first_index_distinct(a);
}

proof fn lemma_slug_prints()
    ensures
        forall|i: int| 0 <= i < declared().len() ==> fingerprint(#[trigger] declared()[i].1, 0, 2) == slug_prints()[i],
{
    reveal_strlit("readme");
    reveal_strlit("install");
    reveal_strlit("building-your-first-site");
    reveal_strlit("docker-development");
    reveal_strlit("tutorial-01-hello-trovato");
    reveal_strlit("tutorial-02-importer");
    reveal_strlit("tutorial-03-look-and-feel");
    reveal_strlit("tutorial-04-editorial-engine");
    reveal_strlit("tutorial-05-forms-and-input");
    reveal_strlit("tutorial-06-community");
    reveal_strlit("tutorial-07-going-global");
    reveal_strlit("tutorial-08-production-ready");
    reveal_strlit("tutorial-09-ai-and-search");
    reveal_strlit("plugin-development");
    reveal_strlit("plugin-quick-reference");
    reveal_strlit("plugin-error-codes");
    reveal_strlit("plugin-queue");
    reveal_strlit("api-reference");
    reveal_strlit("design-overview");
    reveal_strlit("design-architecture");
    reveal_strlit("design-terminology");
    reveal_strlit("design-content-model");
    reveal_strlit("design-query-engine");
    reveal_strlit("design-plugin-system");
    reveal_strlit("design-plugin-sdk");
    reveal_strlit("design-render-theme");
    reveal_strlit("design-web-layer");
    reveal_strlit("design-infrastructure");
    reveal_strlit("design-search");
    reveal_strlit("design-ai");
    reveal_strlit("design-versioning");
    reveal_strlit("coding-standards");
    reveal_strlit("roadmap");
    reveal_strlit("contributing");
    reveal_strlit("code-of-conduct");
    reveal_strlit("known-issues");
    let t = declared();
    assert forall|i: int| 0 <= i < t.len() implies fingerprint(#[trigger] t[i].1, 0, 2) == slug_prints()[i] by {
        // Entry by entry, each checked against its own text.
        if i == 0 {} else if i == 1 {} else if i == 2 {} else if i == 3 {} else if i == 4 {} else if i == 5 {} else
        if i == 6 {} else if i == 7 {} else if i == 8 {} else if i == 9 {} else if i == 10 {} else if i == 11 {} else
        if i == 12 {} else if i == 13 {} else if i == 14 {} else if i == 15 {} else if i == 16 {} else if i == 17 {} else
        if i == 18 {} else if i == 19 {} else if i == 20 {} else if i == 21 {} else if i == 22 {} else if i == 23 {} else
        if i == 24 {} else if i == 25 {} else if i == 26 {} else if i == 27 {} else if i == 28 {} else if i == 29 {} else
        if i == 30 {} else if i == 31 {} else if i == 32 {} else if i == 33 {} else if i == 34 {} else if i == 35 {}
    }
}

proof fn lemma_source_prints()
    ensures
        forall|i: int| 0 <= i < declared().len() ==> fingerprint(#[trigger] declared()[i].0, 5, 5) == source_prints()[i],
{
    reveal_strlit("README.md");
    reveal_strlit("INSTALL.md");
    reveal_strlit("docs/building-your-first-site.md");
    reveal_strlit("docs/docker-development.md");
    reveal_strlit("docs/tutorial/part-01-hello-trovato.md");
    reveal_strlit("docs/tutorial/part-02-ritrovo-importer.md");
    reveal_strlit("docs/tutorial/part-03-look-and-feel.md");
    reveal_strlit("docs/tutorial/part-04-editorial-engine.md");
    reveal_strlit("docs/tutorial/part-05-forms-and-input.md");
    reveal_strlit("docs/tutorial/part-06-community.md");
    reveal_strlit("docs/tutorial/part-07-going-global.md");
    reveal_strlit("docs/tutorial/part-08-production-ready.md");
    reveal_strlit("docs/tutorial/part-09-ai-and-search.md");
    reveal_strlit("docs/plugin-development.md");
    reveal_strlit("docs/plugin-quick-reference.md");
    reveal_strlit("docs/plugin-error-codes.md");
    reveal_strlit("docs/plugin-queue.md");
    reveal_strlit("docs/api-reference.md");
    reveal_strlit("docs/design/Overview.md");
    reveal_strlit("docs/design/Architecture.md");
    reveal_strlit("docs/design/Terminology.md");
    reveal_strlit("docs/design/Design-Content-Model.md");
    reveal_strlit("docs/design/Design-Query-Engine.md");
    reveal_strlit("docs/design/Design-Plugin-System.md");
    reveal_strlit("docs/design/Design-Plugin-SDK.md");
    reveal_strlit("docs/design/Design-Render-Theme.md");
    reveal_strlit("docs/design/Design-Web-Layer.md");
    reveal_strlit("docs/design/Design-Infrastructure.md");
    reveal_strlit("docs/design/search-architecture.md");
    reveal_strlit("docs/design/ai-integration.md");
    reveal_strlit("docs/design/Versioning.md");
    reveal_strlit("docs/coding-standards.md");
    reveal_strlit("ROADMAP.md");
    reveal_strlit("CONTRIBUTING.md");
    reveal_strlit("CODE_OF_CONDUCT.md");
    reveal_strlit("KNOWN-ISSUES.md");
    let t = declared();
    assert forall|i: int| 0 <= i < t.len() implies fingerprint(#[trigger] t[i].0, 5, 5) == source_prints()[i] by {
        // Entry by entry, each checked against its own text.
        if i == 0 {} else if i == 1 {} else if i == 2 {} else if i == 3 {} else if i == 4 {} else if i == 5 {} else
        if i == 6 {} else if i == 7 {} else if i == 8 {} else if i == 9 {} else if i == 10 {} else if i == 11 {} else
        if i == 12 {} else if i == 13 {} else if i == 14 {} else if i == 15 {} else if i == 16 {} else if i == 17 {} else
        if i == 18 {} else if i == 19 {} else if i == 20 {} else if i == 21 {} else if i == 22 {} else if i == 23 {} else
        if i == 24 {} else if i == 25 {} else if i == 26 {} else if i == 27 {} else if i == 28 {} else if i == 29 {} else
        if i == 30 {} else if i == 31 {} else if i == 32 {} else if i == 33 {} else if i == 34 {} else if i == 35 {}
    }
}

proof fn lemma_file_name_of(dir: Seq<char>, file: Seq<char>)
    requires
        dir.len() == 0 || dir.last() == '/',
        forall|j: int| 0 <= j < file.len() ==> file[j] != '/',
    ensures
        crate::text::after_last(dir + file, '/') == file,
{
    crate::text::lemma_after_last_none(file, '/');
    if dir.len() == 0 {
        assert(dir + file =~= file);
    } else {
        crate::text::lemma_after_last_behind(dir, file, '/');
    }
}

proof fn lemma_file_prints()
    ensures
        forall|i: int| 0 <= i < declared().len() ==> fingerprint(file_name(#[trigger] declared()[i]), 0, 5) == file_prints()[i],
{
    reveal_strlit("Architecture.md");
    reveal_strlit("CODE_OF_CONDUCT.md");
    reveal_strlit("CONTRIBUTING.md");
    reveal_strlit("Design-Content-Model.md");
    reveal_strlit("Design-Infrastructure.md");
    reveal_strlit("Design-Plugin-SDK.md");
    reveal_strlit("Design-Plugin-System.md");
    reveal_strlit("Design-Query-Engine.md");
    reveal_strlit("Design-Render-Theme.md");
    reveal_strlit("Design-Web-Layer.md");
    reveal_strlit("INSTALL.md");
    reveal_strlit("KNOWN-ISSUES.md");
    reveal_strlit("Overview.md");
    reveal_strlit("README.md");
    reveal_strlit("ROADMAP.md");
    reveal_strlit("Terminology.md");
    reveal_strlit("Versioning.md");
    reveal_strlit("ai-integration.md");
    reveal_strlit("api-reference.md");
    reveal_strlit("building-your-first-site.md");
    reveal_strlit("coding-standards.md");
    reveal_strlit("docker-development.md");
    reveal_strlit("docs/");
    reveal_strlit("docs/api-reference.md");
    reveal_strlit("docs/building-your-first-site.md");
    reveal_strlit("docs/coding-standards.md");
    reveal_strlit("docs/design/");
    reveal_strlit("docs/design/Architecture.md");
    reveal_strlit("docs/design/Design-Content-Model.md");
    reveal_strlit("docs/design/Design-Infrastructure.md");
    reveal_strlit("docs/design/Design-Plugin-SDK.md");
    reveal_strlit("docs/design/Design-Plugin-System.md");
    reveal_strlit("docs/design/Design-Query-Engine.md");
    reveal_strlit("docs/design/Design-Render-Theme.md");
    reveal_strlit("docs/design/Design-Web-Layer.md");
    reveal_strlit("docs/design/Overview.md");
    reveal_strlit("docs/design/Terminology.md");
    reveal_strlit("docs/design/Versioning.md");
    reveal_strlit("docs/design/ai-integration.md");
    reveal_strlit("docs/design/search-architecture.md");
    reveal_strlit("docs/docker-development.md");
    reveal_strlit("docs/plugin-development.md");
    reveal_strlit("docs/plugin-error-codes.md");
    reveal_strlit("docs/plugin-queue.md");
    reveal_strlit("docs/plugin-quick-reference.md");
    reveal_strlit("docs/tutorial/");
    reveal_strlit("docs/tutorial/part-01-hello-trovato.md");
    reveal_strlit("docs/tutorial/part-02-ritrovo-importer.md");
    reveal_strlit("docs/tutorial/part-03-look-and-feel.md");
    reveal_strlit("docs/tutorial/part-04-editorial-engine.md");
    reveal_strlit("docs/tutorial/part-05-forms-and-input.md");
    reveal_strlit("docs/tutorial/part-06-community.md");
    reveal_strlit("docs/tutorial/part-07-going-global.md");
    reveal_strlit("docs/tutorial/part-08-production-ready.md");
    reveal_strlit("docs/tutorial/part-09-ai-and-search.md");
    reveal_strlit("part-01-hello-trovato.md");
    reveal_strlit("part-02-ritrovo-importer.md");
    reveal_strlit("part-03-look-and-feel.md");
    reveal_strlit("part-04-editorial-engine.md");
    reveal_strlit("part-05-forms-and-input.md");
    reveal_strlit("part-06-community.md");
    reveal_strlit("part-07-going-global.md");
    reveal_strlit("part-08-production-ready.md");
    reveal_strlit("part-09-ai-and-search.md");
    reveal_strlit("plugin-development.md");
    reveal_strlit("plugin-error-codes.md");
    reveal_strlit("plugin-queue.md");
    reveal_strlit("plugin-quick-reference.md");
    reveal_strlit("search-architecture.md");
    let t = declared();
    lemma_file_name_of(Seq::empty(), "README.md"@);
    assert(t[0].0 =~= Seq::<char>::empty() + "README.md"@);
    lemma_file_name_of(Seq::empty(), "INSTALL.md"@);
    assert(t[1].0 =~= Seq::<char>::empty() + "INSTALL.md"@);
    lemma_file_name_of("docs/"@, "building-your-first-site.md"@);
    assert(t[2].0 =~= "docs/"@ + "building-your-first-site.md"@);
    lemma_file_name_of("docs/"@, "docker-development.md"@);
    assert(t[3].0 =~= "docs/"@ + "docker-development.md"@);
    lemma_file_name_of("docs/tutorial/"@, "part-01-hello-trovato.md"@);
    assert(t[4].0 =~= "docs/tutorial/"@ + "part-01-hello-trovato.md"@);
    lemma_file_name_of("docs/tutorial/"@, "part-02-ritrovo-importer.md"@);
    assert(t[5].0 =~= "docs/tutorial/"@ + "part-02-ritrovo-importer.md"@);
    lemma_file_name_of("docs/tutorial/"@, "part-03-look-and-feel.md"@);
    assert(t[6].0 =~= "docs/tutorial/"@ + "part-03-look-and-feel.md"@);
    lemma_file_name_of("docs/tutorial/"@, "part-04-editorial-engine.md"@);
    assert(t[7].0 =~= "docs/tutorial/"@ + "part-04-editorial-engine.md"@);
    lemma_file_name_of("docs/tutorial/"@, "part-05-forms-and-input.md"@);
    assert(t[8].0 =~= "docs/tutorial/"@ + "part-05-forms-and-input.md"@);
    lemma_file_name_of("docs/tutorial/"@, "part-06-community.md"@);
    assert(t[9].0 =~= "docs/tutorial/"@ + "part-06-community.md"@);
    lemma_file_name_of("docs/tutorial/"@, "part-07-going-global.md"@);
    assert(t[10].0 =~= "docs/tutorial/"@ + "part-07-going-global.md"@);
    lemma_file_name_of("docs/tutorial/"@, "part-08-production-ready.md"@);
    assert(t[11].0 =~= "docs/tutorial/"@ + "part-08-production-ready.md"@);
    lemma_file_name_of("docs/tutorial/"@, "part-09-ai-and-search.md"@);
    assert(t[12].0 =~= "docs/tutorial/"@ + "part-09-ai-and-search.md"@);
    lemma_file_name_of("docs/"@, "plugin-development.md"@);
    assert(t[13].0 =~= "docs/"@ + "plugin-development.md"@);
    lemma_file_name_of("docs/"@, "plugin-quick-reference.md"@);
    assert(t[14].0 =~= "docs/"@ + "plugin-quick-reference.md"@);
    lemma_file_name_of("docs/"@, "plugin-error-codes.md"@);
    assert(t[15].0 =~= "docs/"@ + "plugin-error-codes.md"@);
    lemma_file_name_of("docs/"@, "plugin-queue.md"@);
    assert(t[16].0 =~= "docs/"@ + "plugin-queue.md"@);
    lemma_file_name_of("docs/"@, "api-reference.md"@);
    assert(t[17].0 =~= "docs/"@ + "api-reference.md"@);
    lemma_file_name_of("docs/design/"@, "Overview.md"@);
    assert(t[18].0 =~= "docs/design/"@ + "Overview.md"@);
    lemma_file_name_of("docs/design/"@, "Architecture.md"@);
    assert(t[19].0 =~= "docs/design/"@ + "Architecture.md"@);
    lemma_file_name_of("docs/design/"@, "Terminology.md"@);
    assert(t[20].0 =~= "docs/design/"@ + "Terminology.md"@);
    lemma_file_name_of("docs/design/"@, "Design-Content-Model.md"@);
    assert(t[21].0 =~= "docs/design/"@ + "Design-Content-Model.md"@);
    lemma_file_name_of("docs/design/"@, "Design-Query-Engine.md"@);
    assert(t[22].0 =~= "docs/design/"@ + "Design-Query-Engine.md"@);
    lemma_file_name_of("docs/design/"@, "Design-Plugin-System.md"@);
    assert(t[23].0 =~= "docs/design/"@ + "Design-Plugin-System.md"@);
    lemma_file_name_of("docs/design/"@, "Design-Plugin-SDK.md"@);
    assert(t[24].0 =~= "docs/design/"@ + "Design-Plugin-SDK.md"@);
    lemma_file_name_of("docs/design/"@, "Design-Render-Theme.md"@);
    assert(t[25].0 =~= "docs/design/"@ + "Design-Render-Theme.md"@);
    lemma_file_name_of("docs/design/"@, "Design-Web-Layer.md"@);
    assert(t[26].0 =~= "docs/design/"@ + "Design-Web-Layer.md"@);
    lemma_file_name_of("docs/design/"@, "Design-Infrastructure.md"@);
    assert(t[27].0 =~= "docs/design/"@ + "Design-Infrastructure.md"@);
    lemma_file_name_of("docs/design/"@, "search-architecture.md"@);
    assert(t[28].0 =~= "docs/design/"@ + "search-architecture.md"@);
    lemma_file_name_of("docs/design/"@, "ai-integration.md"@);
    assert(t[29].0 =~= "docs/design/"@ + "ai-integration.md"@);
    lemma_file_name_of("docs/design/"@, "Versioning.md"@);
    assert(t[30].0 =~= "docs/design/"@ + "Versioning.md"@);
    lemma_file_name_of("docs/"@, "coding-standards.md"@);
    assert(t[31].0 =~= "docs/"@ + "coding-standards.md"@);
    lemma_file_name_of(Seq::empty(), "ROADMAP.md"@);
    assert(t[32].0 =~= Seq::<char>::empty() + "ROADMAP.md"@);
    lemma_file_name_of(Seq::empty(), "CONTRIBUTING.md"@);
    assert(t[33].0 =~= Seq::<char>::empty() + "CONTRIBUTING.md"@);
    lemma_file_name_of(Seq::empty(), "CODE_OF_CONDUCT.md"@);
    assert(t[34].0 =~= Seq::<char>::empty() + "CODE_OF_CONDUCT.md"@);
    lemma_file_name_of(Seq::empty(), "KNOWN-ISSUES.md"@);
    assert(t[35].0 =~= Seq::<char>::empty() + "KNOWN-ISSUES.md"@);
    assert forall|i: int| 0 <= i < t.len() implies fingerprint(file_name(#[trigger] t[i]), 0, 5) == file_prints()[i] by {
        // Entry by entry, each checked against its own text.
        if i == 0 {} else if i == 1 {} else if i == 2 {} else if i == 3 {} else if i == 4 {} else if i == 5 {} else
        if i == 6 {} else if i == 7 {} else if i == 8 {} else if i == 9 {} else if i == 10 {} else if i == 11 {} else
        if i == 12 {} else if i == 13 {} else if i == 14 {} else if i == 15 {} else if i == 16 {} else if i == 17 {} else
        if i == 18 {} else if i == 19 {} else if i == 20 {} else if i == 21 {} else if i == 22 {} else if i == 23 {} else
        if i == 24 {} else if i == 25 {} else if i == 26 {} else if i == 27 {} else if i == 28 {} else if i == 29 {} else
        if i == 30 {} else if i == 31 {} else if i == 32 {} else if i == 33 {} else if i == 34 {} else if i == 35 {}
    }
}

proof fn lemma_declared_are_distinct()
    ensures
        forall|p: int, q: int|
            0 <= p < declared().len() && 0 <= q < declared().len() && p != q ==> {
                &&& (#[trigger] declared()[p]).1 != (#[trigger] declared()[q]).1
                &&& declared()[p].0 != declared()[q].0
                &&& file_name(declared()[p]) != file_name(declared()[q])
            },
{
    lemma_slug_prints_are_distinct();
    lemma_source_prints_are_distinct();
    lemma_file_prints_are_distinct();
    lemma_slug_prints();
    lemma_source_prints();
    lemma_file_prints();
    let t = declared();
    // Two declared documents with the same slug, source or file name are one.
    assert forall|p: int, q: int|
        0 <= p < t.len() && 0 <= q < t.len() && p != q implies {
            &&& (#[trigger] t[p]).1 != (#[trigger] t[q]).1
            &&& t[p].0 != t[q].0
            &&& file_name(t[p]) != file_name(t[q])
        } by {
        assert(slug_prints()[p] != slug_prints()[q]);
        assert(source_prints()[p] != source_prints()[q]);
        assert(file_prints()[p] != file_prints()[q]);
    }
}

proof fn lemma_slug_position_at(t: Seq<DocV>, i: int)
    requires
        0 <= i < t.len(),
        forall|k: int| 0 <= k < i ==> (#[trigger] t[k]).1 != t[i].1,
    ensures
        slug_position(t, t[i].1) == Some(i as nat),
    decreases i,
{
    if i > 0 {
        let u = t.drop_first();
        assert(u[i - 1] == t[i]);
        assert forall|k: int| 0 <= k < i - 1 implies (#[trigger] u[k]).1 != u[i - 1].1 by {
            assert(u[k] == t[k + 1]);
        }
        lemma_slug_position_at(u, i - 1);
    }
}

proof fn lemma_slug_position_none(t: Seq<DocV>, slug: Seq<char>)
    requires
        forall|k: int| 0 <= k < t.len() ==> (#[trigger] t[k]).1 != slug,
    ensures
        slug_position(t, slug) is None,
    decreases t.len(),
{
    if t.len() > 0 {
        let u = t.drop_first();
        assert forall|k: int| 0 <= k < u.len() implies (#[trigger] u[k]).1 != slug by {
            assert(u[k] == t[k + 1]);
        }
        lemma_slug_position_none(u, slug);
        assert(t[0].1 != slug);
    }
}

proof fn lemma_sorted_is_fixed(s: Seq<DocV>)
    requires
        in_index_order(s),
    ensures
        sort_by_index_key(s) == s,
    decreases s.len(),
{
    if s.len() > 0 {
        let p = s.drop_last();
        assert forall|i: int, j: int| 0 <= i < j < p.len() implies key_le(
            index_key(#[trigger] p[i]),
            index_key(#[trigger] p[j]),
        ) by {
            assert(p[i] == s[i] && p[j] == s[j]);
        }
        lemma_sorted_is_fixed(p);
        if p.len() > 0 {
            assert(p.last() == s[s.len() - 2]);
            assert(s.last() == s[s.len() - 1]);
            assert(key_le(index_key(s[s.len() - 2]), index_key(s[s.len() - 1])));
        } else {
            assert(seq![s.last()] =~= s);
        }
        assert(p.push(s.last()) =~= s);
    }
}

proof fn lemma_weights_pair(w: Seq<int>, i: int, j: int)
    requires
        0 <= i <= j < w.len(),
        forall|k: int| 0 <= k < w.len() - 1 ==> #[trigger] w[k] <= w[k + 1],
    ensures
        w[i] <= w[j],
    decreases j - i,
{
    if i < j {
        lemma_weights_pair(w, i, j - 1);
        assert(w[j - 1] <= w[j]);
    }
}

/// The index is the manifest in its own order with the known-issues page
/// last: the manifest is already grouped by section, so sorting moves nothing.
pub proof fn law_index_is_the_declared_order()
    ensures
        all_spec() == manifest().push(known_issues_v()),
{
    lemma_declared_are_distinct();
    let t = declared();
    let m = manifest();
    assert(t.len() == 36 && m.len() == 35);
    assert forall|i: int| 0 <= i < 35 implies #[trigger] m[i] == t[i] by {
    }
    assert forall|i: int| 0 <= i < 35 implies #[trigger] slug_position(m, t[i].1) == Some(i as nat) by {
        assert forall|k: int| 0 <= k < i implies (#[trigger] m[k]).1 != m[i].1 by {
            assert(m[k] == t[k] && m[i] == t[i]);
        }
        lemma_slug_position_at(m, i);
    }
    assert forall|k: int| 0 <= k < m.len() implies (#[trigger] m[k]).1 != t[35].1 by {
        assert(m[k] == t[k]);
    }
    lemma_slug_position_none(m, t[35].1);
    let w = Seq::new(36, |i: int| section_weight(t[i].3) as int);
    assert forall|k: int| 0 <= k < w.len() - 1 implies #[trigger] w[k] <= w[k + 1] by {
        // Entry by entry, each checked against its own text.
        if k == 0 {} else if k == 1 {} else if k == 2 {} else if k == 3 {} else if k == 4 {} else if k == 5 {} else
        if k == 6 {} else if k == 7 {} else if k == 8 {} else if k == 9 {} else if k == 10 {} else if k == 11 {} else
        if k == 12 {} else if k == 13 {} else if k == 14 {} else if k == 15 {} else if k == 16 {} else if k == 17 {} else
        if k == 18 {} else if k == 19 {} else if k == 20 {} else if k == 21 {} else if k == 22 {} else if k == 23 {} else
        if k == 24 {} else if k == 25 {} else if k == 26 {} else if k == 27 {} else if k == 28 {} else if k == 29 {} else
        if k == 30 {} else if k == 31 {} else if k == 32 {} else if k == 33 {} else if k == 34 {}
    }
    assert forall|i: int, j: int| 0 <= i < j < t.len() implies key_le(
        index_key(#[trigger] t[i]),
        index_key(#[trigger] t[j]),
    ) by {
        lemma_weights_pair(w, i, j);
        assert(w[i] == section_weight(t[i].3) && w[j] == section_weight(t[j].3));
        if j < 35 {
            assert(slug_position(m, t[j].1) == Some(j as nat));
        }
        if i < 35 {
            assert(slug_position(m, t[i].1) == Some(i as nat));
        }
    }
    lemma_sorted_is_fixed(t);
}

/// No two mirrored documents share a slug, a source, or a file name, so each
/// is found again by any one of them.
pub proof fn law_documents_are_distinct()
    ensures
        forall|i: int, j: int|
            0 <= i < all_spec().len() && 0 <= j < all_spec().len() && i != j ==> {
                &&& (#[trigger] all_spec()[i]).1 != (#[trigger] all_spec()[j]).1
                &&& all_spec()[i].0 != all_spec()[j].0
                &&& file_name(all_spec()[i]) != file_name(all_spec()[j])
            },
{
    broadcast use vstd::seq_lib::group_to_multiset_ensures;

    law_index_order();
    let t = declared();
    let a = all_spec();
    lemma_declared_are_distinct();
    assert(t.no_duplicates());
    t.lemma_multiset_has_no_duplicates();
    assert forall|x: DocV| a.to_multiset().contains(x) implies a.to_multiset().count(x) == 1 by {
    }
    a.lemma_multiset_has_no_duplicates_conv();
    assert forall|i: int, j: int|
        0 <= i < a.len() && 0 <= j < a.len() && i != j implies {
            &&& (#[trigger] a[i]).1 != (#[trigger] a[j]).1
            &&& a[i].0 != a[j].0
            &&& file_name(a[i]) != file_name(a[j])
        } by {
        assert(a.contains(a[i]) && a.contains(a[j]));
        assert(a.to_multiset().count(a[i]) > 0 && a.to_multiset().count(a[j]) > 0);
        assert(t.contains(a[i]) && t.contains(a[j]));
        let p = choose|p: int| 0 <= p < t.len() && t[p] == a[i];
        let q = choose|q: int| 0 <= q < t.len() && t[q] == a[j];
        assert(a[i] != a[j]);
        assert(p != q);
    }
}

} // verus!
