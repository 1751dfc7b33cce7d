//! The documentation mirror's generated config: the ids of the items and
//! aliases it writes, the records they hold, the files they go in, and the
//! query behind `/learn`.

use vstd::prelude::*;

use crate::docs::{
    all, all_spec, doc_view, section_blurb, section_title, Doc, DocV, Section,
};
use crate::json::{entries_view, object, push_entry, string, yaml_text, yaml_text_spec, Json, JsonV};
use crate::links::{
    docs_match, edit_url, edit_url_spec, repo, repo_spec, resolve_link, resolve_link_spec,
    tag, tag_spec,
};
use crate::text::{chars_of, eq_vec, push_chars, push_str, starts_with, starts_with_exec};

verus! {

// ───────────────────────── ids ─────────────────────────

/// The id `uuid::Uuid::new_v5` gives `name` in `namespace` (a SHA-1 digest
/// cut to a version-5 UUID), as its sixteen bytes.
pub uninterp spec fn uuid_v5(namespace: Seq<u8>, name: Seq<u8>) -> Seq<u8>;

/// `uuid::Uuid::new_v5`: the name-based id of `name` in `namespace`.
///
/// The contract names the result and says nothing of the digest: the id is a
/// function of the two arguments alone.
#[verifier::external_body]
fn uuid_v5_bytes(namespace: [u8; 16], name: &[u8]) -> (id: [u8; 16])
    ensures
        id@ == uuid_v5(namespace@, name@),
{
    *uuid::Uuid::new_v5(&uuid::Uuid::from_bytes(namespace), name).as_bytes()
}

/// The lower-case hexadecimal digit for `n < 16`.
pub open spec fn hex_char(n: int) -> char {
    if n < 10 {
        (('0' as int) + n) as char
    } else {
        (('a' as int) + n - 10) as char
    }
}

/// Bytes as lower-case hexadecimal, two digits each.
pub open spec fn hex_text(b: Seq<u8>) -> Seq<char>
    decreases b.len(),
{
    if b.len() == 0 {
        Seq::empty()
    } else {
        hex_text(b.drop_last()) + seq![hex_char((b.last() / 16) as int), hex_char((b.last() % 16) as int)]
    }
}

/// A UUID's text: lower-case hexadecimal in groups of 8, 4, 4, 4 and 12 digits
/// joined by hyphens.
pub open spec fn uuid_text(b: Seq<u8>) -> Seq<char> {
    hex_text(b.subrange(0, 4)) + "-"@ + hex_text(b.subrange(4, 6)) + "-"@ + hex_text(
        b.subrange(6, 8),
    ) + "-"@ + hex_text(b.subrange(8, 10)) + "-"@ + hex_text(b.subrange(10, 16))
}

/// The lower-case hexadecimal digit for `n < 16`.
fn hex_digit(n: u8) -> (c: char)
    requires
        n < 16,
    ensures
        c == hex_char(n as int),
{
    if n < 10 {
        (n + 48) as char
    } else {
        (n + 87) as char
    }
}

/// Appends the bytes `from..to` of `id` as hexadecimal.
fn push_hex(out: &mut String, id: &[u8; 16], from: usize, to: usize)
    requires
        from <= to <= 16,
    ensures
        final(out)@ == old(out)@ + hex_text(id@.subrange(from as int, to as int)),
{
    let mut i: usize = from;
    assert(id@.subrange(from as int, from as int) =~= Seq::<u8>::empty());
    while i < to
        invariant
            from <= i <= to <= 16,
            out@ == old(out)@ + hex_text(id@.subrange(from as int, i as int)),
        decreases to - i,
    {
        let b = id[i];
        assert(id@.subrange(from as int, i + 1).drop_last() =~= id@.subrange(from as int, i as int));
        assert(id@.subrange(from as int, i + 1).last() == b);
        crate::text::push_char(out, hex_digit(b / 16));
        crate::text::push_char(out, hex_digit(b % 16));
        i += 1;
        assert(out@ =~= old(out)@ + hex_text(id@.subrange(from as int, i as int)));
    }
}

/// An id's text, as `uuid::Uuid::to_string` writes it: the hyphenated
/// lower-case form.
fn uuid_string(id: [u8; 16]) -> (s: String)
    ensures
        s@ == uuid_text(id@),
{
    let mut s = String::new();
    push_hex(&mut s, &id, 0, 4);
    crate::text::push_char(&mut s, '-');
    push_hex(&mut s, &id, 4, 6);
    crate::text::push_char(&mut s, '-');
    push_hex(&mut s, &id, 6, 8);
    crate::text::push_char(&mut s, '-');
    push_hex(&mut s, &id, 8, 10);
    crate::text::push_char(&mut s, '-');
    push_hex(&mut s, &id, 10, 16);
    proof {
        reveal_strlit("-");
        assert(s@ =~= uuid_text(id@));
    }
    s
}

/// The UUID namespace the site's generated items are named in,
/// `0193b000-0006-7000-8000-000000000000`. Randomly generated once, then fixed
/// forever.
pub open spec fn namespace_spec() -> Seq<u8> {
    seq![0x01u8, 0x93, 0xb0, 0x00, 0x00, 0x06, 0x70, 0x00, 0x80, 0x00, 0, 0, 0, 0, 0, 0]
}

fn namespace() -> (n: [u8; 16])
    ensures
        n@ == namespace_spec(),
{
    let n: [u8; 16] = [0x01, 0x93, 0xb0, 0x00, 0x00, 0x06, 0x70, 0x00, 0x80, 0x00, 0, 0, 0, 0, 0, 0];
    assert(n@ =~= namespace_spec());
    n
}

/// The UTF-8 bytes of a text.
pub open spec fn utf8(s: Seq<char>) -> Seq<u8> {
    vstd::utf8::encode_utf8(s)
}

/// A document's id is `uuid5(NAMESPACE, slug)`, so it is the same on every
/// machine and in every database, and re-importing updates a row rather than
/// adding one beside it.
pub open spec fn item_id_spec(slug: Seq<char>) -> Seq<u8> {
    uuid_v5(namespace_spec(), utf8(slug))
}

pub open spec fn alias_id_spec(slug: Seq<char>) -> Seq<u8> {
    uuid_v5(namespace_spec(), utf8("alias:"@ + slug))
}

pub open spec fn index_alias_id_spec() -> Seq<u8> {
    uuid_v5(namespace_spec(), utf8("alias:docs-index"@))
}

pub fn item_id(slug: &str) -> (id: [u8; 16])
    ensures
        id@ == item_id_spec(slug@),
{
    uuid_v5_bytes(namespace(), slug.as_bytes())
}

pub fn alias_id(slug: &str) -> (id: [u8; 16])
    ensures
        id@ == alias_id_spec(slug@),
{
    let mut name = String::new();
    push_str(&mut name, "alias:");
    push_str(&mut name, slug);
    uuid_v5_bytes(namespace(), name.as_str().as_bytes())
}

/// The alias that makes `/learn` the documentation index.
pub fn index_alias_id() -> (id: [u8; 16])
    ensures
        id@ == index_alias_id_spec(),
{
    uuid_v5_bytes(namespace(), "alias:docs-index".as_bytes())
}

// ───────────────────────── constants ─────────────────────────

/// The live stage.
pub open spec fn live_stage_spec() -> Seq<char> {
    "0193a5a0-0000-7000-8000-000000000001"@
}

/// Fixed timestamp for generated items, 2026-08-01T00:00:00Z.
///
/// Not "now": a generator whose output depends on when it ran cannot be checked
/// for idempotence, and every re-run would rewrite every file.
pub open spec fn generated_at() -> i64 {
    1_785_542_400
}

// ───────────────────────── reading order ─────────────────────────

/// The position of the first document in `ds` with `slug`.
pub open spec fn position_of(ds: Seq<DocV>, slug: Seq<char>) -> Option<nat>
    decreases ds.len(),
{
    if ds.len() == 0 {
        None
    } else if ds[0].1 == slug {
        Some(0)
    } else {
        match position_of(ds.drop_first(), slug) {
            Some(p) => Some(p + 1),
            None => None,
        }
    }
}

proof fn lemma_position_bound(ds: Seq<DocV>, slug: Seq<char>)
    ensures
        position_of(ds, slug) matches Some(p) ==> p < ds.len(),
        (exists|k: int| 0 <= k < ds.len() && (#[trigger] ds[k]).1 == slug) ==> position_of(ds, slug) is Some,
    decreases ds.len(),
{
    if ds.len() > 0 {
        lemma_position_bound(ds.drop_first(), slug);
        if exists|k: int| 0 <= k < ds.len() && (#[trigger] ds[k]).1 == slug {
            let k = choose|k: int| 0 <= k < ds.len() && (#[trigger] ds[k]).1 == slug;
            if k > 0 {
                assert(ds.drop_first()[k - 1] == ds[k]);
            }
        }
    }
}

/// A slug that some document in the index has.
pub open spec fn indexed(slug: Seq<char>) -> bool {
    exists|k: int| 0 <= k < all_spec().len() && (#[trigger] all_spec()[k]).1 == slug
}

/// A document's position in the reading order, times ten: its sort weight.
pub open spec fn order_of_spec(slug: Seq<char>) -> nat {
    match position_of(all_spec(), slug) {
        Some(p) => p * 10,
        None => 0,
    }
}

fn order_in(ds: &Vec<Doc>, slug: &str) -> (w: usize)
    requires
        docs_match(ds@, all_spec()),
        indexed(slug@),
    ensures
        w == order_of_spec(slug@),
{
    proof {
        lemma_position_bound(all_spec(), slug@);
        crate::docs::law_index_order();
        vstd::seq_lib::to_multiset_len(all_spec());
        vstd::seq_lib::to_multiset_len(crate::docs::manifest().push(crate::docs::known_issues_v()));
    }
    let key = chars_of(slug);
    let mut i: usize = 0;
    assert(all_spec().skip(0) =~= all_spec());
    while i < ds.len()
        invariant
            i <= ds@.len(),
            ds@.len() < 1000,
            docs_match(ds@, all_spec()),
            key@ == slug@,
            position_of(all_spec(), slug@) == match position_of(all_spec().skip(i as int), slug@) {
                Some(p) => Some((p + i) as nat),
                None => None::<nat>,
            },
            position_of(all_spec(), slug@) is Some,
        decreases ds@.len() - i,
    {
        let ghost rest = all_spec().skip(i as int);
        assert(rest.drop_first() =~= all_spec().skip(i + 1));
        assert(rest[0] == all_spec()[i as int]);
        assert(doc_view(ds@[i as int]) == all_spec()[i as int]);
        if eq_vec(&chars_of(ds[i].slug), &key) {
            return i * 10;
        }
        i += 1;
    }
    proof {
        assert(all_spec().skip(i as int).len() == 0);
    }
    0
}

/// A document's position in the reading order, which is its sort weight.
pub fn order_of(slug: &str) -> (w: usize)
    requires
        indexed(slug@),
    ensures
        w == order_of_spec(slug@),
{
    let ds = all();
    order_in(&ds, slug)
}

// ───────────────────────── records ─────────────────────────

pub open spec fn opt_view(d: Option<Doc>) -> Option<DocV> {
    match d {
        Some(d) => Some(doc_view(d)),
        None => None,
    }
}

/// The fields of a document's item: its rendered HTML and source markdown,
/// where it came from, its index section and weight, and its neighbours in the
/// reading order when it has them.
pub open spec fn item_fields_spec(
    d: DocV,
    html: Seq<char>,
    markdown: Seq<char>,
    previous: Option<DocV>,
    next: Option<DocV>,
) -> Seq<(Seq<char>, JsonV)> {
    let base = seq![
        ("html"@, JsonV::Str(html)),
        ("markdown"@, JsonV::Str(markdown)),
        ("source_path"@, JsonV::Str(d.0)),
        ("edit_url"@, JsonV::Str(edit_url_spec(d.0))),
        ("raw_url"@, JsonV::Str("/learn/raw/"@ + d.1)),
        ("section"@, JsonV::Str(section_title(d.3))),
        ("section_blurb"@, JsonV::Str(section_blurb(d.3))),
        ("weight"@, JsonV::Int(order_of_spec(d.1) as i64)),
    ];
    let with_previous = match previous {
        Some(p) => base + seq![
            ("prev_path"@, JsonV::Str("/learn/"@ + p.1)),
            ("prev_title"@, JsonV::Str(p.2)),
        ],
        None => base,
    };
    match next {
        Some(n) => with_previous + seq![
            ("next_path"@, JsonV::Str("/learn/"@ + n.1)),
            ("next_title"@, JsonV::Str(n.2)),
        ],
        None => with_previous,
    }
}

/// One document as a config item of type `docs`.
pub open spec fn item_record_spec(
    d: DocV,
    html: Seq<char>,
    markdown: Seq<char>,
    previous: Option<DocV>,
    next: Option<DocV>,
) -> JsonV {
    JsonV::Object(
        seq![
            ("id"@, JsonV::Str(uuid_text(item_id_spec(d.1)))),
            ("type"@, JsonV::Str("docs"@)),
            ("title"@, JsonV::Str(d.2)),
            ("language"@, JsonV::Str("en"@)),
            ("status"@, JsonV::Int(1)),
            ("created"@, JsonV::Int(generated_at())),
            ("changed"@, JsonV::Int(generated_at())),
            ("fields"@, JsonV::Object(item_fields_spec(d, html, markdown, previous, next))),
        ],
    )
}

fn owned(s: &str) -> (o: String)
    ensures
        o@ == s@,
{
    let mut o = String::new();
    push_str(&mut o, s);
    o
}

fn joined(a: &str, b: &str) -> (o: String)
    ensures
        o@ == a@ + b@,
{
    let mut o = String::new();
    push_str(&mut o, a);
    push_str(&mut o, b);
    o
}

/// One document, as a config item.
pub fn item_record(
    doc: &Doc,
    html: &str,
    markdown: &str,
    previous: Option<Doc>,
    next: Option<Doc>,
) -> (item: Json)
    requires
        indexed(doc.slug@),
    ensures
        item@ == item_record_spec(doc_view(*doc), html@, markdown@, opt_view(previous), opt_view(next)),
{
    let ghost d = doc_view(*doc);
    let mut fields: Vec<(String, Json)> = Vec::new();
    push_entry(&mut fields, "html", string(owned(html)));
    push_entry(&mut fields, "markdown", string(owned(markdown)));
    push_entry(&mut fields, "source_path", string(owned(doc.source)));
    push_entry(&mut fields, "edit_url", string(edit_url(doc.source)));
    push_entry(&mut fields, "raw_url", string(joined("/learn/raw/", doc.slug)));
    push_entry(&mut fields, "section", string(owned(doc.section.title())));
    push_entry(&mut fields, "section_blurb", string(owned(doc.section.blurb())));
    let weight = order_of(doc.slug);
    proof {
        crate::docs::law_index_order();
        vstd::seq_lib::to_multiset_len(all_spec());
        vstd::seq_lib::to_multiset_len(crate::docs::manifest().push(crate::docs::known_issues_v()));
        lemma_position_bound(all_spec(), d.1);
    }
    push_entry(&mut fields, "weight", Json::Int(weight as i64));
    let ghost base = entries_view(fields@);
    assert(base =~= seq![
        ("html"@, JsonV::Str(html@)),
        ("markdown"@, JsonV::Str(markdown@)),
        ("source_path"@, JsonV::Str(d.0)),
        ("edit_url"@, JsonV::Str(edit_url_spec(d.0))),
        ("raw_url"@, JsonV::Str("/learn/raw/"@ + d.1)),
        ("section"@, JsonV::Str(section_title(d.3))),
        ("section_blurb"@, JsonV::Str(section_blurb(d.3))),
        ("weight"@, JsonV::Int(order_of_spec(d.1) as i64)),
    ]);
    if let Some(p) = previous {
        push_entry(&mut fields, "prev_path", string(joined("/learn/", p.slug)));
        push_entry(&mut fields, "prev_title", string(owned(p.title)));
    }
    let ghost with_previous = entries_view(fields@);
    assert(with_previous =~= match opt_view(previous) {
        Some(p) => base + seq![
            ("prev_path"@, JsonV::Str("/learn/"@ + p.1)),
            ("prev_title"@, JsonV::Str(p.2)),
        ],
        None => base,
    });
    if let Some(n) = next {
        push_entry(&mut fields, "next_path", string(joined("/learn/", n.slug)));
        push_entry(&mut fields, "next_title", string(owned(n.title)));
    }
    assert(entries_view(fields@) =~= item_fields_spec(d, html@, markdown@, opt_view(previous), opt_view(next)));
    let mut item: Vec<(String, Json)> = Vec::new();
    push_entry(&mut item, "id", string(uuid_string(item_id(doc.slug))));
    push_entry(&mut item, "type", string(owned("docs")));
    push_entry(&mut item, "title", string(owned(doc.title)));
    push_entry(&mut item, "language", string(owned("en")));
    push_entry(&mut item, "status", Json::Int(1));
    push_entry(&mut item, "created", Json::Int(1_785_542_400));
    push_entry(&mut item, "changed", Json::Int(1_785_542_400));
    push_entry(&mut item, "fields", object(fields));
    let r = object(item);
    assert(r@->Object_0 =~= item_record_spec(d, html@, markdown@, opt_view(previous), opt_view(next))->Object_0);
    r
}

/// A document's alias: `/learn/{slug}` for its item, in the live stage.
pub open spec fn alias_record_spec(d: DocV) -> JsonV {
    JsonV::Object(
        seq![
            ("id"@, JsonV::Str(uuid_text(alias_id_spec(d.1)))),
            ("source"@, JsonV::Str("/item/"@ + uuid_text(item_id_spec(d.1)))),
            ("alias"@, JsonV::Str("/learn/"@ + d.1)),
            ("language"@, JsonV::Str("en"@)),
            ("stage_id"@, JsonV::Str(live_stage_spec())),
            ("created"@, JsonV::Int(generated_at())),
        ],
    )
}

pub fn alias_record(doc: &Doc) -> (alias: Json)
    ensures
        alias@ == alias_record_spec(doc_view(*doc)),
{
    let mut source = owned("/item/");
    let id_text = uuid_string(item_id(doc.slug));
    push_str(&mut source, id_text.as_str());
    let mut e: Vec<(String, Json)> = Vec::new();
    push_entry(&mut e, "id", string(uuid_string(alias_id(doc.slug))));
    push_entry(&mut e, "source", string(source));
    push_entry(&mut e, "alias", string(joined("/learn/", doc.slug)));
    push_entry(&mut e, "language", string(owned("en")));
    push_entry(&mut e, "stage_id", string(owned("0193a5a0-0000-7000-8000-000000000001")));
    push_entry(&mut e, "created", Json::Int(1_785_542_400));
    let r = object(e);
    assert(r@->Object_0 =~= alias_record_spec(doc_view(*doc))->Object_0);
    r
}

/// The alias that makes `/learn` the documentation index.
pub open spec fn index_alias_record_spec() -> JsonV {
    JsonV::Object(
        seq![
            ("id"@, JsonV::Str(uuid_text(index_alias_id_spec()))),
            ("source"@, JsonV::Str("/gather/trovato_site.docs_index"@)),
            ("alias"@, JsonV::Str("/learn"@)),
            ("language"@, JsonV::Str("en"@)),
            ("stage_id"@, JsonV::Str(live_stage_spec())),
            ("created"@, JsonV::Int(generated_at())),
        ],
    )
}

pub fn index_alias_record() -> (alias: Json)
    ensures
        alias@ == index_alias_record_spec(),
{
    let mut e: Vec<(String, Json)> = Vec::new();
    push_entry(&mut e, "id", string(uuid_string(index_alias_id())));
    push_entry(&mut e, "source", string(owned("/gather/trovato_site.docs_index")));
    push_entry(&mut e, "alias", string(owned("/learn")));
    push_entry(&mut e, "language", string(owned("en")));
    push_entry(&mut e, "stage_id", string(owned("0193a5a0-0000-7000-8000-000000000001")));
    push_entry(&mut e, "created", Json::Int(1_785_542_400));
    let r = object(e);
    assert(r@->Object_0 =~= index_alias_record_spec()->Object_0);
    r
}

// ───────────────────────── files ─────────────────────────

/// The first line of every file the mirror writes.
pub open spec fn header_spec() -> Seq<char> {
    "# Generated by `cargo run -p tools --bin docs-import`. Do not edit.\n"@
}

/// A document's item file: the header, the line naming where it was mirrored
/// from, then the record as YAML.
pub open spec fn item_file_spec(d: DocV, yaml: Seq<char>) -> Seq<char> {
    header_spec() + "# Mirrored from "@ + repo_spec() + " "@ + d.0 + " at "@ + tag_spec() + ".\n"@
        + yaml
}

fn item_file(doc: &Doc, yaml: &str) -> (text: String)
    ensures
        text@ == item_file_spec(doc_view(*doc), yaml@),
{
    let mut t = String::new();
    push_str(&mut t, "# Generated by `cargo run -p tools --bin docs-import`. Do not edit.\n");
    push_str(&mut t, "# Mirrored from ");
    push_str(&mut t, repo());
    push_str(&mut t, " ");
    push_str(&mut t, doc.source);
    push_str(&mut t, " at ");
    push_str(&mut t, tag());
    push_str(&mut t, ".\n");
    push_str(&mut t, yaml);
    t
}

/// An alias file: the header, then the record as YAML.
fn alias_file(yaml: &str) -> (text: String)
    ensures
        text@ == header_spec() + yaml@,
{
    let mut t = String::new();
    push_str(&mut t, "# Generated by `cargo run -p tools --bin docs-import`. Do not edit.\n");
    push_str(&mut t, yaml);
    t
}

/// One document, as the text of its config item file: the header, where it
/// was mirrored from, then its record as YAML.
pub fn item_yaml(
    doc: &Doc,
    html: &str,
    markdown: &str,
    previous: Option<Doc>,
    next: Option<Doc>,
) -> (text: String)
    requires
        indexed(doc.slug@),
    ensures
        text@ == item_file_spec(
            doc_view(*doc),
            yaml_text_spec(
                item_record_spec(doc_view(*doc), html@, markdown@, opt_view(previous), opt_view(next)),
            ),
        ),
{
    let record = item_record(doc, html, markdown, previous, next);
    item_file(doc, yaml_text(&record).as_str())
}

/// A document's alias, as the text of its config file.
pub fn alias_yaml(doc: &Doc) -> (text: String)
    ensures
        text@ == header_spec() + yaml_text_spec(alias_record_spec(doc_view(*doc))),
{
    alias_file(yaml_text(&alias_record(doc)).as_str())
}

/// The alias that makes `/learn` the documentation index, as the text of its
/// config file.
pub fn index_alias() -> (text: String)
    ensures
        text@ == header_spec() + yaml_text_spec(index_alias_record_spec()),
{
    alias_file(yaml_text(&index_alias_record()).as_str())
}

pub fn item_file_name(slug: &str) -> (name: String)
    ensures
        name@ == "item."@ + uuid_text(item_id_spec(slug@)) + ".yml"@,
{
    let mut n = owned("item.");
    let id = uuid_string(item_id(slug));
    push_str(&mut n, id.as_str());
    push_str(&mut n, ".yml");
    n
}

pub fn alias_file_name(slug: &str) -> (name: String)
    ensures
        name@ == "url_alias."@ + uuid_text(alias_id_spec(slug@)) + ".yml"@,
{
    let mut n = owned("url_alias.");
    let id = uuid_string(alias_id(slug));
    push_str(&mut n, id.as_str());
    push_str(&mut n, ".yml");
    n
}

/// Named by its own id, like every other exported entity: `config import`
/// warns when a filename and the id inside it disagree.
pub fn index_alias_file_name() -> (name: String)
    ensures
        name@ == "url_alias."@ + uuid_text(index_alias_id_spec()) + ".yml"@,
{
    let mut n = owned("url_alias.");
    let id = uuid_string(index_alias_id());
    push_str(&mut n, id.as_str());
    push_str(&mut n, ".yml");
    n
}

/// The listing behind `/learn`, sorted by the weight the mirror assigns.
pub open spec fn docs_index_query_spec() -> Seq<char> {
    
        "# Generated by `cargo run -p tools --bin docs-import`. Do not edit.\n\
    #\n\
    # The documentation index. Sorted by the weight the generator assigns from\n\
    # the order of the manifest in tools/src/docs.rs, so the index reads in the\n\
    # order the documents are meant to be read rather than alphabetically.\n\
    query_id: trovato_site.docs_index\n\
    label: Learn\n\
    description: The Trovato documentation, mirrored from the kernel repository at "@ + tag_spec() + ".\n\
    definition:\n\
    \x20 base_table: item\n\
    \x20 item_type: docs\n\
    \x20 fields: []\n\
    \x20 filters: []\n\
    \x20 includes: {}\n\
    \x20 relationships: []\n\
    \x20 sorts:\n\
    \x20 - direction: asc\n\
    \x20   field: fields.weight\n\
    \x20   nulls: null\n\
    \x20 stage_aware: true\n\
    display:\n\
    \x20 canonical_url: /learn\n\
    \x20 empty_text: The documentation has not been imported yet.\n\
    \x20 footer: null\n\
    \x20 format: list\n\
    \x20 header: null\n\
    \x20 items_per_page: 200\n\
    \x20 pager:\n\
    \x20   enabled: false\n\
    \x20   show_count: false\n\
    \x20   style: full\n\
    plugin: trovato_site\n"@
}

/// The listing behind `/learn`.
pub fn docs_index_query() -> (q: String)
    ensures
        q@ == docs_index_query_spec(),
{
    let mut q = String::new();
    push_str(
        &mut q,
        "# Generated by `cargo run -p tools --bin docs-import`. Do not edit.\n\
    #\n\
    # The documentation index. Sorted by the weight the generator assigns from\n\
    # the order of the manifest in tools/src/docs.rs, so the index reads in the\n\
    # order the documents are meant to be read rather than alphabetically.\n\
    query_id: trovato_site.docs_index\n\
    label: Learn\n\
    description: The Trovato documentation, mirrored from the kernel repository at ",
    );
    push_str(&mut q, tag());
    push_str(
        &mut q,
        ".\n\
    definition:\n\
    \x20 base_table: item\n\
    \x20 item_type: docs\n\
    \x20 fields: []\n\
    \x20 filters: []\n\
    \x20 includes: {}\n\
    \x20 relationships: []\n\
    \x20 sorts:\n\
    \x20 - direction: asc\n\
    \x20   field: fields.weight\n\
    \x20   nulls: null\n\
    \x20 stage_aware: true\n\
    display:\n\
    \x20 canonical_url: /learn\n\
    \x20 empty_text: The documentation has not been imported yet.\n\
    \x20 footer: null\n\
    \x20 format: list\n\
    \x20 header: null\n\
    \x20 items_per_page: 200\n\
    \x20 pager:\n\
    \x20   enabled: false\n\
    \x20   show_count: false\n\
    \x20   style: full\n\
    plugin: trovato_site\n",
    );
    q
}

// ───────────────────────── neighbours ─────────────────────────

/// The documents before and after position `index` of the reading order, which
/// a page links to as previous and next.
pub fn neighbours(ordered: &Vec<Doc>, index: usize) -> (around: (Option<Doc>, Option<Doc>))
    ensures
        around.0 == (if 0 < index <= ordered@.len() {
            Some(ordered@[index - 1])
        } else {
            None::<Doc>
        }),
        around.1 == (if index + 1 < ordered@.len() {
            Some(ordered@[index + 1])
        } else {
            None::<Doc>
        }),
{
    let previous = if index > 0 && index <= ordered.len() {
        Some(ordered[index - 1])
    } else {
        None
    };
    let next = if index < ordered.len() && index + 1 < ordered.len() {
        Some(ordered[index + 1])
    } else {
        None
    };
    (previous, next)
}

// ───────────────────────── link counts ─────────────────────────

/// How many of `links` the site rewrites to one of its own pages, and how many
/// it leaves pointing at GitHub.
pub open spec fn link_counts(links: Seq<Seq<char>>) -> (nat, nat)
    decreases links.len(),
{
    if links.len() == 0 {
        (0, 0)
    } else {
        let (internal, outbound) = link_counts(links.drop_last());
        match resolve_link_spec(links.last()) {
            Some(target) => if starts_with(target, "/learn/"@) {
                (internal + 1, outbound)
            } else {
                (internal, outbound + 1)
            },
            None => (internal, outbound),
        }
    }
}

pub fn count_links(links: &Vec<String>) -> (counts: (usize, usize))
    ensures
        counts.0 == link_counts(links@.map_values(|l: String| l@)).0,
        counts.1 == link_counts(links@.map_values(|l: String| l@)).1,
{
    let ghost ls = links@.map_values(|l: String| l@);
    let mut internal: usize = 0;
    let mut outbound: usize = 0;
    let mut i: usize = 0;
    while i < links.len()
        invariant
            i <= links@.len() == ls.len(),
            ls == links@.map_values(|l: String| l@),
            internal == link_counts(ls.take(i as int)).0,
            outbound == link_counts(ls.take(i as int)).1,
            internal + outbound <= i,
        decreases links@.len() - i,
    {
        assert(ls.take(i + 1).drop_last() =~= ls.take(i as int));
        assert(ls.take(i + 1).last() == links@[i as int]@);
        match resolve_link(links[i].as_str()) {
            Some(target) => {
                if starts_with_exec(&chars_of(target.as_str()), &chars_of("/learn/")) {
                    internal += 1;
                } else {
                    outbound += 1;
                }
            },
            None => {},
        }
        i += 1;
    }
    assert(ls.take(links@.len() as int) =~= ls);
    (internal, outbound)
}

// ───────────────────────── laws ─────────────────────────

/// A document's alias points at that document's item: its source is
/// `/item/` and the id the item record carries, and its path is the
/// document's `/learn` page. So no alias the mirror writes points at nothing,
/// and no item it writes is left without an alias.
pub proof fn law_every_alias_points_at_its_item(
    d: DocV,
    html: Seq<char>,
    markdown: Seq<char>,
    previous: Option<DocV>,
    next: Option<DocV>,
)
    ensures
        alias_record_spec(d)->Object_0[1].1 == JsonV::Str(
            "/item/"@ + (item_record_spec(d, html, markdown, previous, next)->Object_0[0].1)->Str_0,
        ),
        alias_record_spec(d)->Object_0[2].1 == JsonV::Str("/learn/"@ + d.1),
        item_record_spec(d, html, markdown, previous, next)->Object_0[0].0 == "id"@,
        alias_record_spec(d)->Object_0[1].0 == "source"@,
        alias_record_spec(d)->Object_0[2].0 == "alias"@,
{
}

} // verus!
