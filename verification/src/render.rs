//! Markdown to HTML, with the code highlighted and the links rewritten.

use vstd::prelude::*;

use pulldown_cmark::{CodeBlockKind, Event, LinkType, Options, Parser, Tag, TagEnd};

use crate::highlight::{block, code_body, fence_language, figure_spec};
use crate::text::push_str;

verus! {

/// What rendering needs to know of a markdown event.
pub enum EventKind {
    /// The start of a fenced code block, with its info string.
    FenceStart(String),
    /// The start of an indented code block.
    IndentedStart,
    /// A text node.
    Text(String),
    /// The end of a code block.
    CodeEnd,
    /// The start of a link, with its destination, its title, and whether it
    /// is an email autolink.
    LinkStart(String, String, bool),
    /// Any other event, which is written as it is.
    Other,
}

#[verifier::external_type_specification]
#[verifier::external_body]
pub struct ExOptions(Options);

/// `pulldown_cmark::Options` with the given extensions switched on: tables,
/// strikethrough, footnotes and task lists.
///
/// The options are opaque here; they are only handed on to the parser.
#[verifier::external_body]
fn extensions(tables: bool, strikethrough: bool, footnotes: bool, tasklists: bool) -> Options {
    let mut options = Options::empty();
    options.set(Options::ENABLE_TABLES, tables);
    options.set(Options::ENABLE_STRIKETHROUGH, strikethrough);
    options.set(Options::ENABLE_FOOTNOTES, footnotes);
    options.set(Options::ENABLE_TASKLISTS, tasklists);
    options
}

/// The kinds of the events that pulldown-cmark's parser yields for a markdown
/// document with the given extensions switched on (tables, strikethrough,
/// footnotes, task lists), in order.
pub uninterp spec fn markdown_kinds(
    markdown: Seq<char>,
    tables: bool,
    strikethrough: bool,
    footnotes: bool,
    tasklists: bool,
) -> Seq<KindV>;

/// `pulldown_cmark::Parser::new_ext` with the given extensions switched on,
/// collected: the kind of each event of a markdown document, in order (the
/// variant of `pulldown_cmark::Event` told apart, its text copied).
///
/// The kinds are the parser's result named by `markdown_kinds`.
#[verifier::external_body]
fn markdown_events(
    markdown: &str,
    tables: bool,
    strikethrough: bool,
    footnotes: bool,
    tasklists: bool,
) -> (kinds: Vec<EventKind>)
    ensures
        kinds@.map_values(|k: EventKind| kind_view(k)) == markdown_kinds(
            markdown@,
            tables,
            strikethrough,
            footnotes,
            tasklists,
        ),
{
    let options = extensions(tables, strikethrough, footnotes, tasklists);
    Parser::new_ext(markdown, options).map(|event| match event {
        Event::Start(Tag::CodeBlock(CodeBlockKind::Fenced(l))) => EventKind::FenceStart(l.to_string()),
        Event::Start(Tag::CodeBlock(CodeBlockKind::Indented)) => EventKind::IndentedStart,
        Event::Text(t) => EventKind::Text(t.to_string()),
        Event::End(TagEnd::CodeBlock) => EventKind::CodeEnd,
        Event::Start(Tag::Link { link_type: k, dest_url: d, title: t, .. }) => {
            EventKind::LinkStart(d.to_string(), t.to_string(), matches!(k, LinkType::Email))
        },
        _ => EventKind::Other,
    }).collect()
}

/// The HTML that pulldown-cmark's writer makes of each event of a markdown
/// document parsed with the given extensions, each event written on its own,
/// in order.
pub uninterp spec fn markdown_event_html(
    markdown: Seq<char>,
    tables: bool,
    strikethrough: bool,
    footnotes: bool,
    tasklists: bool,
) -> Seq<Seq<char>>;

/// `pulldown_cmark::html::push_html` on each event of
/// `pulldown_cmark::Parser::new_ext`, one event at a time: the HTML of every
/// event of a markdown document, in order.
///
/// The HTML is the writer's result named by `markdown_event_html`; there is
/// one piece for each event the parser yields.
#[verifier::external_body]
fn markdown_event_htmls(
    markdown: &str,
    tables: bool,
    strikethrough: bool,
    footnotes: bool,
    tasklists: bool,
) -> (htmls: Vec<String>)
    ensures
        htmls@.map_values(|h: String| h@) == markdown_event_html(
            markdown@,
            tables,
            strikethrough,
            footnotes,
            tasklists,
        ),
        htmls@.len() == markdown_kinds(markdown@, tables, strikethrough, footnotes, tasklists).len(),
{
    let options = extensions(tables, strikethrough, footnotes, tasklists);
    Parser::new_ext(markdown, options).map(|event| {
        let mut html = String::new();
        pulldown_cmark::html::push_html(&mut html, std::iter::once(event));
        html
    }).collect()
}

/// The HTML that pulldown-cmark's writer makes of the start of a link to
/// `destination` with `title`, an email autolink or not.
pub uninterp spec fn link_start_html(destination: Seq<char>, title: Seq<char>, email: bool) -> Seq<char>;

/// `pulldown_cmark::html::push_html` on one `Event::Start(Tag::Link { .. })`:
/// the opening tag of a link to `destination` with `title`.
///
/// The writer reads a link's type only to tell an email autolink from any
/// other, and never reads its reference id, so those are all it is given.
#[verifier::external_body]
fn link_start(destination: String, title: String, email: bool) -> (html: String)
    ensures
        html@ == link_start_html(destination@, title@, email),
{
    let link_type = if email { LinkType::Email } else { LinkType::Inline };
    let link = Tag::Link { link_type, dest_url: destination.into(), title: title.into(), id: "".into() };
    let mut html = String::new();
    pulldown_cmark::html::push_html(&mut html, std::iter::once(Event::Start(link)));
    html
}

/// A rendered document.
pub struct Rendered {
    pub html: String,
    /// Every link the document points at, for the link check.
    pub links: Vec<String>,
}

/// An event kind as values.
pub enum KindV {
    FenceStart(Seq<char>),
    IndentedStart,
    Text(Seq<char>),
    CodeEnd,
    LinkStart(Seq<char>, Seq<char>, bool),
    Other,
}

pub open spec fn kind_view(k: EventKind) -> KindV {
    match k {
        EventKind::FenceStart(s) => KindV::FenceStart(s@),
        EventKind::IndentedStart => KindV::IndentedStart,
        EventKind::Text(s) => KindV::Text(s@),
        EventKind::CodeEnd => KindV::CodeEnd,
        EventKind::LinkStart(d, t, e) => KindV::LinkStart(d@, t@, e),
        EventKind::Other => KindV::Other,
    }
}

/// The destinations of the link starts among `ks`, in order.
pub open spec fn link_destinations(ks: Seq<KindV>) -> Seq<Seq<char>>
    decreases ks.len(),
{
    if ks.len() == 0 {
        Seq::empty()
    } else {
        match ks.last() {
            KindV::LinkStart(d, _, _) => link_destinations(ks.drop_last()).push(d),
            _ => link_destinations(ks.drop_last()),
        }
    }
}

/// The code block open after the events `ks`, as its info string and the text
/// gathered so far.
pub open spec fn open_fence(ks: Seq<KindV>) -> Option<(Seq<char>, Seq<char>)>
    decreases ks.len(),
{
    if ks.len() == 0 {
        None
    } else {
        let prev = open_fence(ks.drop_last());
        match ks.last() {
            KindV::FenceStart(lang) => Some((lang, Seq::empty())),
            KindV::IndentedStart => Some((Seq::empty(), Seq::empty())),
            KindV::Text(t) => match prev {
                Some((lang, body)) => Some((lang, body + t)),
                None => None,
            },
            KindV::CodeEnd => None,
            _ => prev,
        }
    }
}

/// What a code block renders as: `highlight::block` of its info string and
/// its text.
pub open spec fn block_output(lang: Seq<char>, body: Seq<char>, html: Seq<char>) -> bool {
    html == figure_spec(fence_language(lang), code_body(fence_language(lang), body))
}

/// `target` is where a link to `destination` points after `resolve`: what it
/// returns for the destination, or the destination itself when it returns
/// `None`.
pub open spec fn resolved_to<F: Fn(&str) -> Option<String>>(
    resolve: F,
    destination: Seq<char>,
    target: Seq<char>,
) -> bool {
    exists|s: &str, r: Option<String>|
        {
            &&& s@ == destination
            &&& call_ensures(resolve, (s,), r)
            &&& target == match r {
                Some(t) => t@,
                None => destination,
            }
        }
}

/// The HTML written for event `i` of `ks` is `piece`, where `own[i]` is what
/// the markdown writer makes of that event on its own: nothing for the start of
/// a code block and for the text inside one, the highlighted block at its end,
/// the start of a link with its destination rewritten, and for every other
/// event its own HTML.
pub open spec fn piece_ok<F: Fn(&str) -> Option<String>>(
    resolve: F,
    ks: Seq<KindV>,
    own: Seq<Seq<char>>,
    i: int,
    piece: Seq<char>,
) -> bool {
    let before = open_fence(ks.take(i));
    match ks[i] {
        KindV::FenceStart(_) => piece.len() == 0,
        KindV::IndentedStart => piece.len() == 0,
        KindV::Text(_) => if before is Some {
            piece.len() == 0
        } else {
            piece == own[i]
        },
        KindV::CodeEnd => match before {
            Some((lang, body)) => block_output(lang, body, piece),
            None => piece.len() == 0,
        },
        KindV::LinkStart(d, title, email) => exists|target: Seq<char>|
            {
                &&& resolved_to(resolve, d, target)
                &&& piece == link_start_html(target, title, email)
            },
        KindV::Other => piece == own[i],
    }
}

/// All of `pieces` joined.
pub open spec fn concat(pieces: Seq<Seq<char>>) -> Seq<char>
    decreases pieces.len(),
{
    if pieces.len() == 0 {
        Seq::empty()
    } else {
        concat(pieces.drop_last()) + pieces.last()
    }
}

/// The rendering of events of kinds `ks` whose own HTML is `own`, with links
/// rewritten by `resolve`.
pub open spec fn rendered_from<F: Fn(&str) -> Option<String>>(
    resolve: F,
    ks: Seq<KindV>,
    own: Seq<Seq<char>>,
    html: Seq<char>,
    links: Seq<Seq<char>>,
) -> bool {
    &&& links == link_destinations(ks)
    &&& exists|pieces: Seq<Seq<char>>|
        {
            &&& pieces.len() == ks.len()
            &&& html == concat(pieces)
            &&& forall|i: int| 0 <= i < ks.len() ==> #[trigger] piece_ok(resolve, ks, own, i, pieces[i])
        }
}

/// Text events, one for each of `ts`, in order.
pub open spec fn text_events(ts: Seq<Seq<char>>) -> Seq<KindV> {
    ts.map_values(|t: Seq<char>| KindV::Text(t))
}

proof fn lemma_fence_gathers(pre: Seq<KindV>, start: KindV, lang: Seq<char>, ts: Seq<Seq<char>>)
    requires
        start == KindV::FenceStart(lang) || (start == KindV::IndentedStart && lang == Seq::<char>::empty()),
    ensures
        open_fence(pre.push(start) + text_events(ts)) == Some((lang, concat(ts))),
    decreases ts.len(),
{
    let opened = pre.push(start);
    if ts.len() == 0 {
        assert(opened + text_events(ts) =~= opened);
        assert(opened.drop_last() =~= pre);
    } else {
        let rest = ts.drop_last();
        lemma_fence_gathers(pre, start, lang, rest);
        let all = opened + text_events(ts);
        assert(all.drop_last() =~= opened + text_events(rest));
        assert(all.last() == KindV::Text(ts.last()));
    }
}

/// A code block renders whole. Wherever a fenced block stands among the
/// events, with texts `ts` between its start and its end, the HTML written at
/// its end is `highlight::block` of its info string and all of those texts
/// joined in order, and only that; an indented block is the same with an
/// empty info string.
pub proof fn law_a_code_block_renders_all_its_text<F: Fn(&str) -> Option<String>>(
    resolve: F,
    pre: Seq<KindV>,
    lang: Seq<char>,
    ts: Seq<Seq<char>>,
    post: Seq<KindV>,
    own: Seq<Seq<char>>,
    piece: Seq<char>,
)
    ensures
        ({
            let ks = pre.push(KindV::FenceStart(lang)) + text_events(ts) + seq![KindV::CodeEnd] + post;
            let end = (pre.len() + 1 + ts.len()) as int;
            piece_ok(resolve, ks, own, end, piece) <==> block_output(lang, concat(ts), piece)
        }),
        ({
            let ks = pre.push(KindV::IndentedStart) + text_events(ts) + seq![KindV::CodeEnd] + post;
            let end = (pre.len() + 1 + ts.len()) as int;
            piece_ok(resolve, ks, own, end, piece) <==> block_output(Seq::empty(), concat(ts), piece)
        }),
{
    let end = (pre.len() + 1 + ts.len()) as int;
    let head = pre.push(KindV::FenceStart(lang)) + text_events(ts);
    let ks = head + seq![KindV::CodeEnd] + post;
    lemma_fence_gathers(pre, KindV::FenceStart(lang), lang, ts);
    assert(ks.take(end) =~= head);
    assert(ks[end] == KindV::CodeEnd);
    let head2 = pre.push(KindV::IndentedStart) + text_events(ts);
    let ks2 = head2 + seq![KindV::CodeEnd] + post;
    lemma_fence_gathers(pre, KindV::IndentedStart, Seq::empty(), ts);
    assert(ks2.take(end) =~= head2);
    assert(ks2[end] == KindV::CodeEnd);
}

/// Render one document.
///
/// `resolve` maps a link as written in the kernel repository to where it lives on
/// this site, or returns `None` to leave it pointing at GitHub.
pub fn render<F: Fn(&str) -> Option<String>>(markdown: &str, resolve: &F) -> (r: Rendered)
    requires
        forall|s: &str| #[trigger] resolve.requires((s,)),
    ensures
        rendered_from(
            *resolve,
            markdown_kinds(markdown@, true, true, true, true),
            markdown_event_html(markdown@, true, true, true, true),
            r.html@,
            r.links@.map_values(|l: String| l@),
        ),
{
    let events = markdown_events(markdown, true, true, true, true);
    let htmls = markdown_event_htmls(markdown, true, true, true, true);
    assert(events@.map_values(|k: EventKind| kind_view(k)).len() == events@.len());
    render_events(&events, &htmls, resolve)
}

/// Render a document from its parsed events: their kinds and the HTML each one
/// makes on its own, in order.
pub fn render_events<F: Fn(&str) -> Option<String>>(
    events: &Vec<EventKind>,
    htmls: &Vec<String>,
    resolve: &F,
) -> (r: Rendered)
    requires
        forall|s: &str| #[trigger] resolve.requires((s,)),
        htmls@.len() == events@.len(),
    ensures
        rendered_from(
            *resolve,
            events@.map_values(|k: EventKind| kind_view(k)),
            htmls@.map_values(|h: String| h@),
            r.html@,
            r.links@.map_values(|l: String| l@),
        ),
{
    let ghost own = htmls@.map_values(|h: String| h@);
    let ghost kinds = events@.map_values(|k: EventKind| kind_view(k));
    let mut links: Vec<String> = Vec::new();
    let mut out = String::new();
    let mut fence: Option<(String, String)> = None;
    let ghost mut ks: Seq<KindV> = Seq::empty();
    let ghost mut pieces: Seq<Seq<char>> = Seq::empty();
    let mut i: usize = 0;
    while i < events.len()
        invariant
            forall|s: &str| #[trigger] resolve.requires((s,)),
            i <= events@.len(),
            events@.map_values(|k: EventKind| kind_view(k)) == kinds,
            htmls@.map_values(|h: String| h@) == own,
            htmls@.len() == kinds.len(),
            ks == kinds.take(i as int),
            pieces.len() == ks.len(),
            out@ == concat(pieces),
            forall|j: int| 0 <= j < ks.len() ==> #[trigger] piece_ok(*resolve, ks, own, j, pieces[j]),
            links@.map_values(|l: String| l@) == link_destinations(ks),
            fence matches Some(f) ==> open_fence(ks) == Some((f.0@, f.1@)),
            fence is None ==> open_fence(ks) is None,
        decreases events@.len() - i,
    {
        let kind = &events[i];
        let ghost k = kind_view(*kind);
        let ghost nks = ks.push(k);
        let ghost before_out = out@;
        let ghost before_links = links@;
        let ghost mut link_target: Seq<char> = Seq::empty();
        proof {
            assert(kinds[i as int] == k);
            assert(own[i as int] == htmls@[i as int]@);
            assert(nks.drop_last() =~= ks);
            assert(nks.take(ks.len() as int) =~= ks);
        }
        match kind {
            EventKind::FenceStart(lang) => {
                fence = Some((lang.clone(), String::new()));
            },
            EventKind::IndentedStart => {
                fence = Some((String::new(), String::new()));
            },
            EventKind::Text(text) => {
                match fence {
                    Some((lang, body)) => {
                        let mut body = body;
                        push_str(&mut body, text.as_str());
                        fence = Some((lang, body));
                    },
                    None => {
                        push_str(&mut out, htmls[i].as_str());
                        proof {
                            assert(out@.skip(before_out.len() as int) =~= htmls@[i as int]@);
                        }
                    },
                }
            },
            EventKind::CodeEnd => {
                match fence {
                    Some((lang, body)) => {
                        let html = block(lang.as_str(), body.as_str());
                        push_str(&mut out, html.as_str());
                        proof {
                            assert(out@.skip(before_out.len() as int) =~= html@);
                            assert(block_output(lang@, body@, html@));
                        }
                    },
                    None => {},
                }
                fence = None;
            },
            EventKind::LinkStart(dest, title, email) => {
                let written = dest.as_str();
                let answer = resolve(written);
                let target = match answer {
                    Some(t) => t,
                    None => dest.clone(),
                };
                proof {
                    assert(resolved_to(*resolve, dest@, target@));
                    link_target = target@;
                }
                links.push(dest.clone());
                let html = link_start(target, title.clone(), *email);
                push_str(&mut out, html.as_str());
                proof {
                    assert(out@.skip(before_out.len() as int) =~= html@);
                }
            },
            EventKind::Other => {
                push_str(&mut out, htmls[i].as_str());
                proof {
                    assert(out@.skip(before_out.len() as int) =~= htmls@[i as int]@);
                }
            },
        }
        let ghost piece = out@.skip(before_out.len() as int);
        proof {
            assert(out@ =~= before_out + piece);
            let np = pieces.push(piece);
            assert(np.drop_last() =~= pieces);
            assert forall|j: int| 0 <= j < nks.len() implies #[trigger] piece_ok(*resolve, nks, own, j, np[j]) by {
                if j < ks.len() {
                    assert(nks.take(j) =~= ks.take(j));
                    assert(nks[j] == ks[j]);
                    assert(np[j] == pieces[j]);
                    assert(piece_ok(*resolve, ks, own, j, pieces[j]));
                } else {
                    assert(nks.take(j) =~= ks);
                    assert(nks[j] == k);
                    assert(np[j] == piece);
                    if let KindV::LinkStart(d, title, email) = k {
                        assert(resolved_to(*resolve, d, link_target));
                        assert(piece == link_start_html(link_target, title, email));
                    }
                }
            }
            assert(links@.map_values(|l: String| l@) =~= link_destinations(nks));
            assert(kinds.take(i + 1) =~= nks);
            pieces = np;
            ks = nks;
        }
        i += 1;
    }
    proof {
        assert(kinds.take(events@.len() as int) =~= kinds);
        assert(forall|j: int| 0 <= j < kinds.len() ==> #[trigger] piece_ok(*resolve, kinds, own, j, pieces[j]));
    }
    Rendered { html: out, links }
}

} // verus!
