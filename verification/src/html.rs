//! Escaping text for HTML, shared by everything that writes markup.

use vstd::prelude::*;

use crate::text::{chars_of, push_str, starts_with};

verus! {

/// The entity a character is written as, or the character itself.
pub open spec fn escape_char(c: char) -> Seq<char> {
    if c == '&' {
        "&amp;"@
    } else if c == '<' {
        "&lt;"@
    } else if c == '>' {
        "&gt;"@
    } else if c == '"' {
        "&quot;"@
    } else if c == '\'' {
        "&#39;"@
    } else {
        seq![c]
    }
}

/// `s` with `&`, `<`, `>`, `"` and `'` written as entities.
pub open spec fn escape_spec(s: Seq<char>) -> Seq<char>
    decreases s.len(),
{
    if s.len() == 0 {
        Seq::empty()
    } else {
        escape_spec(s.drop_last()) + escape_char(s.last())
    }
}

/// The characters that could end an attribute or open a tag.
pub open spec fn is_markup_char(c: char) -> bool {
    c == '<' || c == '>' || c == '"' || c == '\''
}

/// Escaped text holds no character that could close an attribute value or
/// open or close a tag, so it cannot inject markup wherever it is placed.
pub proof fn law_escape_is_inert(s: Seq<char>)
    ensures
        forall|i: int| 0 <= i < escape_spec(s).len() ==> !is_markup_char(#[trigger] escape_spec(s)[i]),
    decreases s.len(),
{
    reveal_strlit("&amp;");
    reveal_strlit("&lt;");
    reveal_strlit("&gt;");
    reveal_strlit("&quot;");
    reveal_strlit("&#39;");
    if s.len() > 0 {
        law_escape_is_inert(s.drop_last());
        let a = escape_spec(s.drop_last());
        let b = escape_char(s.last());
        assert forall|i: int| 0 <= i < (a + b).len() implies !is_markup_char(#[trigger] (a + b)[i]) by {
            if i < a.len() {
                assert((a + b)[i] == a[i]);
            } else {
                assert((a + b)[i] == b[i - a.len()]);
            }
        }
    }
}

/// Text without any of the five special characters is its own escape.
pub proof fn law_escape_plain(s: Seq<char>)
    requires
        forall|i: int|
            0 <= i < s.len() ==> !is_markup_char(#[trigger] s[i]) && s[i] != '&',
    ensures
        escape_spec(s) == s,
    decreases s.len(),
{
    if s.len() > 0 {
        law_escape_plain(s.drop_last());
        assert(s.drop_last() + seq![s.last()] =~= s);
    }
}

/// Escaping a text piece by piece is escaping it whole.
pub proof fn law_escape_distributes(a: Seq<char>, b: Seq<char>)
    ensures
        escape_spec(a + b) == escape_spec(a) + escape_spec(b),
    decreases b.len(),
{
    if b.len() == 0 {
        assert(a + b =~= a);
        assert(escape_spec(a) + escape_spec(b) =~= escape_spec(a));
    } else {
        law_escape_distributes(a, b.drop_last());
        assert((a + b).drop_last() =~= a + b.drop_last());
        assert((a + b).last() == b.last());
        assert(escape_spec(a) + escape_spec(b.drop_last()) + escape_char(b.last()) =~= escape_spec(a)
            + (escape_spec(b.drop_last()) + escape_char(b.last())));
    }
}

/// `s` with each of the five entities that escaping writes read back as the
/// character it stands for, from the front; any other character is kept.
pub open spec fn unescape_spec(s: Seq<char>) -> Seq<char>
    decreases s.len(),
{
    proof {
        reveal_strlit("&amp;");
        reveal_strlit("&lt;");
        reveal_strlit("&gt;");
        reveal_strlit("&quot;");
        reveal_strlit("&#39;");
    }
    if s.len() == 0 {
        Seq::empty()
    } else if starts_with(s, "&amp;"@) {
        seq!['&'] + unescape_spec(s.skip(5))
    } else if starts_with(s, "&lt;"@) {
        seq!['<'] + unescape_spec(s.skip(4))
    } else if starts_with(s, "&gt;"@) {
        seq!['>'] + unescape_spec(s.skip(4))
    } else if starts_with(s, "&quot;"@) {
        seq!['"'] + unescape_spec(s.skip(6))
    } else if starts_with(s, "&#39;"@) {
        seq!['\''] + unescape_spec(s.skip(5))
    } else {
        seq![s[0]] + unescape_spec(s.skip(1))
    }
}

proof fn lemma_prefix_at(s: Seq<char>, p: Seq<char>, i: int)
    requires
        0 <= i < p.len(),
    ensures
        starts_with(s, p) ==> s[i] == p[i],
{
    if starts_with(s, p) {
        assert(s.take(p.len() as int)[i] == s[i]);
    }
}

proof fn lemma_unescape_entity(c: char, rest: Seq<char>)
    ensures
        unescape_spec(escape_char(c) + rest) == seq![c] + unescape_spec(rest),
{
    reveal_strlit("&amp;");
    reveal_strlit("&lt;");
    reveal_strlit("&gt;");
    reveal_strlit("&quot;");
    reveal_strlit("&#39;");
    let e = escape_char(c);
    let s = e + rest;
    assert(s.skip(e.len() as int) =~= rest);
    assert(s.take(e.len() as int) =~= e);
    assert(s[0] == e[0]);
    assert(e.len() >= 2 ==> s[1] == e[1]);
    assert(e.len() >= 4 ==> s[3] == e[3]);
    lemma_prefix_at(s, "&amp;"@, 0);
    lemma_prefix_at(s, "&lt;"@, 0);
    lemma_prefix_at(s, "&gt;"@, 0);
    lemma_prefix_at(s, "&quot;"@, 0);
    lemma_prefix_at(s, "&#39;"@, 0);
    lemma_prefix_at(s, "&amp;"@, 1);
    lemma_prefix_at(s, "&lt;"@, 1);
    lemma_prefix_at(s, "&gt;"@, 1);
    lemma_prefix_at(s, "&quot;"@, 1);
    lemma_prefix_at(s, "&#39;"@, 1);
}

/// Reading the entities back out of escaped text gives the text that was
/// escaped.
pub proof fn law_unescape_undoes_escape(s: Seq<char>)
    ensures
        unescape_spec(escape_spec(s)) == s,
    decreases s.len(),
{
    if s.len() > 0 {
        let rest = s.drop_first();
        assert(s =~= seq![s[0]] + rest);
        law_escape_distributes(seq![s[0]], rest);
        assert(seq![s[0]].drop_last() =~= Seq::<char>::empty());
        assert(escape_spec(Seq::<char>::empty()) =~= Seq::<char>::empty());
        assert(escape_spec(seq![s[0]]) =~= escape_char(s[0]));
        lemma_unescape_entity(s[0], escape_spec(rest));
        law_unescape_undoes_escape(rest);
    }
}

/// Appends `raw`, escaped, to `out`.
pub fn push_escaped(out: &mut String, raw: &str)
    ensures
        final(out)@ == old(out)@ + escape_spec(raw@),
{
    let v = chars_of(raw);
    let mut i: usize = 0;
    while i < v.len()
        invariant
            i <= v@.len(),
            v@ == raw@,
            out@ == old(out)@ + escape_spec(v@.take(i as int)),
        decreases v@.len() - i,
    {
        assert(v@.take(i + 1).drop_last() =~= v@.take(i as int));
        let c = v[i];
        if c == '&' {
            push_str(out, "&amp;");
        } else if c == '<' {
            push_str(out, "&lt;");
        } else if c == '>' {
            push_str(out, "&gt;");
        } else if c == '"' {
            push_str(out, "&quot;");
        } else if c == '\'' {
            push_str(out, "&#39;");
        } else {
            crate::text::push_char(out, c);
        }
        i += 1;
        assert(out@ =~= old(out)@ + escape_spec(v@.take(i as int)));
    }
    assert(v@.take(v@.len() as int) =~= v@);
}

/// `raw`, escaped.
pub fn escaped(raw: &str) -> (out: String)
    ensures
        out@ == escape_spec(raw@),
{
    let mut out = String::new();
    push_escaped(&mut out, raw);
    out
}

} // verus!
