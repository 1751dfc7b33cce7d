//! The stylesheet's colour tokens and its `@contrast` annotations.
//!
//! A stylesheet is read line by line, counting braces, the way the site's
//! `tokens.css` is laid out: custom properties outside any media query form the
//! light scheme, and the `prefers-color-scheme: dark` block's properties are
//! layered over them to form the dark one.

use vstd::prelude::*;

use crate::color::{level_spec, parse_spec, Level, Rgb};
use crate::text::{
    chars_of, contains, contains_exec, count_char, count_char_exec, eq_vec, lines, lines_exec,
    split_once, split_once_exec, string_of, strip_prefix, strip_prefix_exec, trim,
    trim_end_matches, trim_end_matches_exec, trim_vec, words, words_exec, lemma_count_le_len,
    lemma_lines_size, lemma_total_len_prefix, lemma_trim_len, total_len, lemma_lines_infix,
    lemma_trim_infix, lemma_infix_trans, lemma_contains_in_infix, lemma_find_char_at,
    lemma_find_char_found, find_char,
};

verus! {

// ───────────────────────── the token table ─────────────────────────

/// Every entry is in the map with its colour, and every key of the map has an
/// entry.
spec fn table_matches(entries: Seq<(String, Rgb)>, map: Map<Seq<char>, Rgb>) -> bool {
    &&& forall|i: int|
        #![trigger entries[i]]
        0 <= i < entries.len() ==> (map.dom().contains(entries[i].0@) && map[entries[i].0@]
            == entries[i].1)
    &&& forall|k: Seq<char>|
        #[trigger] map.dom().contains(k) ==> exists|i: int|
            0 <= i < entries.len() && (#[trigger] entries[i]).0@ == k
}

/// Every custom property of one scheme, each with the colour it resolved to.
pub struct Tokens {
    entries: Vec<(String, Rgb)>,
    map: Ghost<Map<Seq<char>, Rgb>>,
}

impl Tokens {
    #[verifier::type_invariant]
    spec fn well_formed(self) -> bool {
        table_matches(self.entries@, self.map@)
    }

    /// The table as a map from property name to colour.
    pub closed spec fn view(&self) -> Map<Seq<char>, Rgb> {
        self.map@
    }

    /// An empty table.
    pub fn new() -> (t: Tokens)
        ensures
            t.view() == Map::<Seq<char>, Rgb>::empty(),
    {
        Tokens { entries: Vec::new(), map: Ghost(Map::empty()) }
    }

    /// The colour `name` resolved to, if it is defined.
    pub fn get(&self, name: &str) -> (r: Option<Rgb>)
        ensures
            r == (if self.view().dom().contains(name@) {
                Some(self.view()[name@])
            } else {
                None
            }),
    {
        let key = chars_of(name);
        self.get_chars(&key)
    }

    fn get_chars(&self, key: &Vec<char>) -> (r: Option<Rgb>)
        ensures
            r == (if self.view().dom().contains(key@) {
                Some(self.view()[key@])
            } else {
                None
            }),
    {
        proof {
            use_type_invariant(self);
        }
        let mut i: usize = 0;
        while i < self.entries.len()
            invariant
                i <= self.entries@.len(),
                forall|j: int| 0 <= j < i ==> (#[trigger] self.entries@[j]).0@ != key@,
            decreases self.entries@.len() - i,
        {
            let k = chars_of(self.entries[i].0.as_str());
            if eq_vec(&k, key) {
                proof {
                    use_type_invariant(self);
                }
                assert(self.map@.dom().contains(self.entries@[i as int].0@));
                return Some(self.entries[i].1);
            }
            i += 1;
        }
        proof {
            use_type_invariant(self);
            if self.map@.dom().contains(key@) {
                let j = choose|j: int|
                    0 <= j < self.entries@.len() && (#[trigger] self.entries@[j]).0@ == key@;
                assert(self.entries@[j].0@ != key@);
            }
        }
        None
    }

    /// Define `key` as `value`, replacing any earlier definition.
    fn insert(&mut self, key: &Vec<char>, value: Rgb)
        ensures
            final(self).view() == old(self).view().insert(key@, value),
    {
        proof {
            use_type_invariant(&*self);
        }
        let ghost m = self.map@.insert(key@, value);
        let mut entries: Vec<(String, Rgb)> = Vec::new();
        let mut found = false;
        let mut i: usize = 0;
        while i < self.entries.len()
            invariant
                i <= self.entries@.len(),
                entries@.len() == i,
                found <==> exists|j: int| 0 <= j < i && (#[trigger] self.entries@[j]).0@ == key@,
                forall|j: int|
                    0 <= j < i ==> (#[trigger] entries@[j]).0@ == self.entries@[j].0@ && (if self.entries@[j].0@
                        == key@ {
                        entries@[j].1 == value
                    } else {
                        entries@[j].1 == self.entries@[j].1
                    }),
            decreases self.entries@.len() - i,
        {
            let k = chars_of(self.entries[i].0.as_str());
            let name = self.entries[i].0.clone();
            if eq_vec(&k, key) {
                entries.push((name, value));
                found = true;
            } else {
                entries.push((name, self.entries[i].1));
            }
            i += 1;
        }
        if !found {
            let name = string_of(key);
            entries.push((name, value));
        }
        proof {
            use_type_invariant(&*self);
            assert forall|j: int| #![trigger entries@[j]] 0 <= j < entries@.len() implies (m.dom().contains(
                entries@[j].0@,
            ) && m[entries@[j].0@] == entries@[j].1) by {
                if j < self.entries@.len() {
                    assert(self.map@.dom().contains(self.entries@[j].0@));
                    assert(entries@[j].0@ == self.entries@[j].0@);
                    if self.entries@[j].0@ == key@ {
                        assert(entries@[j].1 == value);
                    } else {
                        assert(entries@[j].1 == self.entries@[j].1);
                        assert(m[entries@[j].0@] == self.map@[self.entries@[j].0@]);
                    }
                } else {
                    assert(!found);
                    assert(entries@[j].0@ == key@);
                }
            }
            assert forall|k2: Seq<char>| #[trigger] m.dom().contains(k2) implies exists|j: int|
                0 <= j < entries@.len() && (#[trigger] entries@[j]).0@ == k2 by {
                if k2 == key@ {
                    if found {
                        let j = choose|j: int| 0 <= j < self.entries@.len() && (#[trigger] self.entries@[j]).0@ == key@;
                        assert(entries@[j].0@ == k2);
                    } else {
                        assert(entries@[entries@.len() - 1].0@ == k2);
                    }
                } else {
                    let j = choose|j: int|
                        0 <= j < self.entries@.len() && (#[trigger] self.entries@[j]).0@ == k2;
                    assert(entries@[j].0@ == k2);
                }
            }
        }
        assert(table_matches(entries@, m));
        *self = Tokens { entries, map: Ghost(m) };
    }
}

// ───────────────────────── reading a scheme ─────────────────────────

/// The text that opens the dark scheme's block.
pub open spec fn dark_marker() -> Seq<char> {
    "prefers-color-scheme: dark"@
}

/// `--name: value;` split into its two halves: the name with its `--`, and the
/// value without surrounding whitespace or trailing semicolons.
pub open spec fn declaration_spec(line: Seq<char>) -> Option<(Seq<char>, Seq<char>)> {
    match strip_prefix(line, "--"@) {
        Some(l) => match split_once(l, ':') {
            Some((name, rest)) => Some(
                ("--"@ + trim(name), trim(trim_end_matches(trim(rest), ";"@))),
            ),
            None => None,
        },
        None => None,
    }
}

/// What reading a stylesheet for one scheme has gathered after some lines:
/// the brace depth, the depth at which the dark block opened if the reading is
/// inside it, and the properties defined so far.
pub type SchemeScan = (nat, Option<nat>, Map<Seq<char>, Rgb>);

/// One line of a stylesheet read for one scheme. A declaration counts for the
/// light scheme only outside the dark block, and for the dark scheme anywhere:
/// the dark block's values are layered over the light ones.
pub open spec fn scheme_step(st: SchemeScan, line: Seq<char>, dark: bool) -> SchemeScan {
    let t = trim(line);
    let dark_at = if contains(t, dark_marker()) {
        Some(st.0)
    } else {
        st.1
    };
    let closes = count_char(t, '}');
    let depth = st.0 + count_char(t, '{');
    let wanted = dark || dark_at is None;
    let map = if wanted {
        match declaration_spec(t) {
            Some((name, value)) => match parse_spec(value) {
                Some(rgb) => st.2.insert(name, rgb),
                None => st.2,
            },
            None => st.2,
        }
    } else {
        st.2
    };
    let after = if depth >= closes {
        (depth - closes) as nat
    } else {
        0
    };
    let dark_after = match dark_at {
        Some(d) => if after <= d && closes > 0 {
            None
        } else {
            Some(d)
        },
        None => None,
    };
    (after, dark_after, map)
}

/// The state after reading `ls` in order.
pub open spec fn scheme_scan(ls: Seq<Seq<char>>, dark: bool) -> SchemeScan
    decreases ls.len(),
{
    if ls.len() == 0 {
        (0, None, Map::empty())
    } else {
        scheme_step(scheme_scan(ls.drop_last(), dark), ls.last(), dark)
    }
}

/// Whether `scheme` names the dark scheme; any other name reads as light.
pub open spec fn is_dark(scheme: Seq<char>) -> bool {
    scheme == "dark"@
}

/// Every custom property defined in one scheme of `css`, resolved to a colour.
pub open spec fn tokens_spec(css: Seq<char>, scheme: Seq<char>) -> Map<Seq<char>, Rgb> {
    scheme_scan(lines(css), is_dark(scheme)).2
}

proof fn lemma_scan_depth(ls: Seq<Seq<char>>, dark: bool)
    ensures
        scheme_scan(ls, dark).0 <= total_len(ls),
        scheme_scan(ls, dark).1 matches Some(d) ==> d <= total_len(ls),
    decreases ls.len(),
{
    if ls.len() > 0 {
        lemma_scan_depth(ls.drop_last(), dark);
        lemma_trim_len(ls.last());
        lemma_count_le_len(trim(ls.last()), '{');
    }
}

/// Reading for either scheme tracks the same depth and the same dark block;
/// every property the light reading defines, the dark reading defines too.
proof fn lemma_dark_covers_light(ls: Seq<Seq<char>>)
    ensures
        scheme_scan(ls, true).0 == scheme_scan(ls, false).0,
        scheme_scan(ls, true).1 == scheme_scan(ls, false).1,
        scheme_scan(ls, false).2.dom().subset_of(scheme_scan(ls, true).2.dom()),
    decreases ls.len(),
{
    if ls.len() > 0 {
        lemma_dark_covers_light(ls.drop_last());
        let l = scheme_scan(ls.drop_last(), false).2;
        let d = scheme_scan(ls.drop_last(), true).2;
        let t = trim(ls.last());
        match declaration_spec(t) {
            Some((name, value)) => {
                match parse_spec(value) {
                    Some(rgb) => {
                        assert(l.insert(name, rgb).dom() =~= l.dom().insert(name));
                        assert(d.insert(name, rgb).dom() =~= d.dom().insert(name));
                    },
                    None => {},
                }
            },
            None => {},
        }
    }
}

/// Every property the light scheme defines, the dark scheme defines too: the
/// dark block is layered over the light values, so a property the dark block
/// leaves out keeps a value rather than going missing.
pub proof fn law_dark_covers_light(css: Seq<char>, name: Seq<char>)
    requires
        tokens_spec(css, "light"@).contains_key(name),
    ensures
        tokens_spec(css, "dark"@).contains_key(name),
{
    reveal_strlit("light");
    reveal_strlit("dark");
    assert("light"@.len() != "dark"@.len());
    assert(!is_dark("light"@));
    assert(is_dark("dark"@));
    lemma_dark_covers_light(lines(css));
}

/// Without a dark block, reading for either scheme reads the same.
proof fn lemma_no_dark_block(ls: Seq<Seq<char>>)
    requires
        forall|i: int| 0 <= i < ls.len() ==> !contains(trim(#[trigger] ls[i]), dark_marker()),
    ensures
        scheme_scan(ls, true) == scheme_scan(ls, false),
        scheme_scan(ls, false).1 is None,
    decreases ls.len(),
{
    if ls.len() > 0 {
        assert forall|i: int| 0 <= i < ls.drop_last().len() implies !contains(
            trim(#[trigger] ls.drop_last()[i]),
            dark_marker(),
        ) by {
            assert(ls.drop_last()[i] == ls[i]);
        }
        lemma_no_dark_block(ls.drop_last());
        assert(!contains(trim(ls[ls.len() - 1]), dark_marker()));
    }
}

/// Line `i` of `ls` lies in the dark block: it opens it, or the block opened
/// earlier and the braces have not yet closed it.
pub open spec fn in_dark_block(ls: Seq<Seq<char>>, i: int) -> bool {
    contains(trim(ls[i]), dark_marker()) || scheme_scan(ls.take(i), false).1 is Some
}

/// Line `i` counts for the scheme: always for the dark one, and outside the
/// dark block for any other.
pub open spec fn counted(ls: Seq<Seq<char>>, i: int, dark: bool) -> bool {
    dark || !in_dark_block(ls, i)
}

/// The property a line defines: its name, and the colour its value parses to.
pub open spec fn line_token(line: Seq<char>) -> Option<(Seq<char>, Rgb)> {
    match declaration_spec(trim(line)) {
        Some((name, value)) => match parse_spec(value) {
            Some(c) => Some((name, c)),
            None => None,
        },
        None => None,
    }
}

/// Line `i` counts for the scheme and defines `name`.
pub open spec fn defines(ls: Seq<Seq<char>>, i: int, dark: bool, name: Seq<char>) -> bool {
    counted(ls, i, dark) && (line_token(ls[i]) matches Some((n, _)) && n == name)
}

/// A declaration in words: `--n:v`, with no `:` in `n`, names `--` and `n`
/// trimmed, and its value is `v` trimmed, without trailing `;`, trimmed again.
/// Nothing else is a declaration.
pub proof fn law_declaration_in_words(t: Seq<char>)
    ensures
        declaration_spec(t) is Some <==> exists|n: Seq<char>, v: Seq<char>|
            (forall|j: int| 0 <= j < n.len() ==> n[j] != ':') && #[trigger] ("--"@ + n + ":"@ + v) == t,
        forall|n: Seq<char>, v: Seq<char>|
            (forall|j: int| 0 <= j < n.len() ==> n[j] != ':') && #[trigger] ("--"@ + n + ":"@ + v) == t
                ==> declaration_spec(t) == Some(
                ("--"@ + trim(n), trim(trim_end_matches(trim(v), ";"@))),
            ),
{
    reveal_strlit("--");
    reveal_strlit(":");
    assert forall|n: Seq<char>, v: Seq<char>|
        (forall|j: int| 0 <= j < n.len() ==> n[j] != ':') && #[trigger] ("--"@ + n + ":"@ + v) == t
            implies declaration_spec(t) == Some(
            ("--"@ + trim(n), trim(trim_end_matches(trim(v), ";"@))),
        ) by {
        let l = n + ":"@ + v;
        assert(t.take(2) =~= "--"@);
        assert(t.skip(2) =~= l);
        assert(l[n.len() as int] == ':');
        assert forall|j: int| 0 <= j < n.len() implies l[j] != ':' by {
            assert(l[j] == n[j]);
        }
        lemma_find_char_at(l, ':', n.len() as int);
        assert(l.take(n.len() as int) =~= n);
        assert(l.skip(n.len() as int + 1) =~= v);
    }
    if declaration_spec(t) is Some {
        let l = t.skip(2);
        lemma_find_char_found(l, ':');
        let i = find_char(l, ':')->0;
        let n = l.take(i);
        let v = l.skip(i + 1);
        assert forall|j: int| 0 <= j < n.len() implies n[j] != ':' by {
            assert(n[j] == l[j]);
        }
        assert(t.take(2) == "--"@);
        assert(("--"@ + n + ":"@ + v) =~= t);
    }
}

proof fn lemma_defines_prefix(ls: Seq<Seq<char>>, i: int, dark: bool, name: Seq<char>)
    requires
        0 <= i < ls.len() - 1,
    ensures
        defines(ls, i, dark, name) == defines(ls.drop_last(), i, dark, name),
{
    assert(ls[i] == ls.drop_last()[i]);
    assert(ls.take(i) =~= ls.drop_last().take(i));
}

proof fn lemma_step_name(st: SchemeScan, line: Seq<char>, dark: bool, name: Seq<char>)
    ensures
        ({
            let wanted = dark || (!contains(trim(line), dark_marker()) && st.1 is None);
            let m = scheme_step(st, line, dark).2;
            if wanted && (line_token(line) matches Some((n, _)) && n == name) {
                m.contains_key(name) && m[name] == line_token(line).unwrap().1
            } else {
                m.contains_key(name) == st.2.contains_key(name) && (st.2.contains_key(name) ==> m[name]
                    == st.2[name])
            }
        }),
{
}

#[verifier::spinoff_prover]
#[verifier::rlimit(80)]
proof fn lemma_scan_name(ls: Seq<Seq<char>>, dark: bool, name: Seq<char>)
    ensures
        scheme_scan(ls, dark).2.contains_key(name) <==> exists|i: int|
            0 <= i < ls.len() && #[trigger] defines(ls, i, dark, name),
        forall|i: int|
            0 <= i < ls.len() && #[trigger] defines(ls, i, dark, name) && (forall|j: int|
                i < j < ls.len() ==> !defines(ls, j, dark, name)) ==> scheme_scan(ls, dark).2[name]
                == line_token(ls[i]).unwrap().1,
    decreases ls.len(),
{
    if ls.len() > 0 {
        let p = ls.drop_last();
        let last = ls.len() - 1;
        lemma_scan_name(p, dark, name);
        assert(ls.take(last) =~= p);
        assert(ls[last] == ls.last());
        let m = scheme_scan(ls, dark).2;
        let mp = scheme_scan(p, dark).2;
        lemma_step_name(scheme_scan(p, dark), ls.last(), dark, name);
        assert(counted(ls, last, dark) == (dark || (!contains(trim(ls.last()), dark_marker())
            && scheme_scan(p, false).1 is None)));
        if !dark {
            assert(scheme_scan(p, dark) == scheme_scan(p, false));
        }
        if !defines(ls, last, dark, name) {
            assert(m.contains_key(name) == mp.contains_key(name));
            assert(m.contains_key(name) ==> m[name] == mp[name]);
            if mp.contains_key(name) {
                let i = choose|i: int| 0 <= i < p.len() && #[trigger] defines(p, i, dark, name);
                lemma_defines_prefix(ls, i, dark, name);
            }
            if exists|i: int| 0 <= i < ls.len() && #[trigger] defines(ls, i, dark, name) {
                let i = choose|i: int| 0 <= i < ls.len() && #[trigger] defines(ls, i, dark, name);
                lemma_defines_prefix(ls, i, dark, name);
            }
            assert forall|i: int|
                0 <= i < ls.len() && #[trigger] defines(ls, i, dark, name) && (forall|j: int|
                    i < j < ls.len() ==> !defines(ls, j, dark, name)) implies m[name]
                    == line_token(ls[i]).unwrap().1 by {
                lemma_defines_prefix(ls, i, dark, name);
                assert forall|j: int| i < j < p.len() implies !defines(p, j, dark, name) by {
                    lemma_defines_prefix(ls, j, dark, name);
                    assert(!defines(ls, j, dark, name));
                }
            }
        } else {
            assert(m.contains_key(name));
            assert(m[name] == line_token(ls[last]).unwrap().1);
        }
    }
}

/// The table of one scheme, line by line: a property is defined exactly when
/// some line counted for the scheme declares it as `--name: value` with a
/// value that parses as a colour, and its colour is that of the last such
/// line, later lines overriding earlier ones. For any scheme but `dark`, the
/// lines of the dark block do not count.
pub proof fn law_tokens_line_by_line(css: Seq<char>, scheme: Seq<char>)
    ensures
        forall|name: Seq<char>|
            tokens_spec(css, scheme).contains_key(name) <==> exists|i: int|
                0 <= i < lines(css).len() && #[trigger] defines(lines(css), i, is_dark(scheme), name),
        forall|name: Seq<char>, i: int|
            0 <= i < lines(css).len() && #[trigger] defines(lines(css), i, is_dark(scheme), name)
                && (forall|j: int|
                i < j < lines(css).len() ==> !defines(lines(css), j, is_dark(scheme), name))
                ==> tokens_spec(css, scheme)[name] == line_token(lines(css)[i]).unwrap().1,
{
    let ls = lines(css);
    let dark = is_dark(scheme);
    assert forall|name: Seq<char>| tokens_spec(css, scheme).contains_key(name) <==> exists|i: int|
        0 <= i < ls.len() && #[trigger] defines(ls, i, dark, name) by {
        lemma_scan_name(ls, dark, name);
    }
    assert forall|name: Seq<char>, i: int|
        0 <= i < ls.len() && #[trigger] defines(ls, i, dark, name) && (forall|j: int|
            i < j < ls.len() ==> !defines(ls, j, dark, name)) implies tokens_spec(css, scheme)[name]
            == line_token(ls[i]).unwrap().1 by {
        lemma_scan_name(ls, dark, name);
    }
}

/// A stylesheet with no dark block defines the same properties for both
/// schemes, and any scheme named other than `dark` reads as the light one. A
/// stylesheet that nowhere mentions `prefers-color-scheme: dark` has no dark
/// block.
pub proof fn law_schemes_without_a_dark_block_agree(css: Seq<char>, scheme: Seq<char>)
    ensures
        scheme != "dark"@ ==> tokens_spec(css, scheme) == tokens_spec(css, "light"@),
        (forall|i: int|
            0 <= i < lines(css).len() ==> !contains(trim(#[trigger] lines(css)[i]), dark_marker()))
            ==> tokens_spec(css, "light"@) == tokens_spec(css, "dark"@),
        !contains(css, dark_marker()) ==> tokens_spec(css, "light"@) == tokens_spec(css, "dark"@),
{
    reveal_strlit("light");
    reveal_strlit("dark");
    assert("light"@.len() != "dark"@.len());
    if !contains(css, dark_marker()) {
        lemma_lines_infix(css);
        assert forall|i: int| 0 <= i < lines(css).len() implies !contains(
            trim(#[trigger] lines(css)[i]),
            dark_marker(),
        ) by {
            let l = lines(css)[i];
            lemma_trim_infix(l);
            lemma_infix_trans(trim(l), l, css);
            if contains(trim(l), dark_marker()) {
                lemma_contains_in_infix(trim(l), css, dark_marker());
            }
        }
    }
    if forall|i: int|
        0 <= i < lines(css).len() ==> !contains(trim(#[trigger] lines(css)[i]), dark_marker()) {
        lemma_no_dark_block(lines(css));
    }
}

/// `--name: value;` split into its two halves.
fn declaration(line: &Vec<char>) -> (r: Option<(Vec<char>, Vec<char>)>)
    ensures
        r matches Some(p) ==> declaration_spec(line@) == Some((p.0@, p.1@)),
        r is None ==> declaration_spec(line@) is None,
{
    let l = match strip_prefix_exec(line, &chars_of("--")) {
        Some(l) => l,
        None => return None,
    };
    let (name, rest) = match split_once_exec(&l, ':') {
        Some(p) => p,
        None => return None,
    };
    let value = trim_vec(&trim_end_matches_exec(&trim_vec(&rest), &chars_of(";")));
    let mut full = chars_of("--");
    let mut trimmed_name = trim_vec(&name);
    full.append(&mut trimmed_name);
    Some((full, value))
}

/// Every custom property defined in one scheme, resolved to a colour.
///
/// A stylesheet is read twice: once for the properties outside any media query
/// (light), once with the `prefers-color-scheme: dark` block's properties
/// layered over them (dark). That mirrors how a browser resolves them, and it
/// is why a dark override that is missing shows up as the light value failing
/// its dark annotation rather than as nothing at all.
pub fn tokens_for_scheme(css: &str, scheme: &str) -> (out: Tokens)
    ensures
        out.view() == tokens_spec(css@, scheme@),
{
    let text = chars_of(css);
    let dark = eq_vec(&chars_of(scheme), &chars_of("dark"));
    let ls = lines_exec(&text);
    let ghost gl = lines(css@);
    proof {
        assert(text@.len() == css@.len());
        assert(text@.len() == text.len());
        lemma_lines_size(css@);
        assert(gl.len() == ls@.len());
    }
    let mut out = Tokens::new();
    let mut depth: usize = 0;
    let mut dark_at: Option<usize> = None;
    let mut i: usize = 0;
    while i < ls.len()
        invariant
            i <= ls@.len() == gl.len(),
            forall|k: int| 0 <= k < ls@.len() ==> (#[trigger] ls@[k])@ == gl[k],
            gl == lines(css@),
            dark == is_dark(scheme@),
            total_len(gl) <= css@.len(),
            css@.len() <= usize::MAX,
            depth == scheme_scan(gl.take(i as int), dark).0,
            dark_at matches Some(d) ==> scheme_scan(gl.take(i as int), dark).1 == Some(d as nat),
            dark_at is None ==> scheme_scan(gl.take(i as int), dark).1 is None,
            out.view() == scheme_scan(gl.take(i as int), dark).2,
        decreases ls@.len() - i,
    {
        let ghost before = scheme_scan(gl.take(i as int), dark);
        proof {
            assert(gl.take(i + 1).drop_last() =~= gl.take(i as int));
            assert(gl.take(i + 1).last() == gl[i as int]);
            lemma_total_len_prefix(gl, i as int);
            lemma_total_len_prefix(gl, i + 1);
            lemma_scan_depth(gl.take(i as int), dark);
            lemma_trim_len(gl[i as int]);
        }
        let t = trim_vec(&ls[i]);
        if contains_exec(&t, &chars_of("prefers-color-scheme: dark")) {
            dark_at = Some(depth);
        }
        let opens = count_char_exec(&t, '{');
        let closes = count_char_exec(&t, '}');
        assert(t@ == trim(gl[i as int]));
        assert(depth + opens <= total_len(gl.take(i + 1)));
        depth = depth + opens;
        let wanted = dark || dark_at.is_none();
        if wanted {
            if let Some((name, value)) = declaration(&t) {
                if let Some(rgb) = Rgb::parse_chars(&value) {
                    out.insert(&name, rgb);
                }
            }
        }
        depth = if depth >= closes { depth - closes } else { 0 };
        if let Some(d) = dark_at {
            if depth <= d && closes > 0 {
                dark_at = None;
            }
        }
        i += 1;
    }
    proof {
        assert(gl.take(ls@.len() as int) =~= gl);
    }
    out
}

// ───────────────────────── annotations ─────────────────────────

/// One `@contrast FG on BG LEVEL` annotation, with the scheme it was found in.
#[derive(Debug, Clone, PartialEq, Eq)]
pub struct Pairing {
    pub foreground: String,
    pub background: String,
    pub level: Level,
    /// `"light"` or `"dark"`, from which block of the stylesheet it came.
    pub scheme: String,
    /// 1-indexed line, so a failure says where to look.
    pub line: usize,
}

/// A pairing as values: foreground, background, level, scheme, line.
pub type PairingV = (Seq<char>, Seq<char>, Level, Seq<char>, nat);

pub open spec fn pairing_view(p: Pairing) -> PairingV {
    (p.foreground@, p.background@, p.level, p.scheme@, p.line as nat)
}

/// What reading annotations has gathered after some lines: whether the
/// reading is inside the dark block, the brace depth, the depth the dark block
/// opened at, and the annotations found.
pub type PairScan = (bool, nat, nat, Seq<PairingV>);

/// The annotation on a trimmed line, if it is one: `/* @contrast FG on BG
/// LEVEL */` with exactly those four words and a level that parses.
pub open spec fn annotation(t: Seq<char>) -> Option<(Seq<char>, Seq<char>, Level)> {
    match strip_prefix(t, "/* @contrast "@) {
        Some(rest) => {
            let w = words(trim(trim_end_matches(rest, "*/"@)));
            if w.len() == 4 && w[1] == "on"@ && level_spec(w[3]) is Some {
                Some((w[0], w[2], level_spec(w[3])->0))
            } else {
                None
            }
        },
        None => None,
    }
}

/// Line `index` (0-based) of a stylesheet, read for annotations.
pub open spec fn pair_step(st: PairScan, index: nat, line: Seq<char>) -> PairScan {
    let t = trim(line);
    let (in_dark, dark_depth) = if contains(t, dark_marker()) {
        (true, st.1)
    } else {
        (st.0, st.2)
    };
    let out = match annotation(t) {
        Some((fg, bg, level)) => st.3.push(
            (
                fg,
                bg,
                level,
                if in_dark {
                    "dark"@
                } else {
                    "light"@
                },
                index + 1,
            ),
        ),
        None => st.3,
    };
    let depth = st.1 + count_char(t, '{');
    let closes = count_char(t, '}');
    let after = if depth >= closes {
        (depth - closes) as nat
    } else {
        0
    };
    let still_dark = if in_dark && closes > 0 && after <= dark_depth {
        false
    } else {
        in_dark
    };
    (still_dark, after, dark_depth, out)
}

pub open spec fn pair_scan(ls: Seq<Seq<char>>) -> PairScan
    decreases ls.len(),
{
    if ls.len() == 0 {
        (false, 0, 0, Seq::empty())
    } else {
        pair_step(pair_scan(ls.drop_last()), (ls.len() - 1) as nat, ls.last())
    }
}

/// Every `@contrast` annotation of `css`, in order.
pub open spec fn pairings_spec(css: Seq<char>) -> Seq<PairingV> {
    pair_scan(lines(css)).3
}

/// What reading `ls` for annotations found says where each one is: its line,
/// 1-indexed, holds it, and the lines only grow.
proof fn lemma_pair_scan_lines(ls: Seq<Seq<char>>)
    ensures
        forall|k: int|
            #![trigger pair_scan(ls).3[k]]
            0 <= k < pair_scan(ls).3.len() ==> {
                let p = pair_scan(ls).3[k];
                &&& 1 <= p.4 <= ls.len()
                &&& annotation(trim(ls[p.4 - 1])) == Some((p.0, p.1, p.2))
                &&& (p.3 == "light"@ || p.3 == "dark"@)
            },
        forall|j: int, k: int|
            0 <= j < k < pair_scan(ls).3.len() ==> #[trigger] pair_scan(ls).3[j].4
                < #[trigger] pair_scan(ls).3[k].4,
    decreases ls.len(),
{
    if ls.len() > 0 {
        let prev = ls.drop_last();
        lemma_pair_scan_lines(prev);
        let before = pair_scan(prev).3;
        let after = pair_scan(ls).3;
        assert forall|k: int| 0 <= k < before.len() implies #[trigger] after[k] == before[k] by {
        }
        assert forall|k: int| 0 <= k < before.len() implies ls[before[k].4 - 1] == prev[before[k].4
            - 1] by {
        }
    }
}

/// Every annotated line of what was read yields a pairing.
proof fn lemma_pair_scan_complete(ls: Seq<Seq<char>>, i: int)
    requires
        0 <= i < ls.len(),
        annotation(trim(ls[i])) is Some,
    ensures
        exists|k: int| 0 <= k < pair_scan(ls).3.len() && (#[trigger] pair_scan(ls).3[k]).4 == i + 1,
    decreases ls.len(),
{
    let prev = ls.drop_last();
    if i < ls.len() - 1 {
        assert(prev[i] == ls[i]);
        lemma_pair_scan_complete(prev, i);
        let k = choose|k: int| 0 <= k < pair_scan(prev).3.len() && (#[trigger] pair_scan(prev).3[k]).4 == i + 1;
        assert(pair_scan(ls).3[k] == pair_scan(prev).3[k]);
    } else {
        let k = pair_scan(prev).3.len() as int;
        assert(pair_scan(ls).3[k].4 == i + 1);
    }
}

/// Every annotated line of a stylesheet yields a pairing on its line: with
/// the soundness and order below, the pairings are exactly one per annotated
/// line, in line order.
pub proof fn law_every_annotation_is_found(css: Seq<char>, i: int)
    requires
        0 <= i < lines(css).len(),
        annotation(trim(lines(css)[i])) is Some,
    ensures
        exists|k: int|
            0 <= k < pairings_spec(css).len() && (#[trigger] pairings_spec(css)[k]).4 == i + 1,
{
    lemma_pair_scan_complete(lines(css), i);
    let k = choose|k: int|
        0 <= k < pair_scan(lines(css)).3.len() && (#[trigger] pair_scan(lines(css)).3[k]).4 == i + 1;
    assert(pairings_spec(css)[k].4 == i + 1);
}

/// Each annotation found says where to look: its line number counts from 1,
/// that line of the stylesheet holds the annotation, its scheme is light or
/// dark, and the annotations come in the order of their lines.
pub proof fn law_pairings_point_at_their_lines(css: Seq<char>)
    ensures
        forall|k: int|
            #![trigger pairings_spec(css)[k]]
            0 <= k < pairings_spec(css).len() ==> {
                let p = pairings_spec(css)[k];
                &&& 1 <= p.4 <= lines(css).len()
                &&& annotation(trim(lines(css)[p.4 - 1])) == Some((p.0, p.1, p.2))
                &&& (p.3 == "light"@ || p.3 == "dark"@)
            },
        forall|j: int, k: int|
            0 <= j < k < pairings_spec(css).len() ==> #[trigger] pairings_spec(css)[j].4
                < #[trigger] pairings_spec(css)[k].4,
{
    lemma_pair_scan_lines(lines(css));
}

/// Reading for annotations tracks the dark block as reading for colours does.
proof fn lemma_pair_scan_dark(ls: Seq<Seq<char>>)
    ensures
        pair_scan(ls).0 == (scheme_scan(ls, false).1 is Some),
        pair_scan(ls).1 == scheme_scan(ls, false).0,
        pair_scan(ls).0 ==> pair_scan(ls).2 == scheme_scan(ls, false).1->0,
    decreases ls.len(),
{
    if ls.len() > 0 {
        lemma_pair_scan_dark(ls.drop_last());
    }
}

/// The name of the scheme a line belongs to.
pub open spec fn scheme_name(dark: bool) -> Seq<char> {
    if dark {
        "dark"@
    } else {
        "light"@
    }
}

/// The pairing the annotation on line `i` (counted from 0) reads as: its two
/// properties and level, the scheme of the block it stands in, and its line
/// counted from 1.
pub open spec fn line_pairing(ls: Seq<Seq<char>>, i: int) -> Option<PairingV> {
    match annotation(trim(ls[i])) {
        Some((fg, bg, level)) => Some((fg, bg, level, scheme_name(in_dark_block(ls, i)), (i + 1) as nat)),
        None => None,
    }
}

proof fn lemma_pair_scan_schemes(ls: Seq<Seq<char>>)
    ensures
        forall|k: int|
            #![trigger pair_scan(ls).3[k]]
            0 <= k < pair_scan(ls).3.len() ==> pair_scan(ls).3[k].3 == scheme_name(
                in_dark_block(ls, pair_scan(ls).3[k].4 - 1),
            ),
    decreases ls.len(),
{
    if ls.len() > 0 {
        let prev = ls.drop_last();
        lemma_pair_scan_schemes(prev);
        lemma_pair_scan_lines(prev);
        lemma_pair_scan_dark(prev);
        let before = pair_scan(prev).3;
        let after = pair_scan(ls).3;
        assert(ls.take(ls.len() - 1) =~= prev);
        assert(ls[ls.len() - 1] == ls.last());
        assert forall|k: int| 0 <= k < after.len() implies #[trigger] after[k].3 == scheme_name(
            in_dark_block(ls, after[k].4 - 1),
        ) by {
            if k < before.len() {
                assert(after[k] == before[k]);
                let i = before[k].4 - 1;
                assert(ls[i] == prev[i]);
                assert(ls.take(i) =~= prev.take(i));
            }
        }
    }
}

/// The pairings of a stylesheet, whole: one for each line whose trimmed text
/// is an `@contrast` annotation, in line order and no other; each holds the
/// annotation's two properties and level, the scheme of the block its line
/// stands in (`dark` inside the `prefers-color-scheme: dark` block, else
/// `light`), and its line counted from 1.
pub proof fn law_pairings_whole(css: Seq<char>)
    ensures
        forall|k: int|
            #![trigger pairings_spec(css)[k]]
            0 <= k < pairings_spec(css).len() ==> 1 <= pairings_spec(css)[k].4 <= lines(css).len()
                && line_pairing(lines(css), pairings_spec(css)[k].4 - 1) == Some(pairings_spec(css)[k]),
        forall|j: int, k: int|
            0 <= j < k < pairings_spec(css).len() ==> #[trigger] pairings_spec(css)[j].4
                < #[trigger] pairings_spec(css)[k].4,
        forall|i: int|
            0 <= i < lines(css).len() && #[trigger] line_pairing(lines(css), i) is Some ==> exists|k: int|
                0 <= k < pairings_spec(css).len() && (#[trigger] pairings_spec(css)[k]).4 == i + 1,
{
    let ls = lines(css);
    lemma_pair_scan_lines(ls);
    lemma_pair_scan_schemes(ls);
    assert forall|i: int| 0 <= i < ls.len() && #[trigger] line_pairing(ls, i) is Some implies exists|k: int|
        0 <= k < pairings_spec(css).len() && (#[trigger] pairings_spec(css)[k]).4 == i + 1 by {
        law_every_annotation_is_found(css, i);
    }
}

proof fn lemma_pair_depth(ls: Seq<Seq<char>>)
    ensures
        pair_scan(ls).1 <= total_len(ls),
    decreases ls.len(),
{
    if ls.len() > 0 {
        lemma_pair_depth(ls.drop_last());
        lemma_trim_len(ls.last());
        lemma_count_le_len(trim(ls.last()), '{');
    }
}

/// The annotation on a trimmed line.
fn annotation_exec(t: &Vec<char>) -> (r: Option<(Vec<char>, Vec<char>, Level)>)
    ensures
        r matches Some(a) ==> annotation(t@) == Some((a.0@, a.1@, a.2)),
        r is None ==> annotation(t@) is None,
{
    let rest = match strip_prefix_exec(t, &chars_of("/* @contrast ")) {
        Some(rest) => rest,
        None => return None,
    };
    let body = trim_vec(&trim_end_matches_exec(&rest, &chars_of("*/")));
    let w = words_exec(&body);
    if w.len() == 4 && eq_vec(&w[1], &chars_of("on")) {
        if let Some(level) = Level::parse_chars(&w[3]) {
            let fg = w[0].clone();
            let bg = w[2].clone();
            return Some((fg, bg, level));
        }
    }
    None
}

/// Every `@contrast` annotation in a stylesheet.
///
/// An annotation belongs to the scheme of the block it sits in, which is what
/// makes one token name checkable twice with two different values.
pub fn pairings(css: &str) -> (out: Vec<Pairing>)
    ensures
        out@.len() == pairings_spec(css@).len(),
        forall|k: int|
            0 <= k < out@.len() ==> pairing_view(#[trigger] out@[k]) == pairings_spec(css@)[k],
{
    let text = chars_of(css);
    let ls = lines_exec(&text);
    let ghost gl = lines(css@);
    proof {
        assert(text@.len() == text.len());
        lemma_lines_size(css@);
        assert(gl.len() == ls@.len());
    }
    let mut out: Vec<Pairing> = Vec::new();
    let mut in_dark = false;
    let mut depth: usize = 0;
    let mut dark_depth: usize = 0;
    let mut i: usize = 0;
    while i < ls.len()
        invariant
            i <= ls@.len() == gl.len(),
            forall|k: int| 0 <= k < ls@.len() ==> (#[trigger] ls@[k])@ == gl[k],
            total_len(gl) <= css@.len() <= usize::MAX,
            gl.len() <= css@.len(),
            in_dark == pair_scan(gl.take(i as int)).0,
            depth == pair_scan(gl.take(i as int)).1,
            dark_depth == pair_scan(gl.take(i as int)).2,
            out@.len() == pair_scan(gl.take(i as int)).3.len(),
            forall|k: int|
                0 <= k < out@.len() ==> pairing_view(#[trigger] out@[k]) == pair_scan(
                    gl.take(i as int),
                ).3[k],
        decreases ls@.len() - i,
    {
        proof {
            assert(gl.take(i + 1).drop_last() =~= gl.take(i as int));
            assert(gl.take(i + 1).last() == gl[i as int]);
            lemma_total_len_prefix(gl, i as int);
            lemma_total_len_prefix(gl, i + 1);
            lemma_pair_depth(gl.take(i as int));
            lemma_trim_len(gl[i as int]);
        }
        let t = trim_vec(&ls[i]);
        assert(t@ == trim(gl[i as int]));
        if contains_exec(&t, &chars_of("prefers-color-scheme: dark")) {
            in_dark = true;
            dark_depth = depth;
        }
        let ghost out_before = out@;
        if let Some((fg, bg, level)) = annotation_exec(&t) {
            let scheme = if in_dark {
                string_of(&chars_of("dark"))
            } else {
                string_of(&chars_of("light"))
            };
            out.push(
                Pairing {
                    foreground: string_of(&fg),
                    background: string_of(&bg),
                    level,
                    scheme,
                    line: i + 1,
                },
            );
            proof {
                assert forall|k: int| 0 <= k < out@.len() implies pairing_view(#[trigger] out@[k])
                    == pair_scan(gl.take(i + 1)).3[k] by {
                    if k < out@.len() - 1 {
                        assert(out@[k] == out_before[k]);
                    }
                }
            }
        }
        let opens = count_char_exec(&t, '{');
        let closes = count_char_exec(&t, '}');
        assert(depth + opens <= total_len(gl.take(i + 1)));
        depth = depth + opens;
        depth = if depth >= closes { depth - closes } else { 0 };
        if in_dark && closes > 0 && depth <= dark_depth {
            in_dark = false;
        }
        i += 1;
    }
    proof {
        assert(gl.take(ls@.len() as int) =~= gl);
    }
    out
}

} // verus!
