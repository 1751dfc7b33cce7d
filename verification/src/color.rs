//! Colours as sRGB bytes, parsed from the hex notation a stylesheet uses, and
//! the WCAG levels a pairing of two colours has to clear.

use vstd::prelude::*;

use crate::text::{
    chars_of, eq_vec, is_ws, trim, trim_end, trim_start, trim_vec, upper, upper_exec,
    ascii_upper,
};

verus! {

/// A color as sRGB bytes.
#[derive(Debug, Clone, Copy, PartialEq, Eq, Structural)]
pub struct Rgb {
    pub r: u8,
    pub g: u8,
    pub b: u8,
}

// ───────────────────────── specification ─────────────────────────

/// The number of bytes `c` takes in UTF-8.
pub open spec fn char_width(c: char) -> nat {
    let u = c as u32;
    if u < 0x80 {
        1
    } else if u < 0x800 {
        2
    } else if u < 0x10000 {
        3
    } else {
        4
    }
}

/// The number of bytes `s` takes in UTF-8 (`str::len`).
pub open spec fn byte_len(s: Seq<char>) -> nat
    decreases s.len(),
{
    if s.len() == 0 {
        0
    } else {
        byte_len(s.drop_last()) + char_width(s.last())
    }
}

/// Byte offset `n` of `s` falls between two characters.
pub open spec fn is_boundary(s: Seq<char>, n: nat) -> bool {
    exists|k: int| 0 <= k <= s.len() && byte_len(#[trigger] s.take(k)) == n
}

/// The value of one hexadecimal digit, either case.
pub open spec fn hex_digit(c: char) -> Option<u8> {
    if '0' <= c <= '9' {
        Some(((c as u32) - ('0' as u32)) as u8)
    } else if 'a' <= c <= 'f' {
        Some(((c as u32) - ('a' as u32) + 10) as u8)
    } else if 'A' <= c <= 'F' {
        Some(((c as u32) - ('A' as u32) + 10) as u8)
    } else {
        None
    }
}

/// A byte written as two hex digits, high digit first.
pub open spec fn hex_pair(a: char, b: char) -> Option<u8> {
    match (hex_digit(a), hex_digit(b)) {
        (Some(x), Some(y)) => Some((x * 16 + y) as u8),
        _ => None,
    }
}

/// One shorthand digit doubled: `f` reads as `ff`.
pub open spec fn hex_double(c: char) -> Option<u8> {
    match hex_digit(c) {
        Some(x) => Some((x * 17) as u8),
        None => None,
    }
}

/// What follows the `'#'` of a trimmed colour, if it starts with one.
pub open spec fn hex_body(raw: Seq<char>) -> Option<Seq<char>> {
    let t = trim(raw);
    if t.len() > 0 && t[0] == '#' {
        Some(t.drop_first())
    } else {
        None
    }
}

/// `#RGB` or `#RRGGBB` in hex digits of either case, surrounding whitespace
/// ignored; anything else is no colour.
pub open spec fn parse_spec(raw: Seq<char>) -> Option<Rgb> {
    match hex_body(raw) {
        Some(h) => if h.len() == 3 {
            match (hex_double(h[0]), hex_double(h[1]), hex_double(h[2])) {
                (Some(r), Some(g), Some(b)) => Some(Rgb { r, g, b }),
                _ => None,
            }
        } else if h.len() == 6 {
            match (hex_pair(h[0], h[1]), hex_pair(h[2], h[3]), hex_pair(h[4], h[5])) {
                (Some(r), Some(g), Some(b)) => Some(Rgb { r, g, b }),
                _ => None,
            }
        } else {
            None
        },
        None => None,
    }
}

// ───────────────────────── proofs ─────────────────────────

pub proof fn lemma_width_pos(c: char)
    ensures
        1 <= char_width(c) <= 4,
        char_width(c) == 1 <==> (c as u32) < 0x80,
{
}

// ───────────────────────── exec ─────────────────────────

pub fn char_width_exec(c: char) -> (w: usize)
    ensures
        w == char_width(c),
{
    let u = c as u32;
    if u < 0x80 {
        1
    } else if u < 0x800 {
        2
    } else if u < 0x10000 {
        3
    } else {
        4
    }
}

/// Byte length never shrinks as characters are added.
pub proof fn lemma_byte_len_prefix(s: Seq<char>, i: int)
    requires
        0 <= i <= s.len(),
    ensures
        byte_len(s.take(i)) <= byte_len(s),
    decreases s.len() - i,
{
    if i < s.len() {
        lemma_byte_len_prefix(s.drop_last(), i);
        assert(s.drop_last().take(i) =~= s.take(i));
    } else {
        assert(s.take(i) =~= s);
    }
}

fn hex_digit_exec(c: char) -> (v: Option<u8>)
    ensures
        v == hex_digit(c),
{
    if '0' <= c && c <= '9' {
        Some(((c as u32) - ('0' as u32)) as u8)
    } else if 'a' <= c && c <= 'f' {
        Some(((c as u32) - ('a' as u32) + 10) as u8)
    } else if 'A' <= c && c <= 'F' {
        Some(((c as u32) - ('A' as u32) + 10) as u8)
    } else {
        None
    }
}

fn hex_pair_exec(a: char, b: char) -> (v: Option<u8>)
    ensures
        v == hex_pair(a, b),
{
    match (hex_digit_exec(a), hex_digit_exec(b)) {
        (Some(x), Some(y)) => Some(x * 16 + y),
        _ => None,
    }
}

fn hex_double_exec(c: char) -> (v: Option<u8>)
    ensures
        v == hex_double(c),
{
    match hex_digit_exec(c) {
        Some(x) => Some(x * 17),
        None => None,
    }
}

impl Rgb {
    /// Parse `#RGB` or `#RRGGBB`. Returns `None` for anything else, including a
    /// CSS color name or a `var(...)` that was not resolved first.
    pub fn parse(raw: &str) -> (out: Option<Rgb>)
        ensures
            out == parse_spec(raw@),
    {
        let chars = chars_of(raw);
        Self::parse_chars(&chars)
    }

    /// `parse` on the characters of the text.
    pub fn parse_chars(raw: &Vec<char>) -> (out: Option<Rgb>)
        ensures
            out == parse_spec(raw@),
    {
        let t = trim_vec(raw);
        if t.len() == 0 || t[0] != '#' {
            return None;
        }
        let mut h: Vec<char> = Vec::new();
        let mut i: usize = 1;
        while i < t.len()
            invariant
                1 <= i <= t.len(),
                h@ == t@.subrange(1, i as int),
            decreases t.len() - i,
        {
            h.push(t[i]);
            i += 1;
            assert(h@ =~= t@.subrange(1, i as int));
        }
        assert(h@ =~= t@.drop_first());
        if h.len() == 3 {
            match (hex_double_exec(h[0]), hex_double_exec(h[1]), hex_double_exec(h[2])) {
                (Some(r), Some(g), Some(b)) => Some(Rgb { r, g, b }),
                _ => None,
            }
        } else if h.len() == 6 {
            match (hex_pair_exec(h[0], h[1]), hex_pair_exec(h[2], h[3]), hex_pair_exec(h[4], h[5])) {
                (Some(r), Some(g), Some(b)) => Some(Rgb { r, g, b }),
                _ => None,
            }
        } else {
            None
        }
    }
}

/// What a pairing has to clear.
#[derive(Debug, Clone, Copy, PartialEq, Eq, Structural)]
pub enum Level {
    /// Body text: 4.5:1.
    Aa,
    /// Large text — 24px, or 18.66px bold: 3:1.
    AaLarge,
    /// A control boundary or a focus ring, WCAG 1.4.11: 3:1.
    Ui,
}

/// `AA`, `AA-LARGE` or `UI`, in any ASCII case, surrounding whitespace ignored.
pub open spec fn level_spec(raw: Seq<char>) -> Option<Level> {
    let u = upper(trim(raw));
    if u == "AA"@ {
        Some(Level::Aa)
    } else if u == "AA-LARGE"@ {
        Some(Level::AaLarge)
    } else if u == "UI"@ {
        Some(Level::Ui)
    } else {
        None
    }
}

/// The name a level is written with.
pub open spec fn level_name(l: Level) -> Seq<char> {
    match l {
        Level::Aa => "AA"@,
        Level::AaLarge => "AA-LARGE"@,
        Level::Ui => "UI"@,
    }
}

impl Level {
    pub fn parse(raw: &str) -> (out: Option<Level>)
        ensures
            out == level_spec(raw@),
    {
        let chars = chars_of(raw);
        Self::parse_chars(&chars)
    }

    /// `parse` on the characters of the text.
    pub fn parse_chars(raw: &Vec<char>) -> (out: Option<Level>)
        ensures
            out == level_spec(raw@),
    {
        let t = trim_vec(raw);
        let u = upper_exec(&t);
        if eq_vec(&u, &chars_of("AA")) {
            Some(Level::Aa)
        } else if eq_vec(&u, &chars_of("AA-LARGE")) {
            Some(Level::AaLarge)
        } else if eq_vec(&u, &chars_of("UI")) {
            Some(Level::Ui)
        } else {
            None
        }
    }

    pub fn name(self) -> (s: &'static str)
        ensures
            s@ == level_name(self),
    {
        match self {
            Level::Aa => "AA",
            Level::AaLarge => "AA-LARGE",
            Level::Ui => "UI",
        }
    }
}

// ───────────────────────── laws ─────────────────────────

proof fn lemma_digit_not_space(c: char)
    requires
        hex_digit(c) is Some,
    ensures
        !is_ws(c),
        (c as u32) < 0x80,
        c != '+',
        c != '#',
{
}

/// `'#'` followed by hex digits reads as itself, with no whitespace to trim.
proof fn lemma_trim_hex(h: Seq<char>)
    requires
        h.len() > 0,
        forall|i: int| 0 <= i < h.len() ==> hex_digit(#[trigger] h[i]) is Some,
    ensures
        trim(seq!['#'] + h) == seq!['#'] + h,
        hex_body(seq!['#'] + h) == Some(h),
{
    let s = seq!['#'] + h;
    assert(s[0] == '#');
    assert(s.last() == h.last());
    lemma_digit_not_space(h.last());
    assert(trim_start(s) == s);
    assert(trim_end(s) == s);
    assert(s.drop_first() =~= h);
}

/// A shorthand colour is its longhand with every digit written twice:
/// `#abc` parses to the same colour as `#aabbcc`.
pub proof fn law_shorthand_is_longhand(a: char, b: char, c: char)
    requires
        hex_digit(a) is Some,
        hex_digit(b) is Some,
        hex_digit(c) is Some,
    ensures
        parse_spec(seq!['#', a, b, c]) is Some,
        parse_spec(seq!['#', a, b, c]) == parse_spec(seq!['#', a, a, b, b, c, c]),
{
    let short = seq![a, b, c];
    let long = seq![a, a, b, b, c, c];
    assert forall|i: int| 0 <= i < short.len() implies hex_digit(#[trigger] short[i]) is Some by {
    }
    assert forall|i: int| 0 <= i < long.len() implies hex_digit(#[trigger] long[i]) is Some by {
    }
    lemma_trim_hex(short);
    lemma_trim_hex(long);
    assert(seq!['#'] + short =~= seq!['#', a, b, c]);
    assert(seq!['#'] + long =~= seq!['#', a, a, b, b, c, c]);
    lemma_digit_not_space(a);
    lemma_digit_not_space(b);
    lemma_digit_not_space(c);
}

/// Hex digits read the same in either case: `#B14B2E` is `#b14b2e`.
pub proof fn law_digits_in_either_case(h: Seq<char>)
    requires
        h.len() == 3 || h.len() == 6,
        forall|i: int| 0 <= i < h.len() ==> hex_digit(#[trigger] h[i]) is Some,
    ensures
        parse_spec(seq!['#'] + h) is Some,
        parse_spec(seq!['#'] + upper(h)) == parse_spec(seq!['#'] + h),
{
    let u = upper(h);
    assert forall|i: int| 0 <= i < u.len() implies hex_digit(#[trigger] u[i]) == hex_digit(h[i]) by {
        assert(u[i] == ascii_upper(h[i]));
    }
    assert forall|i: int| 0 <= i < u.len() implies hex_digit(#[trigger] u[i]) is Some by {
        assert(hex_digit(u[i]) == hex_digit(h[i]));
    }
    lemma_trim_hex(h);
    lemma_trim_hex(u);
    if h.len() == 3 {
        assert(hex_digit(u[0]) == hex_digit(h[0]));
        assert(hex_digit(u[1]) == hex_digit(h[1]));
        assert(hex_digit(u[2]) == hex_digit(h[2]));
    } else {
        assert(hex_digit(u[0]) == hex_digit(h[0]));
        assert(hex_digit(u[1]) == hex_digit(h[1]));
        assert(hex_digit(u[2]) == hex_digit(h[2]));
        assert(hex_digit(u[3]) == hex_digit(h[3]));
        assert(hex_digit(u[4]) == hex_digit(h[4]));
        assert(hex_digit(u[5]) == hex_digit(h[5]));
        lemma_digit_not_space(h[0]);
        lemma_digit_not_space(h[2]);
        lemma_digit_not_space(h[4]);
        lemma_digit_not_space(u[0]);
        lemma_digit_not_space(u[2]);
        lemma_digit_not_space(u[4]);
    }
}

proof fn lemma_ascii_byte_len(s: Seq<char>)
    requires
        forall|i: int| 0 <= i < s.len() ==> (#[trigger] s[i] as u32) < 0x80,
    ensures
        byte_len(s) == s.len(),
    decreases s.len(),
{
    if s.len() > 0 {
        assert(s.last() == s[s.len() - 1]);
        assert forall|i: int| 0 <= i < s.drop_last().len() implies (#[trigger] s.drop_last()[i] as u32)
            < 0x80 by {
            assert(s.drop_last()[i] == s[i]);
        }
        lemma_ascii_byte_len(s.drop_last());
    }
}

/// The colours `Rgb::parse` accepts are exactly the texts that, trimmed, are
/// `#` and then three or six hex digits. Such a text has one byte per
/// character, so it is 4 or 7 bytes long.
pub proof fn law_parse_accepts_hex_colours(raw: Seq<char>)
    ensures
        parse_spec(raw) is Some <==> ({
            let t = trim(raw);
            &&& t.len() > 0 && t[0] == '#'
            &&& t.len() == 4 || t.len() == 7
            &&& forall|i: int| 1 <= i < t.len() ==> hex_digit(#[trigger] t[i]) is Some
        }),
        parse_spec(raw) is Some ==> byte_len(trim(raw)) == trim(raw).len(),
{
    let t = trim(raw);
    if t.len() > 0 && t[0] == '#' {
        let h = t.drop_first();
        assert(hex_body(raw) == Some(h));
        let all_hex = forall|i: int| 1 <= i < t.len() ==> hex_digit(#[trigger] t[i]) is Some;
        assert forall|i: int| 0 <= i < h.len() implies h[i] == t[i + 1] by {
        }
        if parse_spec(raw) is Some {
            assert(h.len() == 3 || h.len() == 6);
            assert forall|i: int| 1 <= i < t.len() implies hex_digit(#[trigger] t[i]) is Some by {
                assert(t[i] == h[i - 1]);
                if h.len() == 3 {
                    assert(hex_double(h[0]) is Some && hex_double(h[1]) is Some && hex_double(h[2]) is Some);
                } else {
                    assert(hex_pair(h[0], h[1]) is Some && hex_pair(h[2], h[3]) is Some && hex_pair(h[4], h[5]) is Some);
                }
            }
            assert forall|i: int| 0 <= i < t.len() implies (#[trigger] t[i] as u32) < 0x80 by {
                if i > 0 {
                    lemma_digit_not_space(t[i]);
                }
            }
            lemma_ascii_byte_len(t);
        }
        if (t.len() == 4 || t.len() == 7) && all_hex {
            assert(hex_digit(h[0]) is Some && hex_digit(h[1]) is Some && hex_digit(h[2]) is Some) by {
                assert(h[0] == t[1] && h[1] == t[2] && h[2] == t[3]);
            }
            if t.len() == 7 {
                assert(hex_digit(h[3]) is Some && hex_digit(h[4]) is Some && hex_digit(h[5]) is Some) by {
                    assert(h[3] == t[4] && h[4] == t[5] && h[5] == t[6]);
                }
            }
        }
    }
}

/// The hexadecimal digits are exactly those of `0123456789abcdef` and of
/// `0123456789ABCDEF`, each worth its place in that row.
pub proof fn law_hex_digits(c: char)
    ensures
        forall|i: int| 0 <= i < 16 ==> hex_digit(#[trigger] "0123456789abcdef"@[i]) == Some(i as u8),
        forall|i: int| 0 <= i < 16 ==> hex_digit(#[trigger] "0123456789ABCDEF"@[i]) == Some(i as u8),
        hex_digit(c) is Some <==> "0123456789abcdef"@.contains(c) || "0123456789ABCDEF"@.contains(c),
{
    reveal_strlit("0123456789abcdef");
    reveal_strlit("0123456789ABCDEF");
    let lo = "0123456789abcdef"@;
    let up = "0123456789ABCDEF"@;
    assert forall|i: int| 0 <= i < 16 implies hex_digit(#[trigger] lo[i]) == Some(i as u8) by {
        if i == 0 {} else if i == 1 {} else if i == 2 {} else if i == 3 {} else if i == 4 {} else if i == 5 {}
        else if i == 6 {} else if i == 7 {} else if i == 8 {} else if i == 9 {} else if i == 10 {}
        else if i == 11 {} else if i == 12 {} else if i == 13 {} else if i == 14 {} else {}
    }
    assert forall|i: int| 0 <= i < 16 implies hex_digit(#[trigger] up[i]) == Some(i as u8) by {
        if i == 0 {} else if i == 1 {} else if i == 2 {} else if i == 3 {} else if i == 4 {} else if i == 5 {}
        else if i == 6 {} else if i == 7 {} else if i == 8 {} else if i == 9 {} else if i == 10 {}
        else if i == 11 {} else if i == 12 {} else if i == 13 {} else if i == 14 {} else {}
    }
    if hex_digit(c) is Some {
        let u = c as u32;
        if '0' <= c <= '9' {
            let i = (u - ('0' as u32)) as int;
            assert(lo[i] == c);
        } else if 'a' <= c <= 'f' {
            let i = (u - ('a' as u32) + 10) as int;
            assert(lo[i] == c);
        } else {
            let i = (u - ('A' as u32) + 10) as int;
            assert(up[i] == c);
        }
    }
}

/// A colour written with the same digit six times is grey, every channel that
/// digit doubled: `#999999` is 153, 153, 153.
pub proof fn law_grey_of_one_digit(i: int)
    requires
        0 <= i < 16,
    ensures
        ({
            let d = "0123456789abcdef"@[i];
            parse_spec(seq!['#', d, d, d, d, d, d]) == Some(Rgb { r: (17 * i) as u8, g: (17 * i) as u8, b: (17 * i) as u8 })
        }),
{
    law_hex_digits('0');
    let d = "0123456789abcdef"@[i];
    let h = seq![d, d, d, d, d, d];
    assert forall|k: int| 0 <= k < h.len() implies hex_digit(#[trigger] h[k]) is Some by {}
    lemma_trim_hex(h);
    assert(seq!['#'] + h =~= seq!['#', d, d, d, d, d, d]);
    lemma_digit_not_space(d);
}

/// The name a level is written with parses back to that level.
pub proof fn law_level_name_parses(l: Level)
    ensures
        level_spec(level_name(l)) == Some(l),
{
    reveal_strlit("AA");
    reveal_strlit("AA-LARGE");
    reveal_strlit("UI");
    let n = level_name(l);
    assert(!is_ws(n[0]));
    assert(!is_ws(n.last()));
    assert(trim_start(n) == n);
    assert(trim_end(n) == n);
    assert(upper(n) =~= n);
    assert("AA"@.len() != "AA-LARGE"@.len());
    assert("AA"@[0] != "UI"@[0]);
    assert("AA-LARGE"@.len() != "UI"@.len());
}

} // verus!
