//! The check behind "the site definition really lives in git": every key the
//! repository declares must come back from `trovato config export` with the
//! same value.
//!
//! An export carries more than the site declares, so this is a one-way
//! comparison, not a diff. What it catches is a declaration that imported into
//! nothing, or that the database quietly changed on the way in.

use vstd::prelude::*;

use serde_yml::{Number, Tag, TaggedValue, Value};

use crate::color::{byte_len, char_width, char_width_exec, is_boundary, lemma_byte_len_prefix, lemma_width_pos};
use crate::text::{chars_of, eq_vec, push_char, trim, trim_vec};

verus! {

/// A YAML value as plain data. A float is kept as the text it displays as;
/// a mapping's keys are strings, each at most once.
#[derive(Debug)]
pub enum Yaml {
    Null,
    Bool(bool),
    Int(i64),
    Float(String),
    Str(String),
    List(Vec<Yaml>),
    Mapping(Vec<(String, Yaml)>),
    Tagged(String, Box<Yaml>),
}

// ───────────────────────── equality ─────────────────────────

/// Whether a float's text is a zero of either sign.
pub open spec fn is_zero_text(t: Seq<char>) -> bool {
    t == "0"@ || t == "-0"@
}

/// A tag without its leading `!`.
pub open spec fn nobang(t: Seq<char>) -> Seq<char> {
    if t.len() > 0 && t[0] == '!' {
        t.drop_first()
    } else {
        t
    }
}

/// The value stored at `key` in mapping entries.
pub open spec fn lookup(es: Seq<(String, Yaml)>, key: Seq<char>) -> Option<Yaml>
    decreases es.len(),
{
    if es.len() == 0 {
        None
    } else if es.last().0@ == key {
        Some(es.last().1)
    } else {
        lookup(es.drop_last(), key)
    }
}

/// Equality of YAML values as `serde_yml::Value`'s `==` decides it: floats by
/// value (the two zeros equal, every NaN equal to every other), mappings
/// regardless of key order, tags without their `!`.
pub open spec fn yaml_eq(a: Yaml, b: Yaml) -> bool
    decreases a,
{
    match (a, b) {
        (Yaml::Null, Yaml::Null) => true,
        (Yaml::Bool(x), Yaml::Bool(y)) => x == y,
        (Yaml::Int(x), Yaml::Int(y)) => x == y,
        (Yaml::Float(x), Yaml::Float(y)) => x@ == y@ || (is_zero_text(x@) && is_zero_text(y@)),
        (Yaml::Str(x), Yaml::Str(y)) => x@ == y@,
        (Yaml::List(x), Yaml::List(y)) => x@.len() == y@.len() && seqs_eq(x@, y@),
        (Yaml::Mapping(x), Yaml::Mapping(y)) => x@.len() == y@.len() && map_within_eq(x@, y@),
        (Yaml::Tagged(t, x), Yaml::Tagged(u, y)) => nobang(t@) == nobang(u@) && yaml_eq(*x, *y),
        _ => false,
    }
}

/// Element by element equality of two sequences of the same length.
pub open spec fn seqs_eq(xs: Seq<Yaml>, ys: Seq<Yaml>) -> bool
    decreases xs,
{
    if xs.len() == 0 || xs.len() != ys.len() {
        xs.len() == ys.len()
    } else {
        seqs_eq(xs.drop_last(), ys.drop_last()) && yaml_eq(xs.last(), ys.last())
    }
}

/// Every entry of `xs` is in `ys` with an equal value.
pub open spec fn map_within_eq(xs: Seq<(String, Yaml)>, ys: Seq<(String, Yaml)>) -> bool
    decreases xs,
{
    if xs.len() == 0 {
        true
    } else {
        map_within_eq(xs.drop_last(), ys) && match lookup(ys, xs.last().0@) {
            Some(w) => yaml_eq(xs.last().1, w),
            None => false,
        }
    }
}

// ───────────────────────── equivalence ─────────────────────────

/// A scalar as the text a YAML reader would see, or `None` for anything else.
pub open spec fn scalar_text(v: Yaml) -> Option<Seq<char>> {
    match v {
        Yaml::Str(s) => Some(trim(s@)),
        Yaml::Int(n) => Some(crate::site::padded(n as int, 0)),
        Yaml::Float(t) => Some(t@),
        Yaml::Bool(b) => Some(
            if b {
                "true"@
            } else {
                "false"@
            },
        ),
        _ => None,
    }
}

/// Whether two values mean the same thing.
///
/// Two shapes differ without disagreeing. A scalar the file wrote as a string
/// and the export wrote unquoted is the same value to a YAML reader, and a
/// mapping's key order is not part of its meaning. Anything else is
/// equivalent when it is equal, or when both are scalars that read as the same
/// text.
pub open spec fn equivalent_spec(a: Yaml, b: Yaml) -> bool
    decreases a,
{
    match (a, b) {
        (Yaml::Mapping(x), Yaml::Mapping(y)) => x@.len() == y@.len() && map_within_equiv(x@, y@),
        (Yaml::List(x), Yaml::List(y)) => x@.len() == y@.len() && seqs_equiv(x@, y@),
        _ => yaml_eq(a, b) || (scalar_text(a) is Some && scalar_text(a) == scalar_text(b)),
    }
}

pub open spec fn seqs_equiv(xs: Seq<Yaml>, ys: Seq<Yaml>) -> bool
    decreases xs,
{
    if xs.len() == 0 || xs.len() != ys.len() {
        xs.len() == ys.len()
    } else {
        seqs_equiv(xs.drop_last(), ys.drop_last()) && equivalent_spec(xs.last(), ys.last())
    }
}

pub open spec fn map_within_equiv(xs: Seq<(String, Yaml)>, ys: Seq<(String, Yaml)>) -> bool
    decreases xs,
{
    if xs.len() == 0 {
        true
    } else {
        map_within_equiv(xs.drop_last(), ys) && match lookup(ys, xs.last().0@) {
            Some(w) => equivalent_spec(xs.last().1, w),
            None => false,
        }
    }
}

// ───────────────────────── exec ─────────────────────────

fn lookup_exec<'a>(es: &'a Vec<(String, Yaml)>, key: &Vec<char>) -> (r: Option<&'a Yaml>)
    ensures
        r matches Some(v) ==> lookup(es@, key@) == Some(*v),
        r is None ==> lookup(es@, key@) is None,
{
    let mut i: usize = es.len();
    assert(es@.take(i as int) =~= es@);
    while i > 0
        invariant
            i <= es@.len(),
            lookup(es@, key@) == lookup(es@.take(i as int), key@),
        decreases i,
    {
        let ghost p = es@.take(i as int);
        assert(p.drop_last() =~= es@.take(i - 1));
        assert(p.last() == es@[i - 1]);
        let k = chars_of(es[i - 1].0.as_str());
        if eq_vec(&k, key) {
            return Some(&es[i - 1].1);
        }
        i -= 1;
    }
    None
}

/// What a mapping holds at `key`; nothing for a value that is not a mapping.
pub open spec fn value_at_spec(value: Yaml, key: Seq<char>) -> Option<Yaml> {
    match value {
        Yaml::Mapping(es) => lookup(es@, key),
        _ => None,
    }
}

/// The value a mapping holds at `key`, the last entry with that key where
/// there are several; `None` where `value` is no mapping or lacks the key.
pub fn value_at<'a>(value: &'a Yaml, key: &str) -> (r: Option<&'a Yaml>)
    ensures
        r matches Some(v) ==> value_at_spec(*value, key@) == Some(*v),
        r is None <==> value_at_spec(*value, key@) is None,
{
    match value {
        Yaml::Mapping(es) => lookup_exec(es, &chars_of(key)),
        _ => None,
    }
}

/// `==` on YAML values.
pub fn yaml_eq_exec(a: &Yaml, b: &Yaml) -> (r: bool)
    ensures
        r == yaml_eq(*a, *b),
    decreases a,
{
    match (a, b) {
        (Yaml::Null, Yaml::Null) => true,
        (Yaml::Bool(x), Yaml::Bool(y)) => *x == *y,
        (Yaml::Int(x), Yaml::Int(y)) => *x == *y,
        (Yaml::Float(x), Yaml::Float(y)) => {
            let xv = chars_of(x.as_str());
            let yv = chars_of(y.as_str());
            eq_vec(&xv, &yv) || ((eq_vec(&xv, &chars_of("0")) || eq_vec(&xv, &chars_of("-0")))
                && (eq_vec(&yv, &chars_of("0")) || eq_vec(&yv, &chars_of("-0"))))
        },
        (Yaml::Str(x), Yaml::Str(y)) => eq_vec(&chars_of(x.as_str()), &chars_of(y.as_str())),
        (Yaml::List(x), Yaml::List(y)) => {
            if x.len() != y.len() {
                return false;
            }
            let mut i: usize = 0;
            assert(x@.take(0) =~= Seq::<Yaml>::empty());
            assert(y@.take(0) =~= Seq::<Yaml>::empty());
            while i < x.len()
                invariant
                    i <= x@.len() == y@.len(),
                    *a == Yaml::List(*x),
                    *b == Yaml::List(*y),
                    seqs_eq(x@.take(i as int), y@.take(i as int)),
                decreases x@.len() - i,
            {
                assert(x@.take(i + 1).drop_last() =~= x@.take(i as int));
                assert(y@.take(i + 1).drop_last() =~= y@.take(i as int));
                assert(x@.take(i + 1).last() == x@[i as int]);
                assert(y@.take(i + 1).last() == y@[i as int]);
                proof {
                    assert(decreases_to!(*a => (*a)->List_0));
                    assert(decreases_to!(*x => x@));
                    assert(decreases_to!(x@ => x@[i as int]));
                    assert(decreases_to!(*a => x@[i as int]));
                }
                if !yaml_eq_exec(&x[i], &y[i]) {
                    proof {
                        lemma_seqs_eq_prefix(x@, y@, i + 1);
                        assert(x@.take(x@.len() as int) =~= x@);
                        assert(y@.take(y@.len() as int) =~= y@);
                    }
                    return false;
                }
                i += 1;
            }
            assert(x@.take(x@.len() as int) =~= x@);
            assert(y@.take(y@.len() as int) =~= y@);
            true
        },
        (Yaml::Mapping(x), Yaml::Mapping(y)) => {
            if x.len() != y.len() {
                return false;
            }
            let mut i: usize = 0;
            assert(x@.take(0) =~= Seq::<(String, Yaml)>::empty());
            while i < x.len()
                invariant
                    i <= x@.len(),
                    *a == Yaml::Mapping(*x),
                    *b == Yaml::Mapping(*y),
                    map_within_eq(x@.take(i as int), y@),
                decreases x@.len() - i,
            {
                assert(x@.take(i + 1).drop_last() =~= x@.take(i as int));
                assert(x@.take(i + 1).last() == x@[i as int]);
                let key = chars_of(x[i].0.as_str());
                proof {
                    assert(decreases_to!(*a => (*a)->Mapping_0));
                    assert(decreases_to!(*x => x@));
                    assert(decreases_to!(x@ => x@[i as int]));
                    assert(decreases_to!(x@[i as int] => x@[i as int].1));
                    assert(decreases_to!(*a => x@[i as int].1));
                }
                let ok = match lookup_exec(y, &key) {
                    Some(w) => yaml_eq_exec(&x[i].1, w),
                    None => false,
                };
                if !ok {
                    proof {
                        lemma_map_within_eq_prefix(x@, y@, i + 1);
                        assert(x@.take(x@.len() as int) =~= x@);
                    }
                    return false;
                }
                i += 1;
            }
            assert(x@.take(x@.len() as int) =~= x@);
            true
        },
        (Yaml::Tagged(t, x), Yaml::Tagged(u, y)) => {
            let tv = nobang_exec(&chars_of(t.as_str()));
            let uv = nobang_exec(&chars_of(u.as_str()));
            eq_vec(&tv, &uv) && yaml_eq_exec(&**x, &**y)
        },
        _ => false,
    }
}

fn nobang_exec(t: &Vec<char>) -> (r: Vec<char>)
    ensures
        r@ == nobang(t@),
{
    if t.len() > 0 && t[0] == '!' {
        crate::text::slice_vec(t, 1, t.len())
    } else {
        crate::text::slice_vec(t, 0, t.len())
    }
}

proof fn lemma_seqs_eq_prefix(xs: Seq<Yaml>, ys: Seq<Yaml>, i: int)
    requires
        0 <= i <= xs.len() == ys.len(),
        !seqs_eq(xs.take(i), ys.take(i)),
    ensures
        !seqs_eq(xs, ys),
    decreases xs.len() - i,
{
    if i < xs.len() {
        let n = i + 1;
        assert(xs.take(n).drop_last() =~= xs.take(i));
        assert(ys.take(n).drop_last() =~= ys.take(i));
        lemma_seqs_eq_prefix(xs, ys, n);
    } else {
        assert(xs.take(i) =~= xs);
        assert(ys.take(i) =~= ys);
    }
}

proof fn lemma_map_within_eq_prefix(xs: Seq<(String, Yaml)>, ys: Seq<(String, Yaml)>, i: int)
    requires
        0 <= i <= xs.len(),
        !map_within_eq(xs.take(i), ys),
    ensures
        !map_within_eq(xs, ys),
    decreases xs.len() - i,
{
    if i < xs.len() {
        assert(xs.take(i + 1).drop_last() =~= xs.take(i));
        lemma_map_within_eq_prefix(xs, ys, i + 1);
    } else {
        assert(xs.take(i) =~= xs);
    }
}

fn int_text(n: i64) -> (t: Vec<char>)
    ensures
        t@ == crate::site::padded(n as int, 0),
{
    if n < 0 {
        let m = (-(n as i128)) as u64;
        let mut t = vec!['-'];
        let mut d = crate::site::decimal_exec(m);
        t.append(&mut d);
        proof {
            reveal_strlit("-");
        }
        assert(t@ =~= crate::site::padded(n as int, 0));
        t
    } else {
        crate::site::decimal_exec(n as u64)
    }
}

/// A scalar as the text a YAML reader would see.
fn scalar_text_exec(v: &Yaml) -> (r: Option<Vec<char>>)
    ensures
        r matches Some(t) ==> scalar_text(*v) == Some(t@),
        r is None ==> scalar_text(*v) is None,
{
    match v {
        Yaml::Str(s) => Some(trim_vec(&chars_of(s.as_str()))),
        Yaml::Int(n) => Some(int_text(*n)),
        Yaml::Float(t) => Some(chars_of(t.as_str())),
        Yaml::Bool(b) => Some(
            if *b {
                chars_of("true")
            } else {
                chars_of("false")
            },
        ),
        _ => None,
    }
}

fn same_scalar_text(a: &Yaml, b: &Yaml) -> (r: bool)
    ensures
        r == (scalar_text(*a) is Some && scalar_text(*a) == scalar_text(*b)),
{
    match (scalar_text_exec(a), scalar_text_exec(b)) {
        (Some(x), Some(y)) => eq_vec(&x, &y),
        _ => false,
    }
}

/// Whether two values mean the same thing.
pub fn equivalent(a: &Yaml, b: &Yaml) -> (r: bool)
    ensures
        r == equivalent_spec(*a, *b),
    decreases a,
{
    match (a, b) {
        (Yaml::Mapping(x), Yaml::Mapping(y)) => {
            if x.len() != y.len() {
                return false;
            }
            let mut i: usize = 0;
            assert(x@.take(0) =~= Seq::<(String, Yaml)>::empty());
            while i < x.len()
                invariant
                    i <= x@.len(),
                    *a == Yaml::Mapping(*x),
                    *b == Yaml::Mapping(*y),
                    map_within_equiv(x@.take(i as int), y@),
                decreases x@.len() - i,
            {
                assert(x@.take(i + 1).drop_last() =~= x@.take(i as int));
                assert(x@.take(i + 1).last() == x@[i as int]);
                let key = chars_of(x[i].0.as_str());
                proof {
                    assert(decreases_to!(*a => (*a)->Mapping_0));
                    assert(decreases_to!(*x => x@));
                    assert(decreases_to!(x@ => x@[i as int]));
                    assert(decreases_to!(x@[i as int] => x@[i as int].1));
                    assert(decreases_to!(*a => x@[i as int].1));
                }
                let ok = match lookup_exec(y, &key) {
                    Some(w) => equivalent(&x[i].1, w),
                    None => false,
                };
                if !ok {
                    proof {
                        lemma_map_within_equiv_prefix(x@, y@, i + 1);
                        assert(x@.take(x@.len() as int) =~= x@);
                    }
                    return false;
                }
                i += 1;
            }
            assert(x@.take(x@.len() as int) =~= x@);
            true
        },
        (Yaml::List(x), Yaml::List(y)) => {
            if x.len() != y.len() {
                return false;
            }
            let mut i: usize = 0;
            assert(x@.take(0) =~= Seq::<Yaml>::empty());
            assert(y@.take(0) =~= Seq::<Yaml>::empty());
            while i < x.len()
                invariant
                    i <= x@.len() == y@.len(),
                    *a == Yaml::List(*x),
                    *b == Yaml::List(*y),
                    seqs_equiv(x@.take(i as int), y@.take(i as int)),
                decreases x@.len() - i,
            {
                assert(x@.take(i + 1).drop_last() =~= x@.take(i as int));
                assert(y@.take(i + 1).drop_last() =~= y@.take(i as int));
                assert(x@.take(i + 1).last() == x@[i as int]);
                assert(y@.take(i + 1).last() == y@[i as int]);
                proof {
                    assert(decreases_to!(*a => (*a)->List_0));
                    assert(decreases_to!(*x => x@));
                    assert(decreases_to!(x@ => x@[i as int]));
                    assert(decreases_to!(*a => x@[i as int]));
                }
                if !equivalent(&x[i], &y[i]) {
                    proof {
                        lemma_seqs_equiv_prefix(x@, y@, i + 1);
                        assert(x@.take(x@.len() as int) =~= x@);
                        assert(y@.take(y@.len() as int) =~= y@);
                    }
                    return false;
                }
                i += 1;
            }
            assert(x@.take(x@.len() as int) =~= x@);
            assert(y@.take(y@.len() as int) =~= y@);
            true
        },
        _ => yaml_eq_exec(a, b) || same_scalar_text(a, b),
    }
}

proof fn lemma_seqs_equiv_prefix(xs: Seq<Yaml>, ys: Seq<Yaml>, i: int)
    requires
        0 <= i <= xs.len() == ys.len(),
        !seqs_equiv(xs.take(i), ys.take(i)),
    ensures
        !seqs_equiv(xs, ys),
    decreases xs.len() - i,
{
    if i < xs.len() {
        assert(xs.take(i + 1).drop_last() =~= xs.take(i));
        assert(ys.take(i + 1).drop_last() =~= ys.take(i));
        lemma_seqs_equiv_prefix(xs, ys, i + 1);
    } else {
        assert(xs.take(i) =~= xs);
        assert(ys.take(i) =~= ys);
    }
}

proof fn lemma_map_within_equiv_prefix(xs: Seq<(String, Yaml)>, ys: Seq<(String, Yaml)>, i: int)
    requires
        0 <= i <= xs.len(),
        !map_within_equiv(xs.take(i), ys),
    ensures
        !map_within_equiv(xs, ys),
    decreases xs.len() - i,
{
    if i < xs.len() {
        assert(xs.take(i + 1).drop_last() =~= xs.take(i));
        lemma_map_within_equiv_prefix(xs, ys, i + 1);
    } else {
        assert(xs.take(i) =~= xs);
    }
}

// ───────────────────────── comparing a file with its export ─────────────────────────

/// What is wrong with one declared file.
#[derive(Debug, Clone, PartialEq, Eq)]
pub enum Problem {
    /// One side is not a mapping, and the two differ.
    NotMapping,
    /// A declared key is absent from the export.
    Absent(String),
    /// A declared key came back with a value that means something else.
    Differs(String),
}

/// A problem as values: 0 for not-a-mapping, 1 for absent, 2 for differs, with
/// the key.
pub type ProblemV = (nat, Seq<char>);

pub open spec fn problem_view(p: Problem) -> ProblemV {
    match p {
        Problem::NotMapping => (0, Seq::empty()),
        Problem::Absent(k) => (1, k@),
        Problem::Differs(k) => (2, k@),
    }
}

/// Keys the database assigns rather than the file, and which an export therefore
/// reproduces from the row rather than from what was imported.
pub open spec fn assigned_by_database(key: Seq<char>) -> bool {
    key == "created"@ || key == "changed"@
}

/// The problems with the declared entries `xs` against the exported `ys`, in
/// the declared order.
pub open spec fn key_problems(xs: Seq<(String, Yaml)>, ys: Seq<(String, Yaml)>) -> Seq<ProblemV>
    decreases xs.len(),
{
    if xs.len() == 0 {
        Seq::empty()
    } else {
        let prev = key_problems(xs.drop_last(), ys);
        let (k, v) = xs.last();
        if assigned_by_database(k@) {
            prev
        } else {
            match lookup(ys, k@) {
                None => prev.push((1, k@)),
                Some(w) => if equivalent_spec(v, w) {
                    prev
                } else {
                    prev.push((2, k@))
                },
            }
        }
    }
}

proof fn lemma_key_problems_keys(xs: Seq<(String, Yaml)>, ys: Seq<(String, Yaml)>)
    ensures
        forall|k: int|
            0 <= k < key_problems(xs, ys).len() ==> !assigned_by_database(
                (#[trigger] key_problems(xs, ys)[k]).1,
            ),
    decreases xs.len(),
{
    if xs.len() > 0 {
        let prev = key_problems(xs.drop_last(), ys);
        lemma_key_problems_keys(xs.drop_last(), ys);
        let all = key_problems(xs, ys);
        assert forall|k: int| 0 <= k < all.len() implies !assigned_by_database(
            (#[trigger] all[k]).1,
        ) by {
            if k < prev.len() {
                assert(all[k] == prev[k]);
            } else {
                assert(all[k].1 == xs.last().0@);
            }
        }
    }
}

/// The problem, if any, with one declared entry against the exported ones.
pub open spec fn entry_problem(entry: (String, Yaml), ys: Seq<(String, Yaml)>) -> Option<ProblemV> {
    if assigned_by_database(entry.0@) {
        None
    } else {
        match lookup(ys, entry.0@) {
            None => Some((1nat, entry.0@)),
            Some(w) => if equivalent_spec(entry.1, w) {
                None
            } else {
                Some((2nat, entry.0@))
            },
        }
    }
}

proof fn lemma_key_problems_entries(xs: Seq<(String, Yaml)>, ys: Seq<(String, Yaml)>)
    ensures
        forall|i: int|
            0 <= i < xs.len() && #[trigger] entry_problem(xs[i], ys) is Some ==> key_problems(xs, ys).contains(
                entry_problem(xs[i], ys)->0,
            ),
        forall|k: int|
            #![trigger key_problems(xs, ys)[k]]
            0 <= k < key_problems(xs, ys).len() ==> exists|i: int|
                0 <= i < xs.len() && #[trigger] entry_problem(xs[i], ys) == Some(
                    key_problems(xs, ys)[k],
                ),
    decreases xs.len(),
{
    if xs.len() > 0 {
        let p = xs.drop_last();
        lemma_key_problems_entries(p, ys);
        let prev = key_problems(p, ys);
        let all = key_problems(xs, ys);
        let last = xs.len() - 1;
        assert(xs[last] == xs.last());
        assert forall|k: int| 0 <= k < prev.len() implies all[k] == prev[k] by {}
        assert forall|i: int|
            0 <= i < xs.len() && #[trigger] entry_problem(xs[i], ys) is Some implies all.contains(
                entry_problem(xs[i], ys)->0,
            ) by {
            if i < last {
                assert(xs[i] == p[i]);
                let k = choose|k: int| 0 <= k < prev.len() && prev[k] == entry_problem(p[i], ys)->0;
                assert(all[k] == prev[k]);
            } else {
                assert(all[all.len() - 1] == entry_problem(xs[i], ys)->0);
            }
        }
        assert forall|k: int| #![trigger all[k]] 0 <= k < all.len() implies exists|i: int|
            0 <= i < xs.len() && #[trigger] entry_problem(xs[i], ys) == Some(all[k]) by {
            if k < prev.len() {
                let i = choose|i: int| 0 <= i < p.len() && #[trigger] entry_problem(p[i], ys) == Some(prev[k]);
                assert(xs[i] == p[i]);
                assert(entry_problem(xs[i], ys) == Some(all[k]));
            } else {
                assert(entry_problem(xs[last], ys) == Some(all[k]));
            }
        }
    }
}

/// Comparing two mappings checks every declared key: each declared entry
/// whose key the database does not assign is reported absent when the export
/// lacks the key and as differing when the export's value means something
/// else; and every problem reported is one of these.
pub proof fn law_every_declared_key_is_checked(declared: Yaml, exported: Yaml)
    requires
        declared is Mapping,
        exported is Mapping,
    ensures
        forall|i: int|
            0 <= i < declared->Mapping_0@.len() && !assigned_by_database(declared->Mapping_0@[i].0@)
                ==> {
                let (key, value) = #[trigger] declared->Mapping_0@[i];
                let found = lookup(exported->Mapping_0@, key@);
                &&& found is None ==> compare_spec(declared, exported).contains((1nat, key@))
                &&& found is Some && !equivalent_spec(value, found->0) ==> compare_spec(
                    declared,
                    exported,
                ).contains((2nat, key@))
            },
        forall|k: int|
            #![trigger compare_spec(declared, exported)[k]]
            0 <= k < compare_spec(declared, exported).len() ==> (compare_spec(declared, exported)[k].0 == 1
                || compare_spec(declared, exported)[k].0 == 2) && exists|i: int|
                0 <= i < declared->Mapping_0@.len() && (#[trigger] entry_problem(
                    declared->Mapping_0@[i],
                    exported->Mapping_0@,
                ) matches Some(p) && p == compare_spec(declared, exported)[k]),
{
    let xs = declared->Mapping_0@;
    let ys = exported->Mapping_0@;
    lemma_key_problems_entries(xs, ys);
    let ps = compare_spec(declared, exported);
    assert(ps == key_problems(xs, ys));
    assert forall|k: int|
        #![trigger compare_spec(declared, exported)[k]]
        0 <= k < compare_spec(declared, exported).len() implies (compare_spec(declared, exported)[k].0 == 1
            || compare_spec(declared, exported)[k].0 == 2) && exists|i: int|
            0 <= i < declared->Mapping_0@.len() && (#[trigger] entry_problem(
                declared->Mapping_0@[i],
                exported->Mapping_0@,
            ) matches Some(p) && p == compare_spec(declared, exported)[k]) by {
        assert(ps[k] == key_problems(xs, ys)[k]);
        let i = choose|i: int| 0 <= i < xs.len() && #[trigger] entry_problem(xs[i], ys) == Some(key_problems(xs, ys)[k]);
        assert(entry_problem(declared->Mapping_0@[i], exported->Mapping_0@) == Some(compare_spec(declared, exported)[k]));
    }
    assert forall|i: int| 0 <= i < xs.len() && !assigned_by_database(xs[i].0@) implies {
        &&& lookup(ys, (#[trigger] xs[i]).0@) is None ==> compare_spec(declared, exported).contains((1nat, xs[i].0@))
        &&& lookup(ys, xs[i].0@) is Some && !equivalent_spec(xs[i].1, lookup(ys, xs[i].0@)->0)
            ==> compare_spec(declared, exported).contains((2nat, xs[i].0@))
    } by {
        assert(entry_problem(xs[i], ys) is Some <==> (lookup(ys, xs[i].0@) is None || (lookup(
            ys,
            xs[i].0@,
        ) is Some && !equivalent_spec(xs[i].1, lookup(ys, xs[i].0@)->0))));
    }
}

/// The keys the database assigns, `created` and `changed`, are never reported,
/// whatever either file holds for them: no problem names either.
pub proof fn law_database_keys_are_never_reported(declared: Yaml, exported: Yaml)
    ensures
        forall|k: int|
            0 <= k < compare_spec(declared, exported).len() ==> {
                let key = (#[trigger] compare_spec(declared, exported)[k]).1;
                key != "created"@ && key != "changed"@
            },
{
    reveal_strlit("created");
    reveal_strlit("changed");
    let ps = compare_spec(declared, exported);
    assert forall|k: int| 0 <= k < ps.len() implies {
        let key = (#[trigger] ps[k]).1;
        key != "created"@ && key != "changed"@
    } by {
        if let (Yaml::Mapping(a), Yaml::Mapping(b)) = (declared, exported) {
            lemma_key_problems_keys(a@, b@);
            assert(ps[k] == key_problems(a@, b@)[k]);
            assert(!assigned_by_database(ps[k].1));
        } else {
            assert(ps[k].1.len() == 0);
        }
    }
}

/// Every top-level key the declared file sets must appear in the export with
/// the same value; two files that are not both mappings must be equal.
pub open spec fn compare_spec(declared: Yaml, exported: Yaml) -> Seq<ProblemV> {
    match (declared, exported) {
        (Yaml::Mapping(a), Yaml::Mapping(b)) => key_problems(a@, b@),
        _ => if yaml_eq(declared, exported) {
            Seq::empty()
        } else {
            seq![(0, Seq::empty())]
        },
    }
}

/// Every top-level key the declared file sets must appear in the export with the
/// same value.
pub fn compare(declared: &Yaml, exported: &Yaml) -> (problems: Vec<Problem>)
    ensures
        problems@.len() == compare_spec(*declared, *exported).len(),
        forall|k: int|
            0 <= k < problems@.len() ==> problem_view(#[trigger] problems@[k]) == compare_spec(
                *declared,
                *exported,
            )[k],
{
    let mut problems: Vec<Problem> = Vec::new();
    match (declared, exported) {
        (Yaml::Mapping(a), Yaml::Mapping(b)) => {
            let mut i: usize = 0;
            assert(a@.take(0) =~= Seq::<(String, Yaml)>::empty());
            while i < a.len()
                invariant
                    i <= a@.len(),
                    problems@.len() == key_problems(a@.take(i as int), b@).len(),
                    forall|k: int|
                        0 <= k < problems@.len() ==> problem_view(#[trigger] problems@[k])
                            == key_problems(a@.take(i as int), b@)[k],
                decreases a@.len() - i,
            {
                assert(a@.take(i + 1).drop_last() =~= a@.take(i as int));
                assert(a@.take(i + 1).last() == a@[i as int]);
                let ghost before = problems@;
                let key = chars_of(a[i].0.as_str());
                let skip = eq_vec(&key, &chars_of("created")) || eq_vec(&key, &chars_of("changed"));
                if !skip {
                    match lookup_exec(b, &key) {
                        None => {
                            problems.push(Problem::Absent(a[i].0.clone()));
                        },
                        Some(w) => {
                            if !equivalent(&a[i].1, w) {
                                problems.push(Problem::Differs(a[i].0.clone()));
                            }
                        },
                    }
                }
                assert forall|k: int| 0 <= k < problems@.len() implies problem_view(
                    #[trigger] problems@[k],
                ) == key_problems(a@.take(i + 1), b@)[k] by {
                    if k < before.len() {
                        assert(problems@[k] == before[k]);
                    }
                }
                i += 1;
            }
            assert(a@.take(a@.len() as int) =~= a@);
        },
        _ => {
            if !yaml_eq_exec(declared, exported) {
                problems.push(Problem::NotMapping);
            }
        },
    }
    problems
}

// ───────────────────────── identical files ─────────────────────────

/// No key occurs twice among mapping entries.
pub open spec fn keys_distinct(es: Seq<(String, Yaml)>) -> bool {
    forall|i: int, j: int| 0 <= i < j < es.len() ==> es[i].0@ != es[j].0@
}

/// A value as a YAML reader builds it: in every mapping, at every depth, each
/// key occurs once.
pub open spec fn yaml_wf(v: Yaml) -> bool
    decreases v,
{
    match v {
        Yaml::List(x) => all_wf(x@),
        Yaml::Mapping(x) => keys_distinct(x@) && entries_wf(x@),
        Yaml::Tagged(_, inner) => yaml_wf(*inner),
        _ => true,
    }
}

pub open spec fn all_wf(xs: Seq<Yaml>) -> bool
    decreases xs,
{
    if xs.len() == 0 {
        true
    } else {
        all_wf(xs.drop_last()) && yaml_wf(xs.last())
    }
}

pub open spec fn entries_wf(es: Seq<(String, Yaml)>) -> bool
    decreases es,
{
    if es.len() == 0 {
        true
    } else {
        entries_wf(es.drop_last()) && yaml_wf(es.last().1)
    }
}

proof fn lemma_all_wf(xs: Seq<Yaml>, i: int)
    requires
        all_wf(xs),
        0 <= i < xs.len(),
    ensures
        yaml_wf(xs[i]),
    decreases xs.len(),
{
    if i < xs.len() - 1 {
        lemma_all_wf(xs.drop_last(), i);
    }
}

proof fn lemma_entries_wf(es: Seq<(String, Yaml)>, i: int)
    requires
        entries_wf(es),
        0 <= i < es.len(),
    ensures
        yaml_wf(es[i].1),
    decreases es.len(),
{
    if i < es.len() - 1 {
        lemma_entries_wf(es.drop_last(), i);
    }
}

/// With distinct keys, looking a key up finds its own entry.
proof fn lemma_lookup_own(es: Seq<(String, Yaml)>, i: int)
    requires
        keys_distinct(es),
        0 <= i < es.len(),
    ensures
        lookup(es, es[i].0@) == Some(es[i].1),
    decreases es.len(),
{
    if i < es.len() - 1 {
        assert(es.last().0@ != es[i].0@);
        assert(keys_distinct(es.drop_last()));
        lemma_lookup_own(es.drop_last(), i);
        assert(es.drop_last()[i] == es[i]);
    }
}

/// Every value is equal and equivalent to itself.
proof fn lemma_refl(a: Yaml)
    requires
        yaml_wf(a),
    ensures
        yaml_eq(a, a),
        equivalent_spec(a, a),
    decreases a,
{
    match a {
        Yaml::List(x) => {
            assert forall|i: int| 0 <= i < x@.len() implies #[trigger] yaml_wf(x@[i]) by {
                lemma_all_wf(x@, i);
            }
            lemma_list_refl(x@, x@.len() as int);
            assert(x@.take(x@.len() as int) =~= x@);
        },
        Yaml::Mapping(x) => {
            assert forall|i: int| 0 <= i < x@.len() implies #[trigger] yaml_wf(x@[i].1) by {
                lemma_entries_wf(x@, i);
            }
            lemma_map_refl(x@, x@.len() as int);
            assert(x@.take(x@.len() as int) =~= x@);
        },
        Yaml::Tagged(_, inner) => {
            lemma_refl(*inner);
        },
        _ => {},
    }
}

proof fn lemma_list_refl(xs: Seq<Yaml>, n: int)
    requires
        0 <= n <= xs.len(),
        forall|i: int| 0 <= i < xs.len() ==> #[trigger] yaml_wf(xs[i]),
    ensures
        seqs_eq(xs.take(n), xs.take(n)),
        seqs_equiv(xs.take(n), xs.take(n)),
    decreases xs, n,
{
    if n > 0 {
        lemma_list_refl(xs, n - 1);
        assert(xs.take(n).drop_last() =~= xs.take(n - 1));
        assert(yaml_wf(xs[n - 1]));
        lemma_refl(xs[n - 1]);
    }
}

proof fn lemma_map_refl(es: Seq<(String, Yaml)>, n: int)
    requires
        0 <= n <= es.len(),
        keys_distinct(es),
        forall|i: int| 0 <= i < es.len() ==> #[trigger] yaml_wf(es[i].1),
    ensures
        map_within_eq(es.take(n), es),
        map_within_equiv(es.take(n), es),
    decreases es, n,
{
    if n > 0 {
        lemma_map_refl(es, n - 1);
        assert(es.take(n).drop_last() =~= es.take(n - 1));
        assert(es.take(n).last() == es[n - 1]);
        lemma_lookup_own(es, n - 1);
        assert(yaml_wf(es[n - 1].1));
        lemma_refl(es[n - 1].1);
    }
}

/// Every value means the same thing as itself.
pub proof fn law_equivalent_is_reflexive(a: Yaml)
    requires
        yaml_wf(a),
    ensures
        equivalent_spec(a, a),
{
    lemma_refl(a);
}

/// An export identical to the declaration has no problem.
pub proof fn law_identical_export_passes(v: Yaml)
    requires
        yaml_wf(v),
    ensures
        compare_spec(v, v) =~= Seq::<ProblemV>::empty(),
{
    lemma_refl(v);
    match v {
        Yaml::Mapping(x) => {
            assert forall|i: int| 0 <= i < x@.len() implies #[trigger] yaml_wf(x@[i].1) by {
                lemma_entries_wf(x@, i);
            }
            lemma_no_key_problems(x@, x@.len() as int);
            assert(x@.take(x@.len() as int) =~= x@);
        },
        _ => {},
    }
}

proof fn lemma_no_key_problems(es: Seq<(String, Yaml)>, n: int)
    requires
        0 <= n <= es.len(),
        keys_distinct(es),
        forall|i: int| 0 <= i < es.len() ==> #[trigger] yaml_wf(es[i].1),
    ensures
        key_problems(es.take(n), es) =~= Seq::<ProblemV>::empty(),
    decreases n,
{
    if n > 0 {
        lemma_no_key_problems(es, n - 1);
        assert(es.take(n).drop_last() =~= es.take(n - 1));
        assert(es.take(n).last() == es[n - 1]);
        lemma_lookup_own(es, n - 1);
        assert(yaml_wf(es[n - 1].1));
        lemma_refl(es[n - 1].1);
    }
}

// ───────────────────────── symmetry ─────────────────────────

/// A key that mapping entries hold is the key of one of them.
proof fn lemma_lookup_found(es: Seq<(String, Yaml)>, k: Seq<char>)
    requires
        lookup(es, k) is Some,
    ensures
        exists|m: int| 0 <= m < es.len() && (#[trigger] es[m]).0@ == k,
    decreases es.len(),
{
    if es.last().0@ != k {
        lemma_lookup_found(es.drop_last(), k);
        let m = choose|m: int| 0 <= m < es.drop_last().len() && (#[trigger] es.drop_last()[m]).0@ == k;
        assert(es[m] == es.drop_last()[m]);
    } else {
        assert(es[es.len() - 1] == es.last());
    }
}

/// What `map_within_eq` and `map_within_equiv` say of each entry.
proof fn lemma_map_within_at(xs: Seq<(String, Yaml)>, ys: Seq<(String, Yaml)>, i: int)
    requires
        0 <= i < xs.len(),
    ensures
        map_within_eq(xs, ys) ==> (lookup(ys, xs[i].0@) matches Some(w) && yaml_eq(xs[i].1, w)),
        map_within_equiv(xs, ys) ==> (lookup(ys, xs[i].0@) matches Some(w) && equivalent_spec(
            xs[i].1,
            w,
        )),
    decreases xs.len(),
{
    if i < xs.len() - 1 {
        lemma_map_within_at(xs.drop_last(), ys, i);
        assert(xs.drop_last()[i] == xs[i]);
    }
}

/// The keys of mapping entries, in order.
pub open spec fn keys_of(es: Seq<(String, Yaml)>) -> Seq<Seq<char>> {
    es.map_values(|e: (String, Yaml)| e.0@)
}

/// Two lists of as many entries, each with distinct keys, where every key of
/// the first is found in the second, hold the same keys.
proof fn lemma_same_keys(xs: Seq<(String, Yaml)>, ys: Seq<(String, Yaml)>, j: int)
    requires
        keys_distinct(xs),
        keys_distinct(ys),
        xs.len() == ys.len(),
        forall|i: int| 0 <= i < xs.len() ==> lookup(ys, #[trigger] xs[i].0@) is Some,
        0 <= j < ys.len(),
    ensures
        exists|i: int| 0 <= i < xs.len() && (#[trigger] xs[i]).0@ == ys[j].0@,
{
    broadcast use vstd::seq_lib::seq_to_set_is_finite;

    let kx = keys_of(xs);
    let ky = keys_of(ys);
    assert(kx.no_duplicates()) by {
        assert forall|a: int, b: int| 0 <= a < kx.len() && 0 <= b < kx.len() && a != b implies kx[a]
            != kx[b] by {
            if a < b {
                assert(xs[a].0@ != xs[b].0@);
            } else {
                assert(xs[b].0@ != xs[a].0@);
            }
        }
    }
    assert(ky.no_duplicates()) by {
        assert forall|a: int, b: int| 0 <= a < ky.len() && 0 <= b < ky.len() && a != b implies ky[a]
            != ky[b] by {
            if a < b {
                assert(ys[a].0@ != ys[b].0@);
            } else {
                assert(ys[b].0@ != ys[a].0@);
            }
        }
    }
    kx.unique_seq_to_set();
    ky.unique_seq_to_set();
    assert forall|k: Seq<char>| kx.to_set().contains(k) implies ky.to_set().contains(k) by {
        let i = choose|i: int| 0 <= i < kx.len() && kx[i] == k;
        assert(kx[i] == xs[i].0@);
        lemma_lookup_found(ys, xs[i].0@);
        let m = choose|m: int| 0 <= m < ys.len() && (#[trigger] ys[m]).0@ == xs[i].0@;
        assert(ky[m] == k);
    }
    vstd::set_lib::lemma_subset_equality(kx.to_set(), ky.to_set());
    assert(ky[j] == ys[j].0@);
    assert(ky.to_set().contains(ys[j].0@));
    assert(kx.to_set().contains(ys[j].0@));
    let i = choose|i: int| 0 <= i < kx.len() && kx[i] == ys[j].0@;
    assert(xs[i].0@ == kx[i]);
}

/// Equality and equivalence do not depend on which side is which.
proof fn lemma_sym(a: Yaml, b: Yaml)
    requires
        yaml_wf(a),
        yaml_wf(b),
    ensures
        yaml_eq(a, b) ==> yaml_eq(b, a),
        equivalent_spec(a, b) ==> equivalent_spec(b, a),
    decreases a,
{
    match (a, b) {
        (Yaml::List(x), Yaml::List(y)) => {
            if x@.len() == y@.len() {
                assert forall|i: int| 0 <= i < x@.len() implies #[trigger] yaml_wf(x@[i]) by {
                    lemma_all_wf(x@, i);
                }
                assert forall|i: int| 0 <= i < y@.len() implies #[trigger] yaml_wf(y@[i]) by {
                    lemma_all_wf(y@, i);
                }
                lemma_list_sym(x@, y@, x@.len() as int);
                assert(x@.take(x@.len() as int) =~= x@);
                assert(y@.take(y@.len() as int) =~= y@);
            }
        },
        (Yaml::Mapping(x), Yaml::Mapping(y)) => {
            if x@.len() == y@.len() {
                assert forall|i: int| 0 <= i < x@.len() implies #[trigger] yaml_wf(x@[i].1) by {
                    lemma_entries_wf(x@, i);
                }
                assert forall|i: int| 0 <= i < y@.len() implies #[trigger] yaml_wf(y@[i].1) by {
                    lemma_entries_wf(y@, i);
                }
                lemma_map_sym(x@, y@, y@.len() as int);
                assert(y@.take(y@.len() as int) =~= y@);
            }
        },
        (Yaml::Tagged(_, x), Yaml::Tagged(_, y)) => {
            lemma_sym(*x, *y);
        },
        _ => {},
    }
}

proof fn lemma_list_sym(xs: Seq<Yaml>, ys: Seq<Yaml>, n: int)
    requires
        0 <= n <= xs.len(),
        xs.len() == ys.len(),
        forall|i: int| 0 <= i < xs.len() ==> #[trigger] yaml_wf(xs[i]),
        forall|i: int| 0 <= i < ys.len() ==> #[trigger] yaml_wf(ys[i]),
    ensures
        seqs_eq(xs.take(n), ys.take(n)) ==> seqs_eq(ys.take(n), xs.take(n)),
        seqs_equiv(xs.take(n), ys.take(n)) ==> seqs_equiv(ys.take(n), xs.take(n)),
    decreases xs, n,
{
    if n > 0 {
        lemma_list_sym(xs, ys, n - 1);
        assert(xs.take(n).drop_last() =~= xs.take(n - 1));
        assert(ys.take(n).drop_last() =~= ys.take(n - 1));
        assert(yaml_wf(xs[n - 1]));
        assert(yaml_wf(ys[n - 1]));
        lemma_sym(xs[n - 1], ys[n - 1]);
    }
}

proof fn lemma_map_sym(xs: Seq<(String, Yaml)>, ys: Seq<(String, Yaml)>, n: int)
    requires
        0 <= n <= ys.len(),
        xs.len() == ys.len(),
        keys_distinct(xs),
        keys_distinct(ys),
        forall|i: int| 0 <= i < xs.len() ==> #[trigger] yaml_wf(xs[i].1),
        forall|i: int| 0 <= i < ys.len() ==> #[trigger] yaml_wf(ys[i].1),
    ensures
        map_within_eq(xs, ys) ==> map_within_eq(ys.take(n), xs),
        map_within_equiv(xs, ys) ==> map_within_equiv(ys.take(n), xs),
    decreases xs, n,
{
    if n > 0 {
        lemma_map_sym(xs, ys, n - 1);
        assert(ys.take(n).drop_last() =~= ys.take(n - 1));
        assert(ys.take(n).last() == ys[n - 1]);
        let k = ys[n - 1].0@;
        lemma_lookup_own(ys, n - 1);
        if map_within_eq(xs, ys) || map_within_equiv(xs, ys) {
            assert forall|i: int| 0 <= i < xs.len() implies lookup(ys, #[trigger] xs[i].0@) is Some by {
                lemma_map_within_at(xs, ys, i);
            }
            lemma_same_keys(xs, ys, n - 1);
            let i = choose|i: int| 0 <= i < xs.len() && (#[trigger] xs[i]).0@ == k;
            lemma_lookup_own(xs, i);
            lemma_map_within_at(xs, ys, i);
            assert(yaml_wf(xs[i].1));
            assert(yaml_wf(ys[n - 1].1));
            lemma_sym(xs[i].1, ys[n - 1].1);
        }
    }
}

/// Whether two values mean the same thing does not depend on which is the
/// declared one and which the exported one.
pub proof fn law_equivalent_is_symmetric(a: Yaml, b: Yaml)
    requires
        yaml_wf(a),
        yaml_wf(b),
    ensures
        equivalent_spec(a, b) == equivalent_spec(b, a),
{
    lemma_sym(a, b);
    lemma_sym(b, a);
}

// ───────────────────────── showing a value ─────────────────────────

/// The indentation that lines a shown value's continuation lines up under its
/// first line in the report.
pub open spec fn continuation() -> Seq<char> {
    "\n                "@
}

/// `s` with every newline followed by the continuation indent.
pub open spec fn indent_lines(s: Seq<char>) -> Seq<char>
    decreases s.len(),
{
    if s.len() == 0 {
        Seq::empty()
    } else if s.last() == '\n' {
        indent_lines(s.drop_last()) + continuation()
    } else {
        indent_lines(s.drop_last()).push(s.last())
    }
}

/// The most of a value's text a report shows, in bytes.
pub open spec fn shown_limit() -> nat {
    400
}

/// A value's rendered text as a report shows it: trimmed, its lines indented,
/// and cut to its first `shown_limit()` bytes with an ellipsis when longer.
pub open spec fn shown(text: Seq<char>) -> Seq<char> {
    let t = indent_lines(trim(text));
    if byte_len(t) > shown_limit() {
        t.take(choose|k: int| 0 <= k <= t.len() && byte_len(#[trigger] t.take(k)) == shown_limit())
            + seq!['…']
    } else {
        t
    }
}

/// The byte length grows strictly with each character taken.
proof fn lemma_byte_len_strict(s: Seq<char>, i: int, j: int)
    requires
        0 <= i < j <= s.len(),
    ensures
        byte_len(s.take(i)) < byte_len(s.take(j)),
{
    let t = s.take(j);
    assert(t.drop_last() =~= s.take(j - 1));
    lemma_width_pos(t.last());
    lemma_byte_len_prefix(s.take(j - 1), i);
    assert(s.take(j - 1).take(i) =~= s.take(i));
}

/// Whether a value's text can be cut where a report cuts it: it is short
/// enough to show whole, or its cut falls between two characters.
pub open spec fn cuttable(text: Seq<char>) -> bool {
    byte_len(indent_lines(trim(text))) > shown_limit() ==> is_boundary(
        indent_lines(trim(text)),
        shown_limit(),
    )
}

/// A value's rendered text as a report shows it.
///
/// The text is cut at a byte offset, so that offset must fall between two
/// characters when the text is long enough to be cut.
pub fn shown_text(text: &str) -> (out: String)
    requires
        cuttable(text@),
    ensures
        out@ == shown(text@),
{
    match shown_if_cuttable(text) {
        Some(s) => s,
        None => String::new(),
    }
}

/// `shown_text`, or `None` where the cut would fall inside a character.
#[verifier::spinoff_prover]
fn shown_if_cuttable(text: &str) -> (out: Option<String>)
    ensures
        out is Some <==> cuttable(text@),
        out matches Some(s) ==> s@ == shown(text@),
{
    let trimmed = trim_vec(&chars_of(text));
    let mut t: Vec<char> = Vec::new();
    let mut i: usize = 0;
    while i < trimmed.len()
        invariant
            i <= trimmed@.len(),
            t@ == indent_lines(trimmed@.take(i as int)),
        decreases trimmed@.len() - i,
    {
        assert(trimmed@.take(i + 1).drop_last() =~= trimmed@.take(i as int));
        if trimmed[i] == '\n' {
            t.push('\n');
            let mut k: usize = 0;
            while k < 16
                invariant
                    k <= 16,
                    t@ == indent_lines(trimmed@.take(i as int)) + seq!['\n'] + Seq::new(
                        k as nat,
                        |_j: int| ' ',
                    ),
                decreases 16 - k,
            {
                t.push(' ');
                k += 1;
                assert(t@ =~= indent_lines(trimmed@.take(i as int)) + seq!['\n'] + Seq::new(
                    k as nat,
                    |_j: int| ' ',
                ));
            }
            proof {
                reveal_strlit("\n                ");
                assert(seq!['\n'] + Seq::new(16nat, |_j: int| ' ') =~= continuation());
                assert(t@ =~= indent_lines(trimmed@.take(i as int)) + continuation());
            }
        } else {
            t.push(trimmed[i]);
        }
        i += 1;
    }
    assert(trimmed@.take(trimmed@.len() as int) =~= trimmed@);
    let ghost whole = t@;
    let limit: usize = 400;
    let mut n: usize = 0;
    let mut j: usize = 0;
    while j < t.len() && n < limit
        invariant
            t@ == whole,
            limit == shown_limit(),
            j <= t@.len(),
            n == byte_len(t@.take(j as int)),
            n <= limit + 3,
            j > 0 ==> byte_len(t@.take(j - 1)) < limit,
        decreases t@.len() - j,
    {
        assert(t@.take(j + 1).drop_last() =~= t@.take(j as int));
        proof {
            lemma_width_pos(t@[j as int]);
        }
        n = n + char_width_exec(t[j]);
        j += 1;
    }
    if n < limit || (j == t.len() && n == limit) {
        proof {
            assert(t@.take(j as int) =~= t@);
            if j < t.len() {
                assert(false);
            }
        }
        return Some(crate::text::string_of(&t));
    }
    proof {
        assert(t@.take(t@.len() as int) =~= t@);
        if j < t.len() {
            lemma_byte_len_strict(t@, j as int, t@.len() as int);
        }
        assert(byte_len(t@) > shown_limit());
    }
    if n > limit {
        proof {
            assert forall|k: int| 0 <= k <= t@.len() implies byte_len(#[trigger] t@.take(k))
                != shown_limit() by {
                if k < j - 1 {
                    lemma_byte_len_strict(t@, k, j - 1);
                }
                if k > j {
                    lemma_byte_len_strict(t@, j as int, k);
                }
            }
        }
        return None;
    }
    proof {
        let k = choose|k: int| 0 <= k <= t@.len() && byte_len(#[trigger] t@.take(k)) == shown_limit();
        assert(byte_len(t@.take(j as int)) == shown_limit());
        if k < j {
            lemma_byte_len_strict(t@, k, j as int);
        }
        if k > j {
            lemma_byte_len_strict(t@, j as int, k);
        }
        assert(k == j);
    }
    let mut out = String::new();
    let mut m: usize = 0;
    while m < j
        invariant
            m <= j <= t@.len(),
            out@ == t@.take(m as int),
        decreases j - m,
    {
        push_char(&mut out, t[m]);
        m += 1;
        assert(out@ =~= t@.take(m as int));
    }
    push_char(&mut out, '…');
    Some(out)
}

// ───────────────────────── a value's text ─────────────────────────

#[verifier::external_type_specification]
#[verifier::external_body]
pub struct ExYamlValue(Value);

/// A value as `serde_yml` holds it: each variant as its counterpart, a float's
/// text read back as the float it displays (every such text reads back).
///
/// The `serde_yml` value is opaque here; it is only handed to the YAML writer.
#[verifier::external_body]
fn yaml_value(v: &Yaml) -> Value {
    match v {
        Yaml::Null => Value::Null,
        Yaml::Bool(b) => Value::from(*b),
        Yaml::Int(n) => Value::from(*n),
        Yaml::Float(t) => Value::Number(Number::Float(t.parse().unwrap_or_default())),
        Yaml::Str(s) => Value::from(s.clone()),
        Yaml::List(items) => Value::Sequence(items.iter().map(yaml_value).collect()),
        Yaml::Mapping(es) => Value::Mapping(es.iter().map(|(k, x)| (k.clone(), yaml_value(x))).collect()),
        Yaml::Tagged(t, x) => Value::from(TaggedValue::new(Tag::new(t.as_str()), yaml_value(x))),
    }
}

/// A value as `serde_yml` parsed it, as plain data: each variant as its
/// counterpart, an integer as itself and any other number as the text it
/// displays as, a tag without its `!`.
#[verifier::external_body]
fn yaml_from(v: &Value) -> Yaml {
    match v {
        Value::Null => Yaml::Null,
        Value::Bool(b) => Yaml::Bool(*b),
        Value::Number(Number::Integer(i)) => Yaml::Int(*i),
        Value::Number(n) => Yaml::Float(n.to_string()),
        Value::String(s) => Yaml::Str(s.clone()),
        Value::Sequence(items) => Yaml::List(items.iter().map(yaml_from).collect()),
        Value::Mapping(es) => Yaml::Mapping(es.iter().map(|(k, x)| (k.clone(), yaml_from(x))).collect()),
        Value::Tagged(t) => Yaml::Tagged(t.tag().as_str().to_string(), Box::new(yaml_from(t.value()))),
    }
}

/// The value `serde_yml::from_str` reads from a text, or `None` where it
/// refuses the text.
pub uninterp spec fn yaml_read(text: Seq<char>) -> Option<Yaml>;

/// `serde_yml::from_str` into a YAML value, the error as its message.
///
/// The value is named by `yaml_read`, a function of the text alone; nothing
/// is said of the message.
#[verifier::external_body]
fn read_yaml(text: &str) -> (r: Result<Yaml, String>)
    ensures
        r matches Ok(y) ==> yaml_read(text@) == Some(y),
        r is Err ==> yaml_read(text@) is None,
{
    match serde_yml::from_str::<Value>(text) {
        Ok(v) => Ok(yaml_from(&v)),
        Err(e) => Err(e.to_string()),
    }
}

/// Which of the two texts did not parse, and the parser's message.
#[derive(Debug)]
pub enum Unparsed {
    Declared(String),
    Exported(String),
}

/// Two parsed files and what is wrong with the export.
#[derive(Debug)]
pub struct Compared {
    pub declared: Yaml,
    pub exported: Yaml,
    pub problems: Vec<Problem>,
}

/// Parse a declared file and its export and compare them. The declared text
/// is parsed first: when it does not parse, that is the error whatever the
/// export holds.
pub fn compare_texts(declared: &str, exported: &str) -> (r: Result<Compared, Unparsed>)
    ensures
        r matches Err(Unparsed::Declared(_)) <==> yaml_read(declared@) is None,
        r matches Err(Unparsed::Exported(_)) <==> (yaml_read(declared@) is Some && yaml_read(
            exported@,
        ) is None),
        r matches Ok(c) ==> {
            &&& yaml_read(declared@) == Some(c.declared)
            &&& yaml_read(exported@) == Some(c.exported)
            &&& c.problems@.map_values(|p: Problem| problem_view(p)) == compare_spec(
                c.declared,
                c.exported,
            )
        },
{
    let d = match read_yaml(declared) {
        Ok(y) => y,
        Err(m) => return Err(Unparsed::Declared(m)),
    };
    let e = match read_yaml(exported) {
        Ok(y) => y,
        Err(m) => return Err(Unparsed::Exported(m)),
    };
    let problems = compare(&d, &e);
    assert(problems@.map_values(|p: Problem| problem_view(p)) =~= compare_spec(d, e));
    Ok(Compared { declared: d, exported: e, problems })
}

/// The text `serde_yml::to_string` writes for a YAML value, or `None` when it
/// refuses it.
pub uninterp spec fn written_yaml(v: Yaml) -> Option<Seq<char>>;

/// `serde_yml::to_string` on the value as `serde_yml` holds it.
///
/// The text is named by `written_yaml`, a function of the value alone.
#[verifier::external_body]
fn write_yaml(v: &Yaml) -> (r: Option<String>)
    ensures
        r matches Some(s) ==> written_yaml(*v) == Some(s@),
        r is None ==> written_yaml(*v) is None,
{
    serde_yml::to_string(&yaml_value(v)).ok()
}

/// A value's text for a report: what the YAML writer makes of it, or a marker
/// when it cannot be written.
pub open spec fn value_text(v: Yaml) -> Seq<char> {
    match written_yaml(v) {
        Some(t) => t,
        None => "<unrenderable>"@,
    }
}

/// A value as a report shows it: its YAML text trimmed, its lines indented, cut
/// to 400 bytes; `None` where that cut would fall inside a character.
pub fn show(v: &Yaml) -> (out: Option<String>)
    ensures
        out is Some <==> cuttable(value_text(*v)),
        out matches Some(s) ==> s@ == shown(value_text(*v)),
{
    let text = match write_yaml(v) {
        Some(t) => t,
        None => {
            let mut m = String::new();
            crate::text::push_str(&mut m, "<unrenderable>");
            m
        },
    };
    shown_if_cuttable(text.as_str())
}

} // verus!
