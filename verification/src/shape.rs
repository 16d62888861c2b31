//! Shapes: the structural types that shape inference assigns to expressions.
use vstd::prelude::*;
use crate::strmap::{
    entries_view, has_key, ins, ins_absent, key_lt, lemma_key_lt_asym, lemma_key_lt_irrefl, lemma_ins_keys, lemma_ins_sorted, lemma_lookup_ins,
    lookup, sorted_keys, StrMap,
};
use crate::text::{copy_string, debug_str, debug_text, push_str, string_eq_str};
use crate::syntax::{avs, ev, evs, fvs, mvs, ArgV, ArmV, BinaryOp, CallArg, Expr, ExprV, FieldV, MatchArm, RecordField};
use crate::hir::{hdefvs, HirModule, HirSource};
use crate::toplevel::{find_char_pub, find_from, svs, DefV};

verus! {

/// The shape of a value. A record's fields are kept by name, in name order.
#[derive(Debug, PartialEq, Eq)]
pub enum Shape {
    Unknown,
    EmptyRecord,
    Record(StrMap<Shape>),
    List(Box<Shape>),
    Text,
    Number,
    TagSet(Vec<String>),
    SourceMarker,
    Skip,
    Document,
    Element,
    Scene,
    Effect,
}

/// The mathematical value of a shape.
pub enum ShapeV {
    Unknown,
    EmptyRecord,
    Record(Seq<(Seq<char>, ShapeV)>),
    List(Box<ShapeV>),
    Text,
    Number,
    TagSet(Seq<Seq<char>>),
    SourceMarker,
    Skip,
    Document,
    Element,
    Scene,
    Effect,
}

pub open spec fn sv(s: Shape) -> ShapeV
    decreases s,
{
    match s {
        Shape::Unknown => ShapeV::Unknown,
        Shape::EmptyRecord => ShapeV::EmptyRecord,
        Shape::Record(m) => ShapeV::Record(sv_entries(m.entries@)),
        Shape::List(b) => ShapeV::List(Box::new(sv(*b))),
        Shape::Text => ShapeV::Text,
        Shape::Number => ShapeV::Number,
        Shape::TagSet(t) => ShapeV::TagSet(svs(t@)),
        Shape::SourceMarker => ShapeV::SourceMarker,
        Shape::Skip => ShapeV::Skip,
        Shape::Document => ShapeV::Document,
        Shape::Element => ShapeV::Element,
        Shape::Scene => ShapeV::Scene,
        Shape::Effect => ShapeV::Effect,
    }
}

pub open spec fn sv_entries(es: Seq<(String, Shape)>) -> Seq<(Seq<char>, ShapeV)>
    decreases es,
{
    Seq::new(
        es.len(),
        |i: int|
            if 0 <= i < es.len() {
                (es[i].0@, sv(es[i].1))
            } else {
                (Seq::empty(), ShapeV::Unknown)
            },
    )
}

impl View for Shape {
    type V = ShapeV;

    open spec fn view(&self) -> ShapeV {
        sv(*self)
    }
}

pub proof fn lemma_record_model(m: StrMap<Shape>)
    ensures
        m.model() == sv_entries(m.entries@),
{
    assert(m.model() =~= sv_entries(m.entries@));
}

/// `["True", "False"]`, the tags of a boolean.
pub open spec fn bool_tags() -> Seq<Seq<char>> {
    seq!["True"@, "False"@]
}

// ---------------------------------------------------------------------------
// Rendering, as `Debug` writes the shape
// ---------------------------------------------------------------------------

pub open spec fn shape_debug(s: ShapeV) -> Seq<char>
    decreases s,
{
    match s {
        ShapeV::Unknown => "Unknown"@,
        ShapeV::EmptyRecord => "EmptyRecord"@,
        ShapeV::Record(es) => "Record({"@ + entries_debug(es) + "})"@,
        ShapeV::List(b) => "List("@ + shape_debug(*b) + ")"@,
        ShapeV::Text => "Text"@,
        ShapeV::Number => "Number"@,
        ShapeV::TagSet(ts) => "TagSet(["@ + tags_debug(ts) + "])"@,
        ShapeV::SourceMarker => "SourceMarker"@,
        ShapeV::Skip => "Skip"@,
        ShapeV::Document => "Document"@,
        ShapeV::Element => "Element"@,
        ShapeV::Scene => "Scene"@,
        ShapeV::Effect => "Effect"@,
    }
}

/// `"name": Shape` entries, separated by `, `.
pub open spec fn entries_debug(es: Seq<(Seq<char>, ShapeV)>) -> Seq<char>
    decreases es,
{
    if es.len() == 0 {
        Seq::empty()
    } else {
        let last = es[es.len() - 1];
        let item = debug_text(last.0) + ": "@ + shape_debug(last.1);
        if es.len() == 1 {
            item
        } else {
            entries_debug(es.drop_last()) + ", "@ + item
        }
    }
}

/// Quoted tags, separated by `, `.
pub open spec fn tags_debug(ts: Seq<Seq<char>>) -> Seq<char>
    decreases ts.len(),
{
    if ts.len() == 0 {
        Seq::empty()
    } else if ts.len() == 1 {
        debug_text(ts[0])
    } else {
        tags_debug(ts.drop_last()) + ", "@ + debug_text(ts[ts.len() - 1])
    }
}

fn tags_debug_exec(ts: &Vec<String>) -> (r: String)
    ensures
        r@ == tags_debug(svs(ts@)),
{
    let ghost s = svs(ts@);
    let mut r = String::new();
    let mut i: usize = 0;
    while i < ts.len()
        invariant
            s == svs(ts@),
            i <= ts@.len(),
            r@ == tags_debug(s.take(i as int)),
        decreases ts@.len() - i,
    {
        if i > 0 {
            push_str(&mut r, ", ");
        }
        let d = debug_str(ts[i].as_str());
        push_str(&mut r, d.as_str());
        i = i + 1;
        proof {
            assert(s.take(i as int).drop_last() =~= s.take(i - 1));
            assert(s.take(i as int)[i - 1] == ts@[i - 1]@);
            if i == 1 {
                assert(s.take(0) =~= Seq::<Seq<char>>::empty());
                assert(r@ =~= debug_text(s.take(i as int)[0]));
            } else {
                assert(r@ =~= tags_debug(s.take(i - 1)) + ", "@ + debug_text(s.take(i as int)[i - 1]));
            }
        }
    }
    assert(s.take(ts@.len() as int) =~= s);
    r
}

/// The `Debug` rendering of a shape.
pub fn shape_debug_text(s: &Shape) -> (r: String)
    ensures
        r@ == shape_debug(s@),
    decreases s,
{
    match s {
        Shape::Unknown => "Unknown".to_owned(),
        Shape::EmptyRecord => "EmptyRecord".to_owned(),
        Shape::Record(m) => {
            let mut r = "Record({".to_owned();
            let ghost es = m.model();
            proof {
                lemma_record_model(*m);
            }
            let mut i: usize = 0;
            let ghost r0 = r@;
            while i < m.entries.len()
                invariant
                    es == m.model(),
                    es == sv_entries(m.entries@),
                    i <= m.entries@.len(),
                    r0 == "Record({"@,
                    r@ == r0 + entries_debug(es.take(i as int)),
                    decreases_to!(*s => m.entries),
                decreases m.entries@.len() - i,
            {
                let ghost before = r@;
                if i > 0 {
                    push_str(&mut r, ", ");
                }
                let k = debug_str(m.entries[i].0.as_str());
                push_str(&mut r, k.as_str());
                push_str(&mut r, ": ");
                proof {
                    assert(decreases_to!(m.entries => m.entries@));
                    assert(decreases_to!(m.entries@ => m.entries@[i as int]));
                    assert(decreases_to!(m.entries@[i as int] => m.entries@[i as int].1));
                }
                let v = shape_debug_text(&m.entries[i].1);
                push_str(&mut r, v.as_str());
                i = i + 1;
                proof {
                    let t = es.take(i as int);
                    assert(t.drop_last() =~= es.take(i - 1));
                    assert(t[i - 1] == (m.entries@[i - 1].0@, sv(m.entries@[i - 1].1)));
                    if i == 1 {
                        assert(es.take(0) =~= Seq::<(Seq<char>, ShapeV)>::empty());
                        assert(r@ =~= r0 + entries_debug(t));
                    } else {
                        assert(r@ =~= r0 + entries_debug(t));
                    }
                }
            }
            proof {
                assert(es.take(i as int) =~= es);
            }
            push_str(&mut r, "})");
            proof {
                assert(r@ =~= shape_debug(s@));
            }
            r
        },
        Shape::List(b) => {
            let mut r = "List(".to_owned();
            let inner = shape_debug_text(b);
            push_str(&mut r, inner.as_str());
            push_str(&mut r, ")");
            proof {
                assert(r@ =~= shape_debug(s@));
            }
            r
        },
        Shape::Text => "Text".to_owned(),
        Shape::Number => "Number".to_owned(),
        Shape::TagSet(ts) => {
            let mut r = "TagSet([".to_owned();
            let inner = tags_debug_exec(ts);
            push_str(&mut r, inner.as_str());
            push_str(&mut r, "])");
            proof {
                assert(r@ =~= shape_debug(s@));
            }
            r
        },
        Shape::SourceMarker => "SourceMarker".to_owned(),
        Shape::Skip => "Skip".to_owned(),
        Shape::Document => "Document".to_owned(),
        Shape::Element => "Element".to_owned(),
        Shape::Scene => "Scene".to_owned(),
        Shape::Effect => "Effect".to_owned(),
    }
}

fn copy_strings(v: &Vec<String>) -> (r: Vec<String>)
    ensures
        svs(r@) == svs(v@),
{
    let mut out: Vec<String> = Vec::new();
    let mut i: usize = 0;
    while i < v.len()
        invariant
            i <= v@.len(),
            svs(out@) == svs(v@).take(i as int),
        decreases v@.len() - i,
    {
        let x = copy_string(&v[i]);
        proof {
            assert(svs(out@.push(x)) =~= svs(out@).push(x@));
        }
        out.push(x);
        i = i + 1;
        proof {
            assert(svs(v@).take(i as int) =~= svs(v@).take(i - 1).push(v@[i - 1]@));
        }
    }
    assert(svs(v@).take(v@.len() as int) =~= svs(v@));
    out
}

/// A copy of a shape.
pub fn copy_shape(s: &Shape) -> (r: Shape)
    ensures
        r@ == s@,
    decreases s,
{
    match s {
        Shape::Unknown => Shape::Unknown,
        Shape::EmptyRecord => Shape::EmptyRecord,
        Shape::Record(m) => {
            let mut entries: Vec<(String, Shape)> = Vec::new();
            let mut i: usize = 0;
            while i < m.entries.len()
                invariant
                    i <= m.entries@.len(),
                    sv_entries(entries@) == sv_entries(m.entries@).take(i as int),
                    decreases_to!(*s => m.entries),
                decreases m.entries@.len() - i,
            {
                proof {
                    assert(decreases_to!(m.entries => m.entries@));
                    assert(decreases_to!(m.entries@ => m.entries@[i as int]));
                    assert(decreases_to!(m.entries@[i as int] => m.entries@[i as int].1));
                }
                let e = (copy_string(&m.entries[i].0), copy_shape(&m.entries[i].1));
                proof {
                    assert(sv_entries(entries@.push(e)) =~= sv_entries(entries@).push(
                        (e.0@, sv(e.1)),
                    ));
                }
                entries.push(e);
                i = i + 1;
                proof {
                    assert(sv_entries(m.entries@).take(i as int) =~= sv_entries(m.entries@).take(
                        i - 1,
                    ).push((m.entries@[i - 1].0@, sv(m.entries@[i - 1].1))));
                }
            }
            proof {
                assert(sv_entries(m.entries@).take(i as int) =~= sv_entries(m.entries@));
            }
            Shape::Record(StrMap { entries })
        },
        Shape::List(b) => Shape::List(Box::new(copy_shape(b))),
        Shape::Text => Shape::Text,
        Shape::Number => Shape::Number,
        Shape::TagSet(t) => Shape::TagSet(copy_strings(t)),
        Shape::SourceMarker => Shape::SourceMarker,
        Shape::Skip => Shape::Skip,
        Shape::Document => Shape::Document,
        Shape::Element => Shape::Element,
        Shape::Scene => Shape::Scene,
        Shape::Effect => Shape::Effect,
    }
}

fn strings_eq(a: &Vec<String>, b: &Vec<String>) -> (r: bool)
    ensures
        r == (svs(a@) == svs(b@)),
{
    if a.len() != b.len() {
        proof {
            assert(svs(a@).len() != svs(b@).len());
        }
        return false;
    }
    let mut i: usize = 0;
    while i < a.len()
        invariant
            a@.len() == b@.len(),
            i <= a@.len(),
            forall|j: int| 0 <= j < i ==> #[trigger] a@[j]@ == b@[j]@,
        decreases a@.len() - i,
    {
        if !crate::text::string_eq_string(&a[i], &b[i]) {
            proof {
                assert(svs(a@)[i as int] != svs(b@)[i as int]);
            }
            return false;
        }
        i = i + 1;
    }
    assert(svs(a@) =~= svs(b@));
    true
}

/// Whether two shapes are the same.
pub fn shape_eq(a: &Shape, b: &Shape) -> (r: bool)
    ensures
        r == (a@ == b@),
    decreases a,
{
    match (a, b) {
        (Shape::Unknown, Shape::Unknown) => true,
        (Shape::EmptyRecord, Shape::EmptyRecord) => true,
        (Shape::Record(x), Shape::Record(y)) => {
            let ghost xs = sv_entries(x.entries@);
            let ghost ys = sv_entries(y.entries@);
            if x.entries.len() != y.entries.len() {
                proof {
                    assert(xs.len() != ys.len());
                    assert(a@ == ShapeV::Record(xs));
                    assert(b@ == ShapeV::Record(ys));
                }
                return false;
            }
            let mut i: usize = 0;
            while i < x.entries.len()
                invariant
                    xs == sv_entries(x.entries@),
                    ys == sv_entries(y.entries@),
                    x.entries@.len() == y.entries@.len(),
                    i <= x.entries@.len(),
                    forall|j: int| 0 <= j < i ==> #[trigger] xs[j] == ys[j],
                    decreases_to!(*a => x.entries),
                    a@ == ShapeV::Record(xs),
                    b@ == ShapeV::Record(ys),
                decreases x.entries@.len() - i,
            {
                proof {
                    assert(decreases_to!(x.entries => x.entries@));
                    assert(decreases_to!(x.entries@ => x.entries@[i as int]));
                    assert(decreases_to!(x.entries@[i as int] => x.entries@[i as int].1));
                }
                if !crate::text::string_eq_string(&x.entries[i].0, &y.entries[i].0) || !shape_eq(
                    &x.entries[i].1,
                    &y.entries[i].1,
                ) {
                    proof {
                        assert(xs[i as int] == (x.entries@[i as int].0@, sv(x.entries@[i as int].1)));
                        assert(ys[i as int] == (y.entries@[i as int].0@, sv(y.entries@[i as int].1)));
                        assert(xs[i as int] != ys[i as int]);
                        assert(a@ == ShapeV::Record(xs));
                        assert(b@ == ShapeV::Record(ys));
                        assert(xs != ys);
                    }
                    return false;
                }
                proof {
                    assert(xs[i as int] == ys[i as int]);
                }
                i = i + 1;
            }
            proof {
                assert(xs =~= ys);
            }
            true
        },
        (Shape::List(x), Shape::List(y)) => shape_eq(x, y),
        (Shape::Text, Shape::Text) => true,
        (Shape::Number, Shape::Number) => true,
        (Shape::TagSet(x), Shape::TagSet(y)) => strings_eq(x, y),
        (Shape::SourceMarker, Shape::SourceMarker) => true,
        (Shape::Skip, Shape::Skip) => true,
        (Shape::Document, Shape::Document) => true,
        (Shape::Element, Shape::Element) => true,
        (Shape::Scene, Shape::Scene) => true,
        (Shape::Effect, Shape::Effect) => true,
        _ => false,
    }
}


// ---------------------------------------------------------------------------
// Merging the shapes of alternatives
// ---------------------------------------------------------------------------

pub open spec fn keys_of(es: Seq<(Seq<char>, ShapeV)>) -> Seq<Seq<char>> {
    es.map_values(|e: (Seq<char>, ShapeV)| e.0)
}

/// The tags, inserted one by one into a sorted set.
pub open spec fn tag_fold(s: Seq<Seq<char>>) -> Seq<(Seq<char>, bool)>
    decreases s.len(),
{
    if s.len() == 0 {
        Seq::empty()
    } else {
        ins_absent(tag_fold(s.drop_last()), s[s.len() - 1], true)
    }
}

/// The tags of `s`, sorted, each once.
pub open spec fn tag_union(s: Seq<Seq<char>>) -> Seq<Seq<char>> {
    tag_fold(s).map_values(|e: (Seq<char>, bool)| e.0)
}

pub open spec fn field_or_unknown(b: Seq<(Seq<char>, ShapeV)>, name: Seq<char>) -> ShapeV {
    match lookup(b, name) {
        Some(s) => s,
        None => ShapeV::Unknown,
    }
}

/// The shape that covers two alternatives: `Skip` and `Unknown` give way to
/// the other side, tag sets unite, records with the same field names and
/// lists merge field by field, equal shapes stay, and anything else is
/// `Unknown`.
pub open spec fn merge(l: ShapeV, r: ShapeV) -> ShapeV
    decreases l,
{
    if l is Skip {
        r
    } else if r is Skip {
        l
    } else if l is Unknown {
        r
    } else if r is Unknown {
        l
    } else {
        match l {
            ShapeV::TagSet(a) => match r {
                ShapeV::TagSet(b) => ShapeV::TagSet(tag_union(a + b)),
                _ => ShapeV::Unknown,
            },
            ShapeV::Record(a) => match r {
                ShapeV::Record(b) => if keys_of(a) == keys_of(b) {
                    ShapeV::Record(merge_fields(a, b))
                } else {
                    ShapeV::Unknown
                },
                _ => ShapeV::Unknown,
            },
            ShapeV::List(a) => match r {
                ShapeV::List(b) => ShapeV::List(Box::new(merge(*a, *b))),
                _ => ShapeV::Unknown,
            },
            _ => if l == r {
                l
            } else {
                ShapeV::Unknown
            },
        }
    }
}

/// The fields of `a`, each merged with the field of the same name in `b`.
pub open spec fn merge_fields(a: Seq<(Seq<char>, ShapeV)>, b: Seq<(Seq<char>, ShapeV)>) -> Seq<
    (Seq<char>, ShapeV),
>
    decreases a,
{
    if a.len() == 0 {
        Seq::empty()
    } else {
        let last = a[a.len() - 1];
        ins(merge_fields(a.drop_last(), b), last.0, merge(last.1, field_or_unknown(b, last.0)))
    }
}

fn keys_equal(a: &StrMap<Shape>, b: &StrMap<Shape>) -> (r: bool)
    ensures
        r == (keys_of(a.model()) == keys_of(b.model())),
{
    let ghost ka = keys_of(a.model());
    let ghost kb = keys_of(b.model());
    if a.entries.len() != b.entries.len() {
        proof {
            assert(ka.len() != kb.len());
        }
        return false;
    }
    let mut i: usize = 0;
    while i < a.entries.len()
        invariant
            ka == keys_of(a.model()),
            kb == keys_of(b.model()),
            a.entries@.len() == b.entries@.len(),
            i <= a.entries@.len(),
            forall|j: int| 0 <= j < i ==> #[trigger] ka[j] == kb[j],
        decreases a.entries@.len() - i,
    {
        if !crate::text::string_eq_string(&a.entries[i].0, &b.entries[i].0) {
            proof {
                assert(ka[i as int] != kb[i as int]);
            }
            return false;
        }
        i = i + 1;
    }
    assert(ka =~= kb);
    true
}

fn tags_union_exec(a: &Vec<String>, b: &Vec<String>) -> (r: Vec<String>)
    ensures
        svs(r@) == tag_union(svs(a@) + svs(b@)),
{
    let ghost s = svs(a@) + svs(b@);
    let mut set: StrMap<bool> = StrMap::new();
    let mut i: usize = 0;
    proof {
        assert(s.take(0) =~= Seq::<Seq<char>>::empty());
    }
    while i < a.len()
        invariant
            s == svs(a@) + svs(b@),
            i <= a@.len(),
            set.model() == tag_fold(s.take(i as int)),
        decreases a@.len() - i,
    {
        set.insert_absent(copy_string(&a[i]), true);
        i = i + 1;
        proof {
            assert(s.take(i as int).drop_last() =~= s.take(i - 1));
        }
    }
    let mut j: usize = 0;
    while j < b.len()
        invariant
            s == svs(a@) + svs(b@),
            j <= b@.len(),
            set.model() == tag_fold(s.take(a@.len() + j)),
        decreases b@.len() - j,
    {
        set.insert_absent(copy_string(&b[j]), true);
        j = j + 1;
        proof {
            assert(s.take(a@.len() + j).drop_last() =~= s.take(a@.len() + j - 1));
            assert(s[a@.len() + j - 1] == b@[j - 1]@);
        }
    }
    proof {
        assert(s.take(a@.len() + j) =~= s);
    }
    let mut out: Vec<String> = Vec::new();
    let mut k: usize = 0;
    while k < set.entries.len()
        invariant
            k <= set.entries@.len(),
            svs(out@) == tag_union(s).take(k as int),
            set.model() == tag_fold(s),
        decreases set.entries@.len() - k,
    {
        let x = copy_string(&set.entries[k].0);
        proof {
            assert(svs(out@.push(x)) =~= svs(out@).push(x@));
        }
        out.push(x);
        k = k + 1;
        proof {
            assert(tag_union(s).take(k as int) =~= tag_union(s).take(k - 1).push(
                set.model()[k - 1].0,
            ));
        }
    }
    proof {
        assert(tag_union(s).take(k as int) =~= tag_union(s));
    }
    out
}

/// The shape that covers both alternatives.
pub fn merge_shapes(l: &Shape, r: &Shape) -> (m: Shape)
    ensures
        m@ == merge(l@, r@),
    decreases l,
{
    if let Shape::Skip = l {
        return copy_shape(r);
    }
    if let Shape::Skip = r {
        return copy_shape(l);
    }
    if let Shape::Unknown = l {
        return copy_shape(r);
    }
    if let Shape::Unknown = r {
        return copy_shape(l);
    }
    match l {
        Shape::TagSet(a) => match r {
            Shape::TagSet(b) => Shape::TagSet(tags_union_exec(a, b)),
            _ => Shape::Unknown,
        },
        Shape::Record(a) => match r {
            Shape::Record(b) => {
                proof {
                    lemma_record_model(*a);
                    lemma_record_model(*b);
                }
                if !keys_equal(a, b) {
                    return Shape::Unknown;
                }
                let ghost am = a.model();
                let ghost bm = b.model();
                let mut out: StrMap<Shape> = StrMap::new();
                let mut i: usize = 0;
                proof {
                    lemma_record_model(*a);
                    assert(am.take(0) =~= Seq::<(Seq<char>, ShapeV)>::empty());
                }
                while i < a.entries.len()
                    invariant
                        am == a.model(),
                        bm == b.model(),
                        am == sv_entries(a.entries@),
                        i <= a.entries@.len(),
                        out.model() == merge_fields(am.take(i as int), bm),
                        decreases_to!(*l => a.entries),
                    decreases a.entries@.len() - i,
                {
                    proof {
                        assert(decreases_to!(a.entries => a.entries@));
                        assert(decreases_to!(a.entries@ => a.entries@[i as int]));
                        assert(decreases_to!(a.entries@[i as int] => a.entries@[i as int].1));
                    }
                    let name = &a.entries[i].0;
                    let merged = match b.get(name.as_str()) {
                        Some(other) => merge_shapes(&a.entries[i].1, other),
                        None => merge_shapes(&a.entries[i].1, &Shape::Unknown),
                    };
                    out.insert(copy_string(name), merged);
                    i = i + 1;
                    proof {
                        let t = am.take(i as int);
                        assert(t.drop_last() =~= am.take(i - 1));
                        assert(t[i - 1] == (a.entries@[i - 1].0@, sv(a.entries@[i - 1].1)));
                    }
                }
                proof {
                    assert(am.take(i as int) =~= am);
                    lemma_record_model(out);
                }
                Shape::Record(out)
            },
            _ => Shape::Unknown,
        },
        Shape::List(a) => match r {
            Shape::List(b) => Shape::List(Box::new(merge_shapes(a, b))),
            _ => Shape::Unknown,
        },
        _ => {
            if shape_eq(l, r) {
                copy_shape(l)
            } else {
                Shape::Unknown
            }
        },
    }
}

// ---------------------------------------------------------------------------
// What shape inference assigns to expressions
// ---------------------------------------------------------------------------

/// What shape inference knows while it shapes an expression: the shapes of the
/// definitions so far, the declared source paths, and the binders in scope,
/// innermost last.
pub struct Env {
    pub defs: Seq<(Seq<char>, ShapeV)>,
    pub srcs: Seq<Seq<char>>,
    pub scopes: Seq<(Seq<char>, ShapeV)>,
}

pub open spec fn with_binding(env: Env, name: Seq<char>, s: ShapeV) -> Env {
    Env { defs: env.defs, srcs: env.srcs, scopes: env.scopes.push((name, s)) }
}

/// A shape, and the diagnostics emitted while finding it.
pub type Res = (ShapeV, Seq<Seq<char>>);

/// The shapes of a sequence of expressions, and their diagnostics.
pub type SeqRes = (Seq<ShapeV>, Seq<Seq<char>>);

pub open spec fn none() -> Seq<Seq<char>> {
    Seq::empty()
}

/// The innermost binding of `name`.
pub open spec fn scope_lookup(scopes: Seq<(Seq<char>, ShapeV)>, name: Seq<char>) -> Option<ShapeV>
    decreases scopes.len(),
{
    if scopes.len() == 0 {
        None
    } else if scopes[scopes.len() - 1].0 == name {
        Some(scopes[scopes.len() - 1].1)
    } else {
        scope_lookup(scopes.drop_last(), name)
    }
}

/// A binder in scope, or else a definition.
pub open spec fn root_lookup(env: Env, root: Seq<char>) -> Option<ShapeV> {
    match scope_lookup(env.scopes, root) {
        Some(s) => Some(s),
        None => lookup(env.defs, root),
    }
}

/// Follows the dot-separated parts of `p` from position `a` on, through the
/// fields of record shapes; a `sources` part makes the path a source.
pub open spec fn walk_parts(s: ShapeV, p: Seq<char>, a: int) -> Res
    decreases p.len() - a,
{
    if 0 <= a <= p.len() {
        let b = find_from(p, '.', a, p.len() as int);
        let part = p.subrange(a, b);
        if part == "sources"@ {
            (ShapeV::SourceMarker, none())
        } else {
            match s {
                ShapeV::Record(fs) => match lookup(fs, part) {
                    Some(f) => if a <= b < p.len() {
                        walk_parts(f, p, b + 1)
                    } else {
                        (f, none())
                    },
                    None => (
                        ShapeV::Unknown,
                        seq!["unknown field `"@ + part + "` in path `"@ + p + "`"@],
                    ),
                },
                _ => (
                    ShapeV::Unknown,
                    seq!["cannot access field `"@ + part + "` on shape "@ + shape_debug(s)],
                ),
            }
        }
    } else {
        (s, none())
    }
}

/// The shape of a path: a declared source (directly or under `sources.`),
/// or the shape its root is bound to, followed through record fields.
pub open spec fn path_shape(p: Seq<char>, env: Env) -> Res {
    if env.srcs.contains(p) || (p.len() >= 8 && p.take(8) == "sources."@ && env.srcs.contains(
        p.skip(8),
    )) {
        (ShapeV::SourceMarker, none())
    } else {
        let d = find_from(p, '.', 0, p.len() as int);
        match root_lookup(env, p.take(d)) {
            None => (ShapeV::Unknown, seq!["unresolved path `"@ + p + "`"@]),
            Some(s) => if d < p.len() {
                walk_parts(s, p, d + 1)
            } else {
                (s, none())
            },
        }
    }
}

pub open spec fn is_text_call(c: Seq<char>) -> bool {
    c == "Text/from_number"@ || c == "Text/join"@ || c == "Text/append"@ || c == "Text/uppercase"@
}

pub open spec fn is_number_call(c: Seq<char>) -> bool {
    c == "Math/sum"@ || c == "List/count"@ || c == "Temperature/c_to_f"@ || c == "Number/abs"@
        || c == "Number/neg_abs"@ || c == "Number/max"@ || c == "Number/clamp"@
        || c == "Number/percent_of_range"@ || c == "Number/scale_percent"@
}

pub open spec fn is_bool_call(c: Seq<char>) -> bool {
    c == "Bool/not"@ || c == "Number/less_than"@ || c == "Number/greater_than"@
        || c == "Geometry/intersects"@
}

pub open spec fn is_list_call(c: Seq<char>) -> bool {
    c == "List/append"@ || c == "List/remove"@ || c == "List/map"@ || c == "List/retain"@
}

/// The library functions whose result is a record.
pub open spec fn is_record_library_call(c: Seq<char>) -> bool {
    c == "Pong/initial"@ || c == "Pong/step"@
}

/// The shape of a library call by its name alone.
pub open spec fn call_result(c: Seq<char>) -> Res {
    if c == "Document/new"@ {
        (ShapeV::Document, none())
    } else if c == "Element/button"@ {
        (ShapeV::Element, none())
    } else if c == "Scene/new"@ {
        (ShapeV::Scene, none())
    } else if is_text_call(c) {
        (ShapeV::Text, none())
    } else if is_number_call(c) {
        (ShapeV::Number, none())
    } else if c == "Timer/interval"@ || c == "Window/animation_frame"@ {
        (ShapeV::SourceMarker, none())
    } else if is_bool_call(c) {
        (ShapeV::TagSet(bool_tags()), none())
    } else if is_list_call(c) {
        (ShapeV::Unknown, none())
    } else if is_record_library_call(c) {
        (ShapeV::Record(Seq::empty()), none())
    } else {
        (ShapeV::Unknown, seq!["unknown call `"@ + c + "`"@])
    }
}

/// The shape of a binary operation on the shapes of its operands.
pub open spec fn binary_res(op: BinaryOp, l: ShapeV, r: ShapeV) -> Res {
    if (op is Add || op is Subtract) && l is Number && r is Number {
        (ShapeV::Number, none())
    } else {
        match op {
            BinaryOp::Add => (
                ShapeV::Unknown,
                seq!["cannot add shapes "@ + shape_debug(l) + " and "@ + shape_debug(r)],
            ),
            BinaryOp::Subtract => (
                ShapeV::Unknown,
                seq!["cannot subtract shapes "@ + shape_debug(l) + " and "@ + shape_debug(r)],
            ),
            BinaryOp::Equal => (ShapeV::TagSet(bool_tags()), none()),
        }
    }
}

/// The shape of field `f` of a value of shape `s`.
pub open spec fn field_res(s: ShapeV, f: Seq<char>) -> Res {
    match s {
        ShapeV::Record(fs) => match lookup(fs, f) {
            Some(x) => (x, none()),
            None => (ShapeV::Unknown, seq!["cannot access field `"@ + f + "` on shape "@ + shape_debug(s)]),
        },
        _ => (ShapeV::Unknown, seq!["cannot access field `"@ + f + "` on shape "@ + shape_debug(s)]),
    }
}

/// The shapes merged left to right.
pub open spec fn fold_merge(ss: Seq<ShapeV>) -> ShapeV
    decreases ss.len(),
{
    if ss.len() <= 1 {
        ss[0]
    } else {
        merge(fold_merge(ss.drop_last()), ss[ss.len() - 1])
    }
}

/// The shape of the last expression; an empty block has none.
pub open spec fn last_res(r: SeqRes) -> Res {
    if r.0.len() == 0 {
        (ShapeV::Unknown, r.1.push("empty expression block has no shape"@))
    } else {
        (r.0[r.0.len() - 1], r.1)
    }
}

/// The merged shape of all the expressions.
pub open spec fn common_res(r: SeqRes) -> Res {
    if r.0.len() == 0 {
        (ShapeV::Unknown, r.1)
    } else {
        (fold_merge(r.0), r.1)
    }
}

/// The position of the first argument named `name`, from `k` on; the
/// number of arguments where there is none.
pub open spec fn named_index(args: Seq<ArgV>, name: Seq<char>, k: int) -> int
    decreases args.len() - k,
{
    if k < 0 || k >= args.len() {
        args.len() as int
    } else if args[k] matches ArgV::Named(n, _) && n == name {
        k
    } else {
        named_index(args, name, k + 1)
    }
}

/// The position of the first positional argument, from `k` on.
pub open spec fn positional_index(args: Seq<ArgV>, k: int) -> int
    decreases args.len() - k,
{
    if k < 0 || k >= args.len() {
        args.len() as int
    } else if args[k] is Positional {
        k
    } else {
        positional_index(args, k + 1)
    }
}

/// The item argument of `List/append`: the one named `item`, else the
/// first positional one.
pub open spec fn item_index(args: Seq<ArgV>) -> int {
    let i = named_index(args, "item"@, 0);
    if i < args.len() {
        i
    } else {
        positional_index(args, 0)
    }
}

/// The name that a list operation binds each item to: its first positional
/// argument when that is a bare path, else `item`.
pub open spec fn list_binder(args: Seq<ArgV>) -> Seq<char> {
    let j = positional_index(args, 0);
    if 0 <= j < args.len() {
        match args[j] {
            ArgV::Positional(ExprV::Path(p)) => p,
            _ => "item"@,
        }
    } else {
        "item"@
    }
}

pub open spec fn sh(e: ExprV, env: Env) -> Res
    decreases e, 0int,
{
    match e {
        ExprV::Missing => (ShapeV::Unknown, none()),
        ExprV::Path(p) => path_shape(p, env),
        ExprV::Number(_) => (ShapeV::Number, none()),
        ExprV::Source => (ShapeV::SourceMarker, none()),
        ExprV::SourceAt(t) => (ShapeV::SourceMarker, sh(*t, env).1),
        ExprV::Link(t) => (
            ShapeV::SourceMarker,
            match t {
                Some(t) => sh(*t, env).1,
                None => none(),
            },
        ),
        ExprV::Skip => (ShapeV::Skip, none()),
        ExprV::Tag(n) => (ShapeV::TagSet(seq![n]), none()),
        ExprV::Text(_) => (ShapeV::Text, none()),
        ExprV::Record(fs) => {
            let r = sh_fields(fs, env);
            (ShapeV::Record(r.0), r.1)
        },
        ExprV::Constructor(_, fs) => {
            let r = sh_fields(fs, env);
            (ShapeV::Record(r.0), r.1)
        },
        ExprV::List(vs) => {
            let r = common_res(sh_seq(vs, env));
            (ShapeV::List(Box::new(r.0)), r.1)
        },
        ExprV::Block(vs) => last_res(sh_seq(vs, env)),
        ExprV::Latest(vs) => last_res(sh_seq(vs, env)),
        ExprV::Then(vs) => last_res(sh_seq(vs, env)),
        ExprV::Call(c, args) => {
            let d = sh_args_diags(args, env);
            let cr = call_result(c);
            (cr.0, d + cr.1)
        },
        ExprV::FieldAccess(b, f) => {
            let rb = sh(*b, env);
            let rf = field_res(rb.0, f);
            (rf.0, rb.1 + rf.1)
        },
        ExprV::Pipe(i, s) => {
            let ri = sh(*i, env);
            let rs = pipe_shape(ri.0, *s, env);
            (rs.0, ri.1 + rs.1)
        },
        ExprV::Binary(op, l, r) => {
            let a = sh(*l, env);
            let b = sh(*r, env);
            let res = binary_res(op, a.0, b.0);
            (res.0, a.1 + b.1 + res.1)
        },
        ExprV::Hold(b, body) => last_res(sh_seq(body, with_binding(env, b, ShapeV::Unknown))),
        ExprV::Match(_, arms) => common_res(sh_arms(arms, env)),
    }
}

pub open spec fn sh_seq(vs: Seq<ExprV>, env: Env) -> SeqRes
    decreases vs, 0int,
{
    if vs.len() == 0 {
        (Seq::empty(), none())
    } else {
        let p = sh_seq(vs.drop_last(), env);
        let r = sh(vs[vs.len() - 1], env);
        (p.0.push(r.0), p.1 + r.1)
    }
}

pub open spec fn sh_arms(arms: Seq<ArmV>, env: Env) -> SeqRes
    decreases arms, 0int,
{
    if arms.len() == 0 {
        (Seq::empty(), none())
    } else {
        let p = sh_arms(arms.drop_last(), env);
        let r = sh(arms[arms.len() - 1].value, env);
        (p.0.push(r.0), p.1 + r.1)
    }
}

/// A record's field shapes by name; a later field replaces an earlier one
/// of the same name.
pub open spec fn sh_fields(fs: Seq<FieldV>, env: Env) -> (Seq<(Seq<char>, ShapeV)>, Seq<Seq<char>>)
    decreases fs, 0int,
{
    if fs.len() == 0 {
        (Seq::empty(), none())
    } else {
        let p = sh_fields(fs.drop_last(), env);
        let f = fs[fs.len() - 1];
        let r = sh(f.value, env);
        (ins(p.0, f.name, r.0), p.1 + r.1)
    }
}

/// The diagnostics of shaping every argument.
pub open spec fn sh_args_diags(args: Seq<ArgV>, env: Env) -> Seq<Seq<char>>
    decreases args, 0int,
{
    if args.len() == 0 {
        none()
    } else {
        let p = sh_args_diags(args.drop_last(), env);
        let d = match args[args.len() - 1] {
            ArgV::Positional(v) => sh(v, env).1,
            ArgV::Named(_, v) => sh(v, env).1,
        };
        p + d
    }
}

/// The shape of the argument at `i` (which must be in range), under `env`.
pub open spec fn sh_arg(args: Seq<ArgV>, i: int, env: Env) -> Res
    decreases args, 0int,
{
    if 0 <= i < args.len() {
        match args[i] {
            ArgV::Positional(v) => sh(v, env),
            ArgV::Named(_, v) => sh(v, env),
        }
    } else {
        (ShapeV::Unknown, none())
    }
}

/// The shape of `input` piped into a call.
pub open spec fn pipe_call_shape(input: ShapeV, c: Seq<char>, args: Seq<ArgV>, env: Env) -> Res
    decreases args, 1int,
{
    if c == "Document/new"@ {
        (ShapeV::Document, none())
    } else if is_text_call(c) {
        (ShapeV::Text, none())
    } else if c == "Math/sum"@ || c == "Temperature/c_to_f"@ {
        (ShapeV::Number, none())
    } else if c == "Bool/not"@ {
        (ShapeV::TagSet(bool_tags()), none())
    } else if c == "List/append"@ {
        let i = item_index(args);
        let item = if 0 <= i < args.len() {
            sh_arg(args, i, env)
        } else {
            (ShapeV::Unknown, seq!["List/append requires an item argument"@])
        };
        let tail = match input {
            ShapeV::List(existing) => if *existing == item.0 {
                (ShapeV::List(existing), none())
            } else if *existing is Unknown {
                (ShapeV::List(Box::new(item.0)), none())
            } else {
                (
                    ShapeV::Unknown,
                    seq![
                        "cannot append item shape "@ + shape_debug(item.0)
                            + " to list item shape "@ + shape_debug(*existing),
                    ],
                )
            },
            _ => (
                ShapeV::Unknown,
                seq!["List/append expected List input, got "@ + shape_debug(input)],
            ),
        };
        (tail.0, item.1 + tail.1)
    } else if c == "List/map"@ {
        match input {
            ShapeV::List(item) => {
                let k = named_index(args, "new"@, 0);
                if 0 <= k < args.len() {
                    let r = sh_arg(args, k, with_binding(env, list_binder(args), *item));
                    (ShapeV::List(Box::new(r.0)), r.1)
                } else {
                    (ShapeV::List(item), none())
                }
            },
            _ => (ShapeV::Unknown, seq!["List/map expected List input, got "@ + shape_debug(input)]),
        }
    } else if c == "List/retain"@ || c == "List/remove"@ {
        match input {
            ShapeV::List(item) => {
                let env2 = with_binding(env, list_binder(args), *item);
                let k1 = named_index(args, "if"@, 0);
                let k2 = named_index(args, "on"@, 0);
                let d1 = if 0 <= k1 < args.len() {
                    sh_arg(args, k1, env2).1
                } else {
                    none()
                };
                let d2 = if 0 <= k2 < args.len() {
                    sh_arg(args, k2, env2).1
                } else {
                    none()
                };
                (ShapeV::List(item), d1 + d2)
            },
            _ => (
                ShapeV::Unknown,
                seq![c + " expected List input, got "@ + shape_debug(input)],
            ),
        }
    } else if c == "List/count"@ {
        let d = match input {
            ShapeV::List(item) => {
                let k = named_index(args, "if"@, 0);
                if 0 <= k < args.len() {
                    sh_arg(args, k, with_binding(env, list_binder(args), *item)).1
                } else {
                    none()
                }
            },
            _ => none(),
        };
        (ShapeV::Number, d)
    } else {
        let d = sh_args_diags(args, env);
        let cr = call_result(c);
        (cr.0, d + cr.1)
    }
}

/// The shape of `input` piped into a stage.
pub open spec fn pipe_shape(input: ShapeV, stage: ExprV, env: Env) -> Res
    decreases stage, 1int,
{
    match stage {
        ExprV::SourceAt(t) => (input, sh(*t, env).1),
        ExprV::Link(t) => (
            input,
            match t {
                Some(t) => sh(*t, env).1,
                None => none(),
            },
        ),
        ExprV::Then(body) => last_res(sh_seq(body, env)),
        ExprV::Hold(b, body) => last_res(sh_seq(body, with_binding(env, b, input))),
        ExprV::Match(_, arms) => common_res(sh_arms(arms, env)),
        ExprV::Call(c, args) => pipe_call_shape(input, c, args, env),
        _ => sh(stage, env),
    }
}

// ---------------------------------------------------------------------------
// Shape inference over a module
// ---------------------------------------------------------------------------

/// A problem shape inference found.
#[derive(Clone, Debug, PartialEq, Eq)]
pub struct ShapeDiagnostic {
    pub message: String,
}

/// The shapes of a module's definitions and sources, and what went wrong.
#[derive(Debug, PartialEq, Eq)]
pub struct ShapeReport {
    pub definitions: StrMap<Shape>,
    pub sources: StrMap<Shape>,
    pub diagnostics: Vec<ShapeDiagnostic>,
}

pub open spec fn msgs_of(ds: Seq<ShapeDiagnostic>) -> Seq<Seq<char>> {
    ds.map_values(|d: ShapeDiagnostic| d.message@)
}

struct ShapeContext {
    definitions: StrMap<Shape>,
    source_paths: Vec<String>,
    scopes: Vec<(String, Shape)>,
    diagnostics: Vec<ShapeDiagnostic>,
}

fn named_index_exec(args: &Vec<CallArg>, name: &str) -> (r: usize)
    ensures
        r == named_index(avs(args@), name@, 0),
{
    let ghost s = avs(args@);
    let mut k: usize = 0;
    while k < args.len()
        invariant
            s == avs(args@),
            k <= args@.len(),
            named_index(s, name@, k as int) == named_index(s, name@, 0),
        decreases args@.len() - k,
    {
        if let CallArg::Named { name: n, .. } = &args[k] {
            if crate::text::string_eq_str(n, name) {
                return k;
            }
        }
        k = k + 1;
    }
    k
}

fn positional_index_exec(args: &Vec<CallArg>) -> (r: usize)
    ensures
        r == positional_index(avs(args@), 0),
{
    let ghost s = avs(args@);
    let mut k: usize = 0;
    while k < args.len()
        invariant
            s == avs(args@),
            k <= args@.len(),
            positional_index(s, k as int) == positional_index(s, 0),
        decreases args@.len() - k,
    {
        if let CallArg::Positional(_) = &args[k] {
            return k;
        }
        k = k + 1;
    }
    k
}

fn list_binder_exec(args: &Vec<CallArg>) -> (r: String)
    ensures
        r@ == list_binder(avs(args@)),
{
    let j = positional_index_exec(args);
    if j < args.len() {
        if let CallArg::Positional(Expr::Path(p)) = &args[j] {
            return copy_string(p);
        }
    }
    "item".to_owned()
}

fn string_in(v: &Vec<String>, x: &[char]) -> (r: bool)
    ensures
        r == svs(v@).contains(x@),
{
    let mut i: usize = 0;
    while i < v.len()
        invariant
            i <= v@.len(),
            forall|j: int| 0 <= j < i ==> v@[j]@ != x@,
        decreases v@.len() - i,
    {
        let n = crate::text::chars_of(v[i].as_str());
        if crate::text::chars_eq(n.as_slice(), x) {
            proof {
                assert(svs(v@)[i as int] == x@);
            }
            return true;
        }
        i = i + 1;
    }
    proof {
        if svs(v@).contains(x@) {
            let j = choose|j: int| 0 <= j < svs(v@).len() && svs(v@)[j] == x@;
            assert(v@[j]@ == x@);
        }
    }
    false
}

proof fn lemma_sh_seq_step(vs: Seq<ExprV>, i: int, env: Env)
    requires
        0 <= i < vs.len(),
    ensures
        sh_seq(vs.take(i + 1), env) == ({
            let p = sh_seq(vs.take(i), env);
            let r = sh(vs[i], env);
            (p.0.push(r.0), p.1 + r.1)
        }),
{
    assert(vs.take(i + 1).drop_last() =~= vs.take(i));
}

proof fn lemma_sh_seq_len(vs: Seq<ExprV>, env: Env)
    ensures
        sh_seq(vs, env).0.len() == vs.len(),
    decreases vs.len(),
{
    if vs.len() > 0 {
        lemma_sh_seq_len(vs.drop_last(), env);
    }
}

proof fn lemma_sh_arms_step(arms: Seq<ArmV>, i: int, env: Env)
    requires
        0 <= i < arms.len(),
    ensures
        sh_arms(arms.take(i + 1), env) == ({
            let p = sh_arms(arms.take(i), env);
            let r = sh(arms[i].value, env);
            (p.0.push(r.0), p.1 + r.1)
        }),
{
    assert(arms.take(i + 1).drop_last() =~= arms.take(i));
}

proof fn lemma_sh_arms_len(arms: Seq<ArmV>, env: Env)
    ensures
        sh_arms(arms, env).0.len() == arms.len(),
    decreases arms.len(),
{
    if arms.len() > 0 {
        lemma_sh_arms_len(arms.drop_last(), env);
    }
}

proof fn lemma_fold_merge_push(ss: Seq<ShapeV>, x: ShapeV)
    requires
        ss.len() >= 1,
    ensures
        fold_merge(ss.push(x)) == merge(fold_merge(ss), x),
{
    assert(ss.push(x).drop_last() =~= ss);
}

impl ShapeContext {
    spec fn env(&self) -> Env {
        Env {
            defs: self.definitions.model(),
            srcs: svs(self.source_paths@),
            scopes: entries_view(self.scopes@),
        }
    }

    spec fn msgs(&self) -> Seq<Seq<char>> {
        msgs_of(self.diagnostics@)
    }

    fn emit(&mut self, message: String)
        ensures
            final(self).msgs() == old(self).msgs().push(message@),
            final(self).env() == old(self).env(),
            final(self).scopes@ == old(self).scopes@,
    {
        let d = ShapeDiagnostic { message };
        proof {
            assert(msgs_of(self.diagnostics@.push(d)) =~= msgs_of(self.diagnostics@).push(d.message@));
        }
        self.diagnostics.push(d);
    }

    fn push_scope(&mut self, name: String, s: Shape)
        ensures
            final(self).env() == with_binding(old(self).env(), name@, s@),
            final(self).msgs() == old(self).msgs(),
            final(self).scopes@ == old(self).scopes@.push((name, s)),
    {
        let ghost x = (name, s);
        proof {
            assert(entries_view(self.scopes@.push(x)) =~= entries_view(self.scopes@).push(
                (name@, s@),
            ));
        }
        self.scopes.push((name, s));
    }

    fn pop_scope(&mut self)
        requires
            old(self).scopes@.len() > 0,
        ensures
            final(self).scopes@ == old(self).scopes@.drop_last(),
            final(self).env() == (Env {
                defs: old(self).env().defs,
                srcs: old(self).env().srcs,
                scopes: entries_view(old(self).scopes@.drop_last()),
            }),
            final(self).msgs() == old(self).msgs(),
    {
        let _ = self.scopes.pop();
    }

    fn lookup_root(&self, root: &[char]) -> (r: Option<Shape>)
        ensures
            match root_lookup(self.env(), root@) {
                Some(s) => r matches Some(x) && x@ == s,
                None => r is None,
            },
    {
        let ghost sc = entries_view(self.scopes@);
        let mut i: usize = self.scopes.len();
        proof {
            assert(sc.take(i as int) =~= sc);
        }
        while i > 0
            invariant
                sc == entries_view(self.scopes@),
                i <= self.scopes@.len(),
                scope_lookup(sc.take(i as int), root@) == scope_lookup(sc, root@),
            decreases i,
        {
            let n = crate::text::chars_of(self.scopes[i - 1].0.as_str());
            proof {
                assert(sc.take(i as int).drop_last() =~= sc.take(i - 1));
                assert(sc.take(i as int)[i - 1] == sc[i - 1]);
            }
            if crate::text::chars_eq(n.as_slice(), root) {
                return Some(copy_shape(&self.scopes[i - 1].1));
            }
            i = i - 1;
        }
        proof {
            assert(sc.take(0) =~= Seq::<(Seq<char>, ShapeV)>::empty());
        }
        match self.definitions.get_chars(root) {
            Some(s) => Some(copy_shape(s)),
            None => None,
        }
    }

    fn path_shape(&mut self, p: &String) -> (r: Shape)
        ensures
            r@ == path_shape(p@, old(self).env()).0,
            final(self).msgs() == old(self).msgs() + path_shape(p@, old(self).env()).1,
            final(self).env() == old(self).env(),
            final(self).scopes@ == old(self).scopes@,
    {
        let ghost env = self.env();
        let pc = crate::text::chars_of(p.as_str());
        let n = pc.len();
        let mut source = string_in(&self.source_paths, pc.as_slice());
        if !source && n >= 8 && crate::text::range_eq_str(pc.as_slice(), 0, 8, "sources.") {
            let rest = crate::text::copy_range(pc.as_slice(), 8, n);
            proof {
                assert(rest@ =~= p@.skip(8));
            }
            source = string_in(&self.source_paths, rest.as_slice());
        }
        proof {
            assert(p@.take(8) =~= p@.subrange(0, 8));
        }
        if source {
            proof {
                assert(self.msgs() =~= self.msgs() + none());
            }
            return Shape::SourceMarker;
        }
        let d = find_char_pub(pc.as_slice(), '.', 0, n);
        let root = crate::text::copy_range(pc.as_slice(), 0, d);
        proof {
            assert(root@ =~= p@.take(d as int));
        }
        let found = self.lookup_root(root.as_slice());
        let mut shape = match found {
            Some(s) => s,
            None => {
                let mut m = "unresolved path `".to_owned();
                push_str(&mut m, p.as_str());
                push_str(&mut m, "`");
                self.emit(m);
                return Shape::Unknown;
            },
        };
        if d == n {
            proof {
                assert(self.msgs() =~= self.msgs() + none());
            }
            return shape;
        }
        let mut a: usize = d + 1;
        loop
            invariant
                env == self.env(),
                self.msgs() == old(self).msgs(),
                self.scopes@ == old(self).scopes@,
                env == old(self).env(),
                pc@ == p@,
                n == pc@.len(),
                a <= n,
                path_shape(p@, env) == walk_parts(shape@, p@, a as int),
            decreases n - a,
        {
            let b = find_char_pub(pc.as_slice(), '.', a, n);
            proof {
                crate::toplevel::lemma_find_from(p@, '.', a as int, n as int);
            }
            if crate::text::range_eq_str(pc.as_slice(), a, b, "sources") {
                proof {
                    assert(self.msgs() =~= self.msgs() + none());
                }
                return Shape::SourceMarker;
            }
            let part = crate::text::copy_range(pc.as_slice(), a, b);
            let step: Result<Shape, String> = match &shape {
                Shape::Record(fs) => {
                    proof {
                        lemma_record_model(*fs);
                    }
                    match fs.get_chars(part.as_slice()) {
                        Some(f) => Ok(copy_shape(f)),
                        None => {
                            let mut m = "unknown field `".to_owned();
                            crate::text::push_chars(&mut m, part.as_slice());
                            push_str(&mut m, "` in path `");
                            push_str(&mut m, p.as_str());
                            push_str(&mut m, "`");
                            Err(m)
                        },
                    }
                },
                _ => {
                    let mut m = "cannot access field `".to_owned();
                    crate::text::push_chars(&mut m, part.as_slice());
                    push_str(&mut m, "` on shape ");
                    let dbg = shape_debug_text(&shape);
                    push_str(&mut m, dbg.as_str());
                    Err(m)
                },
            };
            match step {
                Ok(next) => {
                    if b < n {
                        shape = next;
                        a = b + 1;
                    } else {
                        proof {
                            assert(self.msgs() =~= self.msgs() + none());
                        }
                        return next;
                    }
                },
                Err(m) => {
                    proof {
                        assert(m@ =~= (match shape@ {
                            ShapeV::Record(_) => "unknown field `"@ + p@.subrange(a as int, b as int)
                                + "` in path `"@ + p@ + "`"@,
                            _ => "cannot access field `"@ + p@.subrange(a as int, b as int)
                                + "` on shape "@ + shape_debug(shape@),
                        }));
                    }
                    self.emit(m);
                    return Shape::Unknown;
                },
            }
        }
    }
}


fn bool_tags_exec() -> (r: Vec<String>)
    ensures
        svs(r@) == bool_tags(),
{
    let r = vec!["True".to_owned(), "False".to_owned()];
    assert(svs(r@) =~= bool_tags());
    r
}

fn is_text_call_exec(c: &String) -> (r: bool)
    ensures
        r == is_text_call(c@),
{
    string_eq_str(c, "Text/from_number") || string_eq_str(c, "Text/join") || string_eq_str(
        c,
        "Text/append",
    ) || string_eq_str(c, "Text/uppercase")
}

fn is_number_call_exec(c: &String) -> (r: bool)
    ensures
        r == is_number_call(c@),
{
    string_eq_str(c, "Math/sum") || string_eq_str(c, "List/count") || string_eq_str(
        c,
        "Temperature/c_to_f",
    ) || string_eq_str(c, "Number/abs") || string_eq_str(c, "Number/neg_abs") || string_eq_str(
        c,
        "Number/max",
    ) || string_eq_str(c, "Number/clamp") || string_eq_str(c, "Number/percent_of_range")
        || string_eq_str(c, "Number/scale_percent")
}

fn is_bool_call_exec(c: &String) -> (r: bool)
    ensures
        r == is_bool_call(c@),
{
    string_eq_str(c, "Bool/not") || string_eq_str(c, "Number/less_than") || string_eq_str(
        c,
        "Number/greater_than",
    ) || string_eq_str(c, "Geometry/intersects")
}

fn is_list_call_exec(c: &String) -> (r: bool)
    ensures
        r == is_list_call(c@),
{
    string_eq_str(c, "List/append") || string_eq_str(c, "List/remove") || string_eq_str(
        c,
        "List/map",
    ) || string_eq_str(c, "List/retain")
}

fn empty_record() -> (r: Shape)
    ensures
        r@ == ShapeV::Record(Seq::empty()),
{
    let m: StrMap<Shape> = StrMap::new();
    proof {
        lemma_record_model(m);
    }
    Shape::Record(m)
}

impl ShapeContext {
    fn call_result_exec(&mut self, c: &String) -> (r: Shape)
        ensures
            r@ == call_result(c@).0,
            final(self).msgs() == old(self).msgs() + call_result(c@).1,
            final(self).env() == old(self).env(),
            final(self).scopes@ == old(self).scopes@,
    {
        proof {
            assert(self.msgs() =~= self.msgs() + none());
        }
        if string_eq_str(c, "Document/new") {
            Shape::Document
        } else if string_eq_str(c, "Element/button") {
            Shape::Element
        } else if string_eq_str(c, "Scene/new") {
            Shape::Scene
        } else if is_text_call_exec(c) {
            Shape::Text
        } else if is_number_call_exec(c) {
            Shape::Number
        } else if string_eq_str(c, "Timer/interval") || string_eq_str(c, "Window/animation_frame") {
            Shape::SourceMarker
        } else if is_bool_call_exec(c) {
            Shape::TagSet(bool_tags_exec())
        } else if is_list_call_exec(c) {
            Shape::Unknown
        } else if string_eq_str(c, "Pong/initial") || string_eq_str(c, "Pong/step") {
            empty_record()
        } else {
            let mut m = "unknown call `".to_owned();
            push_str(&mut m, c.as_str());
            push_str(&mut m, "`");
            self.emit(m);
            Shape::Unknown
        }
    }

    fn binary_exec(&mut self, op: BinaryOp, l: &Shape, r: &Shape) -> (s: Shape)
        ensures
            s@ == binary_res(op, l@, r@).0,
            final(self).msgs() == old(self).msgs() + binary_res(op, l@, r@).1,
            final(self).env() == old(self).env(),
            final(self).scopes@ == old(self).scopes@,
    {
        proof {
            assert(self.msgs() =~= self.msgs() + none());
        }
        let ln = match l {
            Shape::Number => true,
            _ => false,
        };
        let rn = match r {
            Shape::Number => true,
            _ => false,
        };
        let arith = match op {
            BinaryOp::Add => true,
            BinaryOp::Subtract => true,
            BinaryOp::Equal => false,
        };
        if arith && ln && rn {
            return Shape::Number;
        }
        match op {
            BinaryOp::Add => {
                let mut m = "cannot add shapes ".to_owned();
                let a = shape_debug_text(l);
                push_str(&mut m, a.as_str());
                push_str(&mut m, " and ");
                let b = shape_debug_text(r);
                push_str(&mut m, b.as_str());
                self.emit(m);
                Shape::Unknown
            },
            BinaryOp::Subtract => {
                let mut m = "cannot subtract shapes ".to_owned();
                let a = shape_debug_text(l);
                push_str(&mut m, a.as_str());
                push_str(&mut m, " and ");
                let b = shape_debug_text(r);
                push_str(&mut m, b.as_str());
                self.emit(m);
                Shape::Unknown
            },
            BinaryOp::Equal => Shape::TagSet(bool_tags_exec()),
        }
    }

    fn field_exec(&mut self, s: &Shape, f: &String) -> (r: Shape)
        ensures
            r@ == field_res(s@, f@).0,
            final(self).msgs() == old(self).msgs() + field_res(s@, f@).1,
            final(self).env() == old(self).env(),
            final(self).scopes@ == old(self).scopes@,
    {
        if let Shape::Record(fs) = s {
            proof {
                lemma_record_model(*fs);
            }
            if let Some(x) = fs.get(f.as_str()) {
                proof {
                    assert(self.msgs() =~= self.msgs() + none());
                }
                return copy_shape(x);
            }
        }
        let mut m = "cannot access field `".to_owned();
        push_str(&mut m, f.as_str());
        push_str(&mut m, "` on shape ");
        let d = shape_debug_text(s);
        push_str(&mut m, d.as_str());
        self.emit(m);
        Shape::Unknown
    }

    /// The shape of an expression.
    fn shape_expr(&mut self, e: &Expr) -> (r: Shape)
        ensures
            r@ == sh(ev(*e), old(self).env()).0,
            final(self).msgs() == old(self).msgs() + sh(ev(*e), old(self).env()).1,
            final(self).env() == old(self).env(),
            final(self).scopes@ == old(self).scopes@,
        decreases e, 0int,
    {
        let ghost env = self.env();
        let ghost m0 = self.msgs();
        proof {
            assert(m0 =~= m0 + none());
        }
        match e {
            Expr::Missing => Shape::Unknown,
            Expr::Path(p) => self.path_shape(p),
            Expr::Number(_) => Shape::Number,
            Expr::Source => Shape::SourceMarker,
            Expr::SourceAt { target } => {
                let _ = self.shape_expr(target);
                Shape::SourceMarker
            },
            Expr::Link { target } => {
                if let Some(t) = target {
                    let _ = self.shape_expr(t);
                }
                Shape::SourceMarker
            },
            Expr::Skip => Shape::Skip,
            Expr::Tag(n) => {
                let v = vec![copy_string(n)];
                proof {
                    assert(svs(v@) =~= seq![n@]);
                }
                Shape::TagSet(v)
            },
            Expr::Text(_) => Shape::Text,
            Expr::Record(fs) => {
                let m = self.shape_fields(fs);
                proof {
                    lemma_record_model(m);
                }
                Shape::Record(m)
            },
            Expr::Constructor { fields, .. } => {
                let m = self.shape_fields(fields);
                proof {
                    lemma_record_model(m);
                }
                Shape::Record(m)
            },
            Expr::List(vs) => {
                let c = self.shape_common(vs);
                Shape::List(Box::new(c))
            },
            Expr::Block(vs) => self.shape_last(vs),
            Expr::Latest(vs) => self.shape_last(vs),
            Expr::Then { body } => self.shape_last(body),
            Expr::Call { callee, args } => {
                self.args_diags(args);
                let ghost m1 = self.msgs();
                let r = self.call_result_exec(callee);
                proof {
                    assert(self.msgs() =~= m0 + (sh_args_diags(avs(args@), env) + call_result(
                        callee@,
                    ).1));
                }
                r
            },
            Expr::FieldAccess { base, field } => {
                let b = self.shape_expr(base);
                let r = self.field_exec(&b, field);
                proof {
                    assert(self.msgs() =~= m0 + (sh(ev(**base), env).1 + field_res(b@, field@).1));
                }
                r
            },
            Expr::Pipe { input, stage } => {
                let i = self.shape_expr(input);
                let ghost iv = i@;
                let r = self.pipe_shape(i, stage);
                proof {
                    assert(self.msgs() =~= m0 + (sh(ev(**input), env).1 + pipe_shape(
                        iv,
                        ev(**stage),
                        env,
                    ).1));
                }
                r
            },
            Expr::Binary { op, left, right } => {
                let l = self.shape_expr(left);
                let r = self.shape_expr(right);
                let res = self.binary_exec(*op, &l, &r);
                proof {
                    assert(self.msgs() =~= m0 + (sh(ev(**left), env).1 + sh(ev(**right), env).1
                        + binary_res(*op, l@, r@).1));
                }
                res
            },
            Expr::Hold { binder, body } => {
                self.push_scope(copy_string(binder), Shape::Unknown);
                let r = self.shape_last(body);
                self.pop_scope();
                proof {
                    assert(self.scopes@ =~= old(self).scopes@);
                }
                r
            },
            Expr::Match { arms, .. } => self.shape_arms_common(arms),
        }
    }

    fn shape_last(&mut self, vs: &Vec<Expr>) -> (r: Shape)
        ensures
            r@ == last_res(sh_seq(evs(vs@), old(self).env())).0,
            final(self).msgs() == old(self).msgs() + last_res(sh_seq(evs(vs@), old(self).env())).1,
            final(self).env() == old(self).env(),
            final(self).scopes@ == old(self).scopes@,
        decreases vs, 0int,
    {
        let ghost env = self.env();
        let ghost m0 = self.msgs();
        let ghost s = evs(vs@);
        let mut last: Option<Shape> = None;
        let mut i: usize = 0;
        proof {
            assert(s.take(0) =~= Seq::<ExprV>::empty());
            assert(m0 =~= m0 + none());
        }
        while i < vs.len()
            invariant
                env == self.env(),
                env == old(self).env(),
                self.scopes@ == old(self).scopes@,
                m0 == old(self).msgs(),
                s == evs(vs@),
                i <= vs@.len(),
                self.msgs() == m0 + sh_seq(s.take(i as int), env).1,
                sh_seq(s.take(i as int), env).0.len() == i,
                i == 0 ==> last is None,
                i > 0 ==> (last matches Some(x) && x@ == sh_seq(s.take(i as int), env).0[i - 1]),
            decreases vs@.len() - i,
        {
            proof {
                assert(decreases_to!(vs@ => vs@[i as int]));
                assert(decreases_to!(*vs => vs@));
                lemma_sh_seq_step(s, i as int, env);
                assert(s[i as int] == ev(vs@[i as int]));
            }
            let x = self.shape_expr(&vs[i]);
            last = Some(x);
            proof {
                assert(self.msgs() =~= m0 + sh_seq(s.take(i + 1), env).1);
            }
            i = i + 1;
        }
        proof {
            assert(s.take(i as int) =~= s);
        }
        match last {
            Some(x) => x,
            None => {
                self.emit("empty expression block has no shape".to_owned());
                Shape::Unknown
            },
        }
    }

    fn shape_common(&mut self, vs: &Vec<Expr>) -> (r: Shape)
        ensures
            r@ == common_res(sh_seq(evs(vs@), old(self).env())).0,
            final(self).msgs() == old(self).msgs() + common_res(sh_seq(evs(vs@), old(self).env())).1,
            final(self).env() == old(self).env(),
            final(self).scopes@ == old(self).scopes@,
        decreases vs, 0int,
    {
        let ghost env = self.env();
        let ghost m0 = self.msgs();
        let ghost s = evs(vs@);
        let mut common: Option<Shape> = None;
        let mut i: usize = 0;
        proof {
            assert(s.take(0) =~= Seq::<ExprV>::empty());
            assert(m0 =~= m0 + none());
        }
        while i < vs.len()
            invariant
                env == self.env(),
                env == old(self).env(),
                self.scopes@ == old(self).scopes@,
                m0 == old(self).msgs(),
                s == evs(vs@),
                i <= vs@.len(),
                self.msgs() == m0 + sh_seq(s.take(i as int), env).1,
                sh_seq(s.take(i as int), env).0.len() == i,
                i == 0 ==> common is None,
                i > 0 ==> (common matches Some(x) && x@ == fold_merge(
                    sh_seq(s.take(i as int), env).0,
                )),
            decreases vs@.len() - i,
        {
            proof {
                assert(decreases_to!(vs@ => vs@[i as int]));
                assert(decreases_to!(*vs => vs@));
                lemma_sh_seq_step(s, i as int, env);
                assert(s[i as int] == ev(vs@[i as int]));
            }
            let x = self.shape_expr(&vs[i]);
            let ghost xs = sh_seq(s.take(i as int), env).0;
            proof {
                if i > 0 {
                    lemma_fold_merge_push(xs, x@);
                } else {
                    assert(xs.push(x@).len() == 1);
                }
            }
            common = match common {
                None => Some(x),
                Some(c) => Some(merge_shapes(&c, &x)),
            };
            proof {
                assert(self.msgs() =~= m0 + sh_seq(s.take(i + 1), env).1);
            }
            i = i + 1;
        }
        proof {
            assert(s.take(i as int) =~= s);
        }
        match common {
            Some(x) => x,
            None => Shape::Unknown,
        }
    }

    fn shape_arms_common(&mut self, arms: &Vec<MatchArm>) -> (r: Shape)
        ensures
            r@ == common_res(sh_arms(mvs(arms@), old(self).env())).0,
            final(self).msgs() == old(self).msgs() + common_res(
                sh_arms(mvs(arms@), old(self).env()),
            ).1,
            final(self).env() == old(self).env(),
            final(self).scopes@ == old(self).scopes@,
        decreases arms, 0int,
    {
        let ghost env = self.env();
        let ghost m0 = self.msgs();
        let ghost s = mvs(arms@);
        let mut common: Option<Shape> = None;
        let mut i: usize = 0;
        proof {
            assert(s.take(0) =~= Seq::<ArmV>::empty());
            assert(m0 =~= m0 + none());
        }
        while i < arms.len()
            invariant
                env == self.env(),
                env == old(self).env(),
                self.scopes@ == old(self).scopes@,
                m0 == old(self).msgs(),
                s == mvs(arms@),
                i <= arms@.len(),
                self.msgs() == m0 + sh_arms(s.take(i as int), env).1,
                sh_arms(s.take(i as int), env).0.len() == i,
                i == 0 ==> common is None,
                i > 0 ==> (common matches Some(x) && x@ == fold_merge(
                    sh_arms(s.take(i as int), env).0,
                )),
            decreases arms@.len() - i,
        {
            proof {
                assert(decreases_to!(arms@[i as int] => arms@[i as int].value));
                assert(decreases_to!(arms@ => arms@[i as int]));
                assert(decreases_to!(*arms => arms@));
                lemma_sh_arms_step(s, i as int, env);
                assert(s[i as int].value == ev(arms@[i as int].value));
            }
            let x = self.shape_expr(&arms[i].value);
            let ghost xs = sh_arms(s.take(i as int), env).0;
            proof {
                if i > 0 {
                    lemma_fold_merge_push(xs, x@);
                } else {
                    assert(xs.push(x@).len() == 1);
                }
            }
            common = match common {
                None => Some(x),
                Some(c) => Some(merge_shapes(&c, &x)),
            };
            proof {
                assert(self.msgs() =~= m0 + sh_arms(s.take(i + 1), env).1);
            }
            i = i + 1;
        }
        proof {
            assert(s.take(i as int) =~= s);
        }
        match common {
            Some(x) => x,
            None => Shape::Unknown,
        }
    }

    fn shape_fields(&mut self, fs: &Vec<RecordField>) -> (r: StrMap<Shape>)
        ensures
            r.model() == sh_fields(fvs(fs@), old(self).env()).0,
            final(self).msgs() == old(self).msgs() + sh_fields(fvs(fs@), old(self).env()).1,
            final(self).env() == old(self).env(),
            final(self).scopes@ == old(self).scopes@,
        decreases fs, 0int,
    {
        let ghost env = self.env();
        let ghost m0 = self.msgs();
        let ghost s = fvs(fs@);
        let mut out: StrMap<Shape> = StrMap::new();
        let mut i: usize = 0;
        proof {
            assert(s.take(0) =~= Seq::<FieldV>::empty());
            assert(m0 =~= m0 + none());
        }
        while i < fs.len()
            invariant
                env == self.env(),
                env == old(self).env(),
                self.scopes@ == old(self).scopes@,
                m0 == old(self).msgs(),
                s == fvs(fs@),
                i <= fs@.len(),
                self.msgs() == m0 + sh_fields(s.take(i as int), env).1,
                out.model() == sh_fields(s.take(i as int), env).0,
            decreases fs@.len() - i,
        {
            proof {
                assert(decreases_to!(fs@[i as int] => fs@[i as int].value));
                assert(decreases_to!(fs@ => fs@[i as int]));
                assert(decreases_to!(*fs => fs@));
                assert(s.take(i + 1).drop_last() =~= s.take(i as int));
                assert(s[i as int].value == ev(fs@[i as int].value));
                assert(s[i as int].name == fs@[i as int].name@);
            }
            let x = self.shape_expr(&fs[i].value);
            out.insert(copy_string(&fs[i].name), x);
            proof {
                assert(self.msgs() =~= m0 + sh_fields(s.take(i + 1), env).1);
            }
            i = i + 1;
        }
        proof {
            assert(s.take(i as int) =~= s);
        }
        out
    }

    fn args_diags(&mut self, args: &Vec<CallArg>)
        ensures
            final(self).msgs() == old(self).msgs() + sh_args_diags(avs(args@), old(self).env()),
            final(self).env() == old(self).env(),
            final(self).scopes@ == old(self).scopes@,
        decreases args, 0int,
    {
        let ghost env = self.env();
        let ghost m0 = self.msgs();
        let ghost s = avs(args@);
        let mut i: usize = 0;
        proof {
            assert(s.take(0) =~= Seq::<ArgV>::empty());
            assert(m0 =~= m0 + none());
        }
        while i < args.len()
            invariant
                env == self.env(),
                env == old(self).env(),
                self.scopes@ == old(self).scopes@,
                m0 == old(self).msgs(),
                s == avs(args@),
                i <= args@.len(),
                self.msgs() == m0 + sh_args_diags(s.take(i as int), env),
            decreases args@.len() - i,
        {
            proof {
                assert(decreases_to!(args@ => args@[i as int]));
                assert(decreases_to!(*args => args@));
                assert(s.take(i + 1).drop_last() =~= s.take(i as int));
            }
            match &args[i] {
                CallArg::Positional(v) => {
                    proof {
                        assert(decreases_to!(args@[i as int] => *v));
                    }
                    let _ = self.shape_expr(v);
                },
                CallArg::Named { value, .. } => {
                    proof {
                        assert(decreases_to!(args@[i as int] => *value));
                    }
                    let _ = self.shape_expr(value);
                },
            }
            proof {
                assert(self.msgs() =~= m0 + sh_args_diags(s.take(i + 1), env));
            }
            i = i + 1;
        }
        proof {
            assert(s.take(i as int) =~= s);
        }
    }

    fn shape_arg(&mut self, args: &Vec<CallArg>, i: usize) -> (r: Shape)
        requires
            i < args@.len(),
        ensures
            r@ == sh_arg(avs(args@), i as int, old(self).env()).0,
            final(self).msgs() == old(self).msgs() + sh_arg(avs(args@), i as int, old(self).env()).1,
            final(self).env() == old(self).env(),
            final(self).scopes@ == old(self).scopes@,
        decreases args, 0int,
    {
        proof {
            assert(decreases_to!(args@ => args@[i as int]));
            assert(decreases_to!(*args => args@));
        }
        match &args[i] {
            CallArg::Positional(v) => {
                proof {
                    assert(decreases_to!(args@[i as int] => *v));
                }
                self.shape_expr(v)
            },
            CallArg::Named { value, .. } => {
                proof {
                    assert(decreases_to!(args@[i as int] => *value));
                }
                self.shape_expr(value)
            },
        }
    }

    fn pipe_shape(&mut self, input: Shape, stage: &Expr) -> (r: Shape)
        ensures
            r@ == pipe_shape(input@, ev(*stage), old(self).env()).0,
            final(self).msgs() == old(self).msgs() + pipe_shape(input@, ev(*stage), old(self).env()).1,
            final(self).env() == old(self).env(),
            final(self).scopes@ == old(self).scopes@,
        decreases stage, 1int,
    {
        match stage {
            Expr::SourceAt { target } => {
                let _ = self.shape_expr(target);
                input
            },
            Expr::Link { target } => {
                if let Some(t) = target {
                    let _ = self.shape_expr(t);
                } else {
                    proof {
                        assert(self.msgs() =~= self.msgs() + none());
                    }
                }
                input
            },
            Expr::Then { body } => self.shape_last(body),
            Expr::Hold { binder, body } => {
                self.push_scope(copy_string(binder), input);
                let r = self.shape_last(body);
                self.pop_scope();
                proof {
                    assert(self.scopes@ =~= old(self).scopes@);
                }
                r
            },
            Expr::Match { arms, .. } => self.shape_arms_common(arms),
            Expr::Call { callee, args } => self.pipe_call_shape(input, callee, args),
            _ => self.shape_expr(stage),
        }
    }

    fn pipe_call_shape(&mut self, input: Shape, c: &String, args: &Vec<CallArg>) -> (r: Shape)
        ensures
            r@ == pipe_call_shape(input@, c@, avs(args@), old(self).env()).0,
            final(self).msgs() == old(self).msgs() + pipe_call_shape(
                input@,
                c@,
                avs(args@),
                old(self).env(),
            ).1,
            final(self).env() == old(self).env(),
            final(self).scopes@ == old(self).scopes@,
        decreases args, 1int,
    {
        let ghost env = self.env();
        let ghost m0 = self.msgs();
        let ghost a = avs(args@);
        proof {
            assert(m0 =~= m0 + none());
        }
        if string_eq_str(c, "Document/new") {
            Shape::Document
        } else if is_text_call_exec(c) {
            Shape::Text
        } else if string_eq_str(c, "Math/sum") || string_eq_str(c, "Temperature/c_to_f") {
            Shape::Number
        } else if string_eq_str(c, "Bool/not") {
            Shape::TagSet(bool_tags_exec())
        } else if string_eq_str(c, "List/append") {
            let ni = named_index_exec(args, "item");
            let i = if ni < args.len() {
                ni
            } else {
                positional_index_exec(args)
            };
            proof {
                assert(i == item_index(a));
            }
            let item = if i < args.len() {
                self.shape_arg(args, i)
            } else {
                self.emit("List/append requires an item argument".to_owned());
                Shape::Unknown
            };
            let ghost m1 = self.msgs();
            match input {
                Shape::List(existing) => {
                    if shape_eq(&existing, &item) {
                        proof {
                            assert(m1 =~= m1 + none());
                        }
                        Shape::List(existing)
                    } else if let Shape::Unknown = *existing {
                        proof {
                            assert(m1 =~= m1 + none());
                        }
                        Shape::List(Box::new(item))
                    } else {
                        let mut m = "cannot append item shape ".to_owned();
                        let d1 = shape_debug_text(&item);
                        push_str(&mut m, d1.as_str());
                        push_str(&mut m, " to list item shape ");
                        let d2 = shape_debug_text(&existing);
                        push_str(&mut m, d2.as_str());
                        self.emit(m);
                        Shape::Unknown
                    }
                },
                _ => {
                    let mut m = "List/append expected List input, got ".to_owned();
                    let d = shape_debug_text(&input);
                    push_str(&mut m, d.as_str());
                    self.emit(m);
                    Shape::Unknown
                },
            }
        } else if string_eq_str(c, "List/map") {
            match input {
                Shape::List(item) => {
                    let binder = list_binder_exec(args);
                    let k = named_index_exec(args, "new");
                    if k < args.len() {
                        let ic = copy_shape(&item);
                        self.push_scope(binder, ic);
                        let r = self.shape_arg(args, k);
                        self.pop_scope();
                        proof {
                            assert(self.scopes@ =~= old(self).scopes@);
                        }
                        Shape::List(Box::new(r))
                    } else {
                        Shape::List(item)
                    }
                },
                _ => {
                    let mut m = "List/map expected List input, got ".to_owned();
                    let d = shape_debug_text(&input);
                    push_str(&mut m, d.as_str());
                    self.emit(m);
                    Shape::Unknown
                },
            }
        } else if string_eq_str(c, "List/retain") || string_eq_str(c, "List/remove") {
            match input {
                Shape::List(item) => {
                    let binder = list_binder_exec(args);
                    let ghost env2 = with_binding(env, binder@, item@);
                    let k1 = named_index_exec(args, "if");
                    if k1 < args.len() {
                        let ic = copy_shape(&item);
                        self.push_scope(copy_string(&binder), ic);
                        let _ = self.shape_arg(args, k1);
                        self.pop_scope();
                        proof {
                            assert(self.scopes@ =~= old(self).scopes@);
                        }
                    }
                    let ghost m1 = self.msgs();
                    let k2 = named_index_exec(args, "on");
                    if k2 < args.len() {
                        let ic = copy_shape(&item);
                        self.push_scope(copy_string(&binder), ic);
                        let _ = self.shape_arg(args, k2);
                        self.pop_scope();
                        proof {
                            assert(self.scopes@ =~= old(self).scopes@);
                        }
                    }
                    proof {
                        let d1 = if 0 <= k1 < a.len() {
                            sh_arg(a, k1 as int, env2).1
                        } else {
                            none()
                        };
                        let d2 = if 0 <= k2 < a.len() {
                            sh_arg(a, k2 as int, env2).1
                        } else {
                            none()
                        };
                        assert(m1 =~= m0 + d1);
                        assert(self.msgs() =~= m0 + (d1 + d2));
                    }
                    Shape::List(item)
                },
                _ => {
                    let mut m = copy_string(c);
                    push_str(&mut m, " expected List input, got ");
                    let d = shape_debug_text(&input);
                    push_str(&mut m, d.as_str());
                    self.emit(m);
                    Shape::Unknown
                },
            }
        } else if string_eq_str(c, "List/count") {
            if let Shape::List(item) = &input {
                let k = named_index_exec(args, "if");
                if k < args.len() {
                    let binder = list_binder_exec(args);
                    let ic = copy_shape(item);
                    self.push_scope(binder, ic);
                    let _ = self.shape_arg(args, k);
                    self.pop_scope();
                    proof {
                        assert(self.scopes@ =~= old(self).scopes@);
                    }
                }
            }
            Shape::Number
        } else {
            self.args_diags(args);
            let r = self.call_result_exec(c);
            proof {
                assert(self.msgs() =~= m0 + (sh_args_diags(a, env) + call_result(c@).1));
            }
            r
        }
    }
}

// ---------------------------------------------------------------------------
// A whole module
// ---------------------------------------------------------------------------

/// The paths of a module's sources.
pub open spec fn src_paths(m: HirModule) -> Seq<Seq<char>> {
    m.sources@.map_values(|x: HirSource| x.path@)
}

/// The definition shapes and the diagnostics after the first `k`
/// definitions; each is shaped with the shapes of those before it in view.
pub open spec fn check_upto(defs: Seq<DefV>, srcs: Seq<Seq<char>>, k: int) -> (
    Seq<(Seq<char>, ShapeV)>,
    Seq<Seq<char>>,
)
    decreases k,
{
    if k <= 0 {
        (Seq::empty(), none())
    } else {
        let p = check_upto(defs, srcs, k - 1);
        let d = defs[k - 1];
        let r = sh(d.expr, Env { defs: p.0, srcs, scopes: Seq::empty() });
        (ins(p.0, d.name, r.0), p.1 + r.1)
    }
}

/// Every source path, marked as a source.
pub open spec fn source_markers(srcs: Seq<Seq<char>>) -> Seq<(Seq<char>, ShapeV)>
    decreases srcs.len(),
{
    if srcs.len() == 0 {
        Seq::empty()
    } else {
        ins(source_markers(srcs.drop_last()), srcs[srcs.len() - 1], ShapeV::SourceMarker)
    }
}

/// Assigns a shape to each definition of a module, in order, and marks each
/// of its sources.
pub fn check_module(module: &HirModule) -> (r: ShapeReport)
    ensures
        r.definitions.model() == check_upto(
            hdefvs(module.definitions@),
            src_paths(*module),
            module.definitions@.len() as int,
        ).0,
        msgs_of(r.diagnostics@) == check_upto(
            hdefvs(module.definitions@),
            src_paths(*module),
            module.definitions@.len() as int,
        ).1,
        r.sources.model() == source_markers(src_paths(*module)),
{
    let ghost sp = src_paths(*module);
    let ghost dv = hdefvs(module.definitions@);
    let mut paths: Vec<String> = Vec::new();
    let mut j: usize = 0;
    while j < module.sources.len()
        invariant
            sp == src_paths(*module),
            j <= module.sources@.len(),
            svs(paths@) == sp.take(j as int),
        decreases module.sources@.len() - j,
    {
        let x = copy_string(&module.sources[j].path);
        proof {
            assert(svs(paths@.push(x)) =~= svs(paths@).push(x@));
        }
        paths.push(x);
        j = j + 1;
        proof {
            assert(sp.take(j as int) =~= sp.take(j - 1).push(module.sources@[j - 1].path@));
        }
    }
    proof {
        assert(sp.take(j as int) =~= sp);
    }
    let mut ctx = ShapeContext {
        definitions: StrMap::new(),
        source_paths: paths,
        scopes: Vec::new(),
        diagnostics: Vec::new(),
    };
    proof {
        assert(msgs_of(ctx.diagnostics@) =~= none());
    }
    let mut k: usize = 0;
    while k < module.definitions.len()
        invariant
            sp == src_paths(*module),
            dv == hdefvs(module.definitions@),
            k <= module.definitions@.len(),
            svs(ctx.source_paths@) == sp,
            ctx.scopes@ == Seq::<(String, Shape)>::empty(),
            ctx.definitions.model() == check_upto(dv, sp, k as int).0,
            ctx.msgs() == check_upto(dv, sp, k as int).1,
        decreases module.definitions@.len() - k,
    {
        let d = &module.definitions[k];
        proof {
            assert(entries_view(ctx.scopes@) =~= Seq::<(Seq<char>, ShapeV)>::empty());
            assert(dv[k as int].expr == ev(d.expression));
            assert(dv[k as int].name == d.name@);
        }
        let shape = ctx.shape_expr(&d.expression);
        ctx.definitions.insert(copy_string(&d.name), shape);
        k = k + 1;
    }
    let mut sources: StrMap<Shape> = StrMap::new();
    let mut t: usize = 0;
    proof {
        assert(sp.take(0) =~= Seq::<Seq<char>>::empty());
    }
    while t < module.sources.len()
        invariant
            sp == src_paths(*module),
            t <= module.sources@.len(),
            sources.model() == source_markers(sp.take(t as int)),
        decreases module.sources@.len() - t,
    {
        sources.insert(copy_string(&module.sources[t].path), Shape::SourceMarker);
        t = t + 1;
        proof {
            assert(sp.take(t as int).drop_last() =~= sp.take(t - 1));
        }
    }
    proof {
        assert(sp.take(t as int) =~= sp);
    }
    ShapeReport { definitions: ctx.definitions, sources, diagnostics: ctx.diagnostics }
}

// ---------------------------------------------------------------------------
// Laws
// ---------------------------------------------------------------------------

/// Every source of a module is reported with the source shape.
pub proof fn lemma_sources_marked(srcs: Seq<Seq<char>>, x: Seq<char>)
    requires
        srcs.contains(x),
    ensures
        lookup(source_markers(srcs), x) == Some(ShapeV::SourceMarker),
    decreases srcs.len(),
{
    let last = srcs[srcs.len() - 1];
    lemma_lookup_ins(source_markers(srcs.drop_last()), last, ShapeV::SourceMarker, x);
    if x != last {
        let i = choose|i: int| 0 <= i < srcs.len() && srcs[i] == x;
        assert(srcs.drop_last()[i] == x);
        lemma_sources_marked(srcs.drop_last(), x);
    }
}

/// Merged tag sets are sorted with each tag once, and hold exactly the tags
/// of both sides.
pub proof fn lemma_tag_union(s: Seq<Seq<char>>)
    ensures
        forall|i: int, j: int|
            0 <= i < j < tag_union(s).len() ==> key_lt(
                #[trigger] tag_union(s)[i],
                #[trigger] tag_union(s)[j],
            ),
        forall|x: Seq<char>| #[trigger] tag_union(s).contains(x) <==> s.contains(x),
{
    lemma_tag_fold(s);
    let f = tag_fold(s);
    let u = tag_union(s);
    assert forall|i: int, j: int| 0 <= i < j < u.len() implies key_lt(
        #[trigger] u[i],
        #[trigger] u[j],
    ) by {
        assert(u[i] == f[i].0 && u[j] == f[j].0);
    }
    assert forall|x: Seq<char>| #[trigger] u.contains(x) <==> s.contains(x) by {
        if u.contains(x) {
            let i = choose|i: int| 0 <= i < u.len() && u[i] == x;
            assert(f[i].0 == x);
        }
        if has_key(f, x) {
            let i = choose|i: int| 0 <= i < f.len() && #[trigger] f[i].0 == x;
            assert(u[i] == x);
        }
    }
}

proof fn lemma_tag_fold(s: Seq<Seq<char>>)
    ensures
        sorted_keys(tag_fold(s)),
        forall|x: Seq<char>| #[trigger] has_key(tag_fold(s), x) <==> s.contains(x),
    decreases s.len(),
{
    if s.len() > 0 {
        let p = s.drop_last();
        let last = s[s.len() - 1];
        lemma_tag_fold(p);
        lemma_ins_sorted(tag_fold(p), last, true);
        assert forall|x: Seq<char>| #[trigger] has_key(tag_fold(s), x) <==> s.contains(x) by {
            lemma_ins_keys(tag_fold(p), last, true, x);
            if p.contains(x) {
                let i = choose|i: int| 0 <= i < p.len() && p[i] == x;
                assert(s[i] == x);
            }
            if s.contains(x) && x != last {
                let i = choose|i: int| 0 <= i < s.len() && s[i] == x;
                assert(p[i] == x);
            }
            if x == last {
                assert(s[s.len() - 1] == x);
            }
        }
    }
}

/// `Skip` gives way to the other side of a merge, on either side.
pub proof fn lemma_merge_skip(s: ShapeV)
    ensures
        merge(ShapeV::Skip, s) == s,
        merge(s, ShapeV::Skip) == s,
{
}

/// An unknown side gives way to the other, unless that one is `Skip`.
pub proof fn lemma_merge_unknown(s: ShapeV)
    requires
        !(s is Skip),
    ensures
        merge(ShapeV::Unknown, s) == s,
        merge(s, ShapeV::Unknown) == s,
{
}

/// A shape whose records keep their field names strictly increasing, all
/// the way down, as the library's maps do.
pub open spec fn shape_wf(s: ShapeV) -> bool
    decreases s, 1nat,
{
    match s {
        ShapeV::Record(es) => sorted_keys(es) && fields_wf(es),
        ShapeV::List(b) => shape_wf(*b),
        _ => true,
    }
}

/// Every field's shape is well formed.
pub open spec fn fields_wf(es: Seq<(Seq<char>, ShapeV)>) -> bool
    decreases es, 0nat,
{
    if es.len() == 0 {
        true
    } else {
        fields_wf(es.drop_last()) && shape_wf(es.last().1)
    }
}

proof fn lemma_fields_wf(es: Seq<(Seq<char>, ShapeV)>, i: int)
    requires
        fields_wf(es),
        0 <= i < es.len(),
    ensures
        shape_wf(es[i].1),
    decreases es.len(),
{
    if i < es.len() - 1 {
        assert(es.drop_last()[i] == es[i]);
        lemma_fields_wf(es.drop_last(), i);
    }
}

/// Two strictly increasing sequences with the same elements are equal.
proof fn lemma_sorted_same(u: Seq<Seq<char>>, v: Seq<Seq<char>>)
    requires
        forall|i: int, j: int| 0 <= i < j < u.len() ==> key_lt(#[trigger] u[i], #[trigger] u[j]),
        forall|i: int, j: int| 0 <= i < j < v.len() ==> key_lt(#[trigger] v[i], #[trigger] v[j]),
        forall|x: Seq<char>| #[trigger] u.contains(x) <==> v.contains(x),
    ensures
        u == v,
    decreases u.len(),
{
    if u.len() == 0 {
        if v.len() > 0 {
            assert(v.contains(v[0]));
            assert(!u.contains(v[0]));
        }
        assert(u =~= v);
    } else {
        assert(u.contains(u[0]));
        assert(v.contains(u[0]));
        assert(v.len() > 0);
        assert(v.contains(v[0]));
        assert(u.contains(v[0]));
        let j = choose|j: int| 0 <= j < v.len() && v[j] == u[0];
        let k = choose|k: int| 0 <= k < u.len() && u[k] == v[0];
        if u[0] != v[0] {
            assert(j > 0 && k > 0);
            assert(key_lt(v[0], v[j]));
            assert(key_lt(u[0], u[k]));
            lemma_key_lt_asym(u[0], v[0]);
        }
        let u2 = u.drop_first();
        let v2 = v.drop_first();
        assert forall|x: Seq<char>| #[trigger] u2.contains(x) <==> v2.contains(x) by {
            if u2.contains(x) {
                let a = choose|a: int| 0 <= a < u2.len() && u2[a] == x;
                assert(key_lt(u[0], u[a + 1]));
                lemma_key_lt_irrefl(x);
                assert(u.contains(x));
                let b = choose|b: int| 0 <= b < v.len() && v[b] == x;
                assert(b != 0);
                assert(v2[b - 1] == x);
            }
            if v2.contains(x) {
                let a = choose|a: int| 0 <= a < v2.len() && v2[a] == x;
                assert(key_lt(v[0], v[a + 1]));
                lemma_key_lt_irrefl(x);
                assert(v.contains(x));
                assert(u.contains(x));
                let b = choose|b: int| 0 <= b < u.len() && u[b] == x;
                assert(b != 0);
                assert(u2[b - 1] == x);
            }
        }
        assert forall|i: int, j: int| 0 <= i < j < u2.len() implies key_lt(#[trigger] u2[i], #[trigger] u2[j]) by {
            assert(u2[i] == u[i + 1] && u2[j] == u[j + 1]);
        }
        assert forall|i: int, j: int| 0 <= i < j < v2.len() implies key_lt(#[trigger] v2[i], #[trigger] v2[j]) by {
            assert(v2[i] == v[i + 1] && v2[j] == v[j + 1]);
        }
        lemma_sorted_same(u2, v2);
        assert(u =~= seq![u[0]] + u2);
        assert(v =~= seq![v[0]] + v2);
    }
}

/// In a map with strictly increasing keys, each key finds its own entry.
proof fn lemma_lookup_at(s: Seq<(Seq<char>, ShapeV)>, i: int)
    requires
        sorted_keys(s),
        0 <= i < s.len(),
    ensures
        lookup(s, s[i].0) == Some(s[i].1),
    decreases i,
{
    if i > 0 {
        let t = s.drop_first();
        assert(key_lt(s[0].0, s[i].0));
        lemma_key_lt_irrefl(s[i].0);
        lemma_key_lt_asym(s[0].0, s[i].0);
        assert(sorted_keys(t)) by {
            assert forall|a: int, b: int| 0 <= a < b < t.len() implies key_lt(#[trigger] t[a].0, #[trigger] t[b].0) by {
                assert(t[a] == s[a + 1] && t[b] == s[b + 1]);
            }
        }
        assert(t[i - 1] == s[i]);
        lemma_lookup_at(t, i - 1);
    }
}

proof fn lemma_merge_fields_comm(a: Seq<(Seq<char>, ShapeV)>, b: Seq<(Seq<char>, ShapeV)>, n: int)
    requires
        keys_of(a) == keys_of(b),
        sorted_keys(a),
        sorted_keys(b),
        forall|i: int| 0 <= i < a.len() ==> merge(#[trigger] a[i].1, b[i].1) == merge(b[i].1, a[i].1),
        0 <= n <= a.len(),
    ensures
        merge_fields(a.take(n), b) == merge_fields(b.take(n), a),
    decreases n,
{
    assert(a.len() == keys_of(a).len() && b.len() == keys_of(b).len());
    if n == 0 {
        assert(a.take(0) =~= Seq::<(Seq<char>, ShapeV)>::empty());
        assert(b.take(0) =~= Seq::<(Seq<char>, ShapeV)>::empty());
    } else {
        lemma_merge_fields_comm(a, b, n - 1);
        assert(a.take(n).drop_last() =~= a.take(n - 1));
        assert(b.take(n).drop_last() =~= b.take(n - 1));
        assert(keys_of(a)[n - 1] == a[n - 1].0 && keys_of(b)[n - 1] == b[n - 1].0);
        lemma_lookup_at(a, n - 1);
        lemma_lookup_at(b, n - 1);
        assert(a.take(n)[n - 1] == a[n - 1]);
        assert(b.take(n)[n - 1] == b[n - 1]);
    }
}

/// Merging is symmetric: the shape that covers two alternatives does not
/// depend on their order.
pub proof fn lemma_merge_comm(l: ShapeV, r: ShapeV)
    requires
        shape_wf(l),
        shape_wf(r),
    ensures
        merge(l, r) == merge(r, l),
    decreases l,
{
    if l is Skip || r is Skip || l is Unknown || r is Unknown {
    } else {
        match l {
            ShapeV::TagSet(a) => match r {
                ShapeV::TagSet(b) => {
                    lemma_tag_union(a + b);
                    lemma_tag_union(b + a);
                    assert forall|x: Seq<char>| (a + b).contains(x) <==> #[trigger] (b + a).contains(x) by {
                        if (a + b).contains(x) {
                            let i = choose|i: int| 0 <= i < (a + b).len() && (a + b)[i] == x;
                            if i < a.len() {
                                assert((b + a)[b.len() + i] == x);
                            } else {
                                assert((b + a)[i - a.len()] == x);
                            }
                        }
                        if (b + a).contains(x) {
                            let i = choose|i: int| 0 <= i < (b + a).len() && (b + a)[i] == x;
                            if i < b.len() {
                                assert((a + b)[a.len() + i] == x);
                            } else {
                                assert((a + b)[i - b.len()] == x);
                            }
                        }
                    }
                    lemma_sorted_same(tag_union(a + b), tag_union(b + a));
                },
                _ => {},
            },
            ShapeV::Record(a) => match r {
                ShapeV::Record(b) => {
                    if keys_of(a) == keys_of(b) {
                        assert(a.len() == keys_of(a).len() && b.len() == keys_of(b).len());
                        assert(sorted_keys(a) && fields_wf(a) && sorted_keys(b) && fields_wf(b));
                        assert forall|i: int| 0 <= i < a.len() implies merge(#[trigger] a[i].1, b[i].1)
                            == merge(b[i].1, a[i].1) by {
                            assert(decreases_to!(l => a));
                            assert(decreases_to!(a => a[i]));
                            assert(decreases_to!(a[i] => a[i].1));
                            lemma_fields_wf(a, i);
                            lemma_fields_wf(b, i);
                            lemma_merge_comm(a[i].1, b[i].1);
                        }
                        lemma_merge_fields_comm(a, b, a.len() as int);
                        assert(a.take(a.len() as int) =~= a);
                        assert(b.take(b.len() as int) =~= b);
                    }
                },
                _ => {},
            },
            ShapeV::List(a) => match r {
                ShapeV::List(b) => {
                    lemma_merge_comm(*a, *b);
                },
                _ => {},
            },
            _ => {},
        }
    }
}


/// The laws of `merge_shapes`, over shapes whose records keep their keys in
/// order: merging is symmetric, `Skip` is its identity, `Unknown` gives way
/// to anything but `Skip`, and two tag sets merge into their union, sorted
/// with each tag once.
pub proof fn lemma_merge_shapes_laws(a: Shape, b: Shape, x: Seq<Seq<char>>, y: Seq<Seq<char>>)
    requires
        shape_wf(a@),
        shape_wf(b@),
    ensures
        merge(a@, b@) == merge(b@, a@),
        merge(ShapeV::Skip, a@) == a@,
        !(a is Skip) ==> merge(ShapeV::Unknown, a@) == a@,
        merge(ShapeV::TagSet(x), ShapeV::TagSet(y)) == ShapeV::TagSet(tag_union(x + y)),
        forall|i: int, j: int|
            0 <= i < j < tag_union(x + y).len() ==> key_lt(
                #[trigger] tag_union(x + y)[i],
                #[trigger] tag_union(x + y)[j],
            ),
        forall|t: Seq<char>| #[trigger] tag_union(x + y).contains(t) <==> x.contains(t) || y.contains(t),
{
    lemma_merge_comm(a@, b@);
    lemma_merge_skip(a@);
    if !(a is Skip) {
        lemma_merge_unknown(a@);
    }
    lemma_tag_union(x + y);
    assert forall|t: Seq<char>| (x + y).contains(t) <==> x.contains(t) || y.contains(t) by {
        if (x + y).contains(t) {
            let i = choose|i: int| 0 <= i < (x + y).len() && (x + y)[i] == t;
            if i >= x.len() {
                assert(y[i - x.len()] == t);
            }
        }
        if x.contains(t) {
            let i = choose|i: int| 0 <= i < x.len() && x[i] == t;
            assert((x + y)[i] == t);
        }
        if y.contains(t) {
            let i = choose|i: int| 0 <= i < y.len() && y[i] == t;
            assert((x + y)[x.len() + i] == t);
        }
    }
}


/// The shape of a call, by the callee's name: a library call adds no
/// diagnostic of its own to those of its arguments, and its shape is the
/// library function's (a document, an element, a scene, a text, a number,
/// a source, a boolean tag set, an unknown list shape, or a record); a call
/// to any other function has an unknown shape and reports it by name.
pub proof fn lemma_call_shapes(c: Seq<char>, args: Seq<ArgV>, env: Env)
    ensures
        (c == "Document/new"@) ==> sh(ExprV::Call(c, args), env) == (ShapeV::Document, sh_args_diags(args, env)),
        (c == "Element/button"@) ==> sh(ExprV::Call(c, args), env) == (ShapeV::Element, sh_args_diags(args, env)),
        (c == "Scene/new"@) ==> sh(ExprV::Call(c, args), env) == (ShapeV::Scene, sh_args_diags(args, env)),
        (c == "Text/from_number"@ || c == "Text/join"@ || c == "Text/append"@ || c == "Text/uppercase"@) ==> sh(ExprV::Call(c, args), env) == (ShapeV::Text, sh_args_diags(args, env)),
        (c == "Math/sum"@ || c == "List/count"@ || c == "Temperature/c_to_f"@ || c == "Number/abs"@ || c == "Number/neg_abs"@ || c == "Number/max"@ || c == "Number/clamp"@ || c == "Number/percent_of_range"@ || c == "Number/scale_percent"@) ==> sh(ExprV::Call(c, args), env) == (ShapeV::Number, sh_args_diags(args, env)),
        (c == "Timer/interval"@ || c == "Window/animation_frame"@) ==> sh(ExprV::Call(c, args), env) == (ShapeV::SourceMarker, sh_args_diags(args, env)),
        (c == "Bool/not"@ || c == "Number/less_than"@ || c == "Number/greater_than"@ || c == "Geometry/intersects"@) ==> sh(ExprV::Call(c, args), env) == (ShapeV::TagSet(seq!["True"@, "False"@]), sh_args_diags(args, env)),
        (c == "List/append"@ || c == "List/remove"@ || c == "List/map"@ || c == "List/retain"@) ==> sh(ExprV::Call(c, args), env) == (ShapeV::Unknown, sh_args_diags(args, env)),
        (c == "Pong/initial"@ || c == "Pong/step"@) ==> sh(ExprV::Call(c, args), env) == (ShapeV::Record(Seq::empty()), sh_args_diags(args, env)),
        !(c == "Document/new"@ || c == "Element/button"@ || c == "Scene/new"@ || c == "Text/from_number"@ || c == "Text/join"@ || c == "Text/append"@ || c == "Text/uppercase"@ || c == "Math/sum"@ || c == "List/count"@ || c == "Temperature/c_to_f"@ || c == "Number/abs"@ || c == "Number/neg_abs"@ || c == "Number/max"@ || c == "Number/clamp"@ || c == "Number/percent_of_range"@ || c == "Number/scale_percent"@ || c == "Timer/interval"@ || c == "Window/animation_frame"@ || c == "Bool/not"@ || c == "Number/less_than"@ || c == "Number/greater_than"@ || c == "Geometry/intersects"@ || c == "List/append"@ || c == "List/remove"@ || c == "List/map"@ || c == "List/retain"@ || c == "Pong/initial"@ || c == "Pong/step"@) ==> sh(ExprV::Call(c, args), env) == (ShapeV::Unknown, sh_args_diags(args, env) + seq!["unknown call `"@ + c + "`"@]),
{
    reveal_strlit("Document/new");
    reveal_strlit("Element/button");
    reveal_strlit("Scene/new");
    reveal_strlit("Text/from_number");
    reveal_strlit("Text/join");
    reveal_strlit("Text/append");
    reveal_strlit("Text/uppercase");
    reveal_strlit("Math/sum");
    reveal_strlit("List/count");
    reveal_strlit("Temperature/c_to_f");
    reveal_strlit("Number/abs");
    reveal_strlit("Number/neg_abs");
    reveal_strlit("Number/max");
    reveal_strlit("Number/clamp");
    reveal_strlit("Number/percent_of_range");
    reveal_strlit("Number/scale_percent");
    reveal_strlit("Timer/interval");
    reveal_strlit("Window/animation_frame");
    reveal_strlit("Bool/not");
    reveal_strlit("Number/less_than");
    reveal_strlit("Number/greater_than");
    reveal_strlit("Geometry/intersects");
    reveal_strlit("List/append");
    reveal_strlit("List/remove");
    reveal_strlit("List/map");
    reveal_strlit("List/retain");
    reveal_strlit("Pong/initial");
    reveal_strlit("Pong/step");
    reveal_strlit("True");
    reveal_strlit("False");
    assert("Document/new"@.len() == 12);
    assert("Element/button"@.len() == 14);
    assert("Scene/new"@.len() == 9);
    assert("Text/from_number"@.len() == 16);
    assert("Text/join"@.len() == 9);
    assert("Text/append"@.len() == 11);
    assert("Text/uppercase"@.len() == 14);
    assert("Math/sum"@.len() == 8);
    assert("List/count"@.len() == 10);
    assert("Temperature/c_to_f"@.len() == 18);
    assert("Number/abs"@.len() == 10);
    assert("Number/neg_abs"@.len() == 14);
    assert("Number/max"@.len() == 10);
    assert("Number/clamp"@.len() == 12);
    assert("Number/percent_of_range"@.len() == 23);
    assert("Number/scale_percent"@.len() == 20);
    assert("Timer/interval"@.len() == 14);
    assert("Window/animation_frame"@.len() == 22);
    assert("Bool/not"@.len() == 8);
    assert("Number/less_than"@.len() == 16);
    assert("Number/greater_than"@.len() == 19);
    assert("Geometry/intersects"@.len() == 19);
    assert("List/append"@.len() == 11);
    assert("List/remove"@.len() == 11);
    assert("List/map"@.len() == 8);
    assert("List/retain"@.len() == 11);
    assert("Pong/initial"@.len() == 12);
    assert("Pong/step"@.len() == 9);
    assert("Document/new"@[0] == 'D');
    assert("Number/clamp"@[0] == 'N');
    assert("Pong/initial"@[0] == 'P');
    assert("Element/button"@[0] == 'E');
    assert("Text/uppercase"@[0] == 'T');
    assert("Number/neg_abs"@[0] == 'N');
    assert("Timer/interval"@[0] == 'T');
    assert("Scene/new"@[0] == 'S');
    assert("Text/join"@[0] == 'T');
    assert("Text/uppercase"@[1] == 'e');
    assert("Timer/interval"@[1] == 'i');
    assert("List/count"@[0] == 'L');
    assert("Number/abs"@[0] == 'N');
    assert("Number/max"@[0] == 'N');
    assert("Number/abs"@[7] == 'a');
    assert("Number/max"@[7] == 'm');
    assert("Bool/not"@[0] == 'B');
    assert("Math/sum"@[0] == 'M');
    assert("List/map"@[0] == 'L');
    assert("Number/less_than"@[0] == 'N');
    assert("Text/from_number"@[0] == 'T');
    assert("Geometry/intersects"@[0] == 'G');
    assert("Number/greater_than"@[0] == 'N');
    assert("List/append"@[0] == 'L');
    assert("Text/append"@[0] == 'T');
    assert("List/append"@[5] == 'a');
    assert("List/remove"@[5] == 'r');
    assert("List/retain"@[5] == 'r');
    assert("List/remove"@[0] == 'L');
    assert("List/remove"@[7] == 'm');
    assert("List/retain"@[7] == 't');
    assert("List/retain"@[0] == 'L');
    assert("Pong/step"@[0] == 'P');
}

} // verus!
