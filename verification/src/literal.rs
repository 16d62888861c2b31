//! Constant values that a render graph folds to, and how they read as text,
//! number and flag.
use vstd::prelude::*;
use crate::compiler::{parse_i64, parse_i64_text};
use crate::strmap::{lookup, StrMap};
use crate::text::{copy_string, decimal, push_char, push_str, string_eq_str};

verus! {

/// A folded constant. A record's fields are kept by name, in name order.
#[derive(Debug, PartialEq, Eq)]
pub enum Literal {
    Empty,
    Text(String),
    Number(i64),
    Flag(bool),
    Tag(String),
    Items(Vec<Literal>),
    Fields(StrMap<Literal>),
}

/// The mathematical value of a constant.
pub enum LitV {
    Empty,
    Text(Seq<char>),
    Number(i64),
    Flag(bool),
    Tag(Seq<char>),
    Items(Seq<LitV>),
    Fields(Seq<(Seq<char>, LitV)>),
}

pub open spec fn lv(l: Literal) -> LitV
    decreases l,
{
    match l {
        Literal::Empty => LitV::Empty,
        Literal::Text(t) => LitV::Text(t@),
        Literal::Number(n) => LitV::Number(n),
        Literal::Flag(b) => LitV::Flag(b),
        Literal::Tag(t) => LitV::Tag(t@),
        Literal::Items(v) => LitV::Items(lv_items(v@)),
        Literal::Fields(m) => LitV::Fields(lv_entries(m.entries@)),
    }
}

pub open spec fn lv_items(v: Seq<Literal>) -> Seq<LitV>
    decreases v,
{
    Seq::new(v.len(), |i: int| if 0 <= i < v.len() { lv(v[i]) } else { LitV::Empty })
}

pub open spec fn lv_entries(es: Seq<(String, Literal)>) -> Seq<(Seq<char>, LitV)>
    decreases es,
{
    Seq::new(
        es.len(),
        |i: int|
            if 0 <= i < es.len() {
                (es[i].0@, lv(es[i].1))
            } else {
                (Seq::empty(), LitV::Empty)
            },
    )
}

impl View for Literal {
    type V = LitV;

    open spec fn view(&self) -> LitV {
        lv(*self)
    }
}

/// The value of an optional constant.
pub open spec fn opt_lv(o: Option<Literal>) -> Option<LitV> {
    match o {
        Some(l) => Some(l@),
        None => None,
    }
}

pub proof fn lemma_fields_model(m: StrMap<Literal>)
    ensures
        m.model() == lv_entries(m.entries@),
{
    assert(m.model() =~= lv_entries(m.entries@));
}

/// The decimal text of an `i64`, with a leading `-` when negative.
pub open spec fn i64_decimal(n: i64) -> Seq<char> {
    if n < 0 {
        seq!['-'] + decimal((-(n as int)) as nat)
    } else {
        decimal(n as nat)
    }
}

/// `u64::to_string`.
pub fn u64_text(n: u64) -> (s: String)
    ensures
        s@ == decimal(n as nat),
    decreases n,
{
    if n < 10 {
        let mut s = String::new();
        push_char(&mut s, (48u8 + (n as u8)) as char);
        assert(s@ =~= decimal(n as nat));
        s
    } else {
        let mut s = u64_text(n / 10);
        push_char(&mut s, (48u8 + ((n % 10) as u8)) as char);
        s
    }
}

/// `i64::to_string`.
pub fn i64_text(n: i64) -> (s: String)
    ensures
        s@ == i64_decimal(n),
{
    if n < 0 {
        let magnitude: u64 = if n == i64::MIN {
            0x8000_0000_0000_0000u64
        } else {
            (-n) as u64
        };
        let digits = u64_text(magnitude);
        let mut s = String::new();
        push_char(&mut s, '-');
        push_str(&mut s, digits.as_str());
        assert(s@ =~= i64_decimal(n));
        s
    } else {
        u64_text(n as u64)
    }
}

/// The text of a constant: numbers in decimal, flags as `True` or `False`,
/// lists as their items' texts joined by commas; a record reads as nothing.
pub open spec fn lit_text(l: LitV) -> Seq<char>
    decreases l,
{
    match l {
        LitV::Empty => Seq::empty(),
        LitV::Text(t) => t,
        LitV::Tag(t) => t,
        LitV::Number(n) => i64_decimal(n),
        LitV::Flag(b) => if b {
            "True"@
        } else {
            "False"@
        },
        LitV::Items(vs) => join_texts(vs, ","@),
        LitV::Fields(_) => Seq::empty(),
    }
}

/// The texts of the items, separated by `sep`.
pub open spec fn join_texts(vs: Seq<LitV>, sep: Seq<char>) -> Seq<char>
    decreases vs,
{
    if vs.len() == 0 {
        Seq::empty()
    } else if vs.len() == 1 {
        lit_text(vs[0])
    } else {
        join_texts(vs.drop_last(), sep) + sep + lit_text(vs[vs.len() - 1])
    }
}

/// A count as an `i64`, capped at `i64::MAX`.
pub open spec fn count_i64(n: nat) -> i64 {
    if n <= i64::MAX {
        n as i64
    } else {
        i64::MAX
    }
}

/// The number of a constant: texts parsed as decimal (0 when they are not a
/// number), flags as 0 or 1, lists and records by their size.
pub open spec fn lit_number(l: LitV) -> i64 {
    match l {
        LitV::Number(n) => n,
        LitV::Text(t) => match parse_i64(t) {
            Some(n) => n,
            None => 0,
        },
        LitV::Tag(t) => match parse_i64(t) {
            Some(n) => n,
            None => 0,
        },
        LitV::Flag(b) => if b {
            1
        } else {
            0
        },
        LitV::Items(vs) => count_i64(vs.len()),
        LitV::Fields(fs) => count_i64(fs.len()),
        LitV::Empty => 0,
    }
}

/// Whether a constant counts as true.
pub open spec fn lit_flag(l: LitV) -> bool {
    match l {
        LitV::Flag(b) => b,
        LitV::Tag(t) => t == "True"@ || t == "true"@ || t == "Some"@,
        LitV::Text(t) => t.len() > 0 && t != "False"@ && t != "false"@,
        LitV::Number(n) => n != 0,
        LitV::Items(vs) => vs.len() > 0,
        LitV::Fields(fs) => fs.len() > 0,
        LitV::Empty => false,
    }
}

/// The field `name` of a record constant.
pub open spec fn lit_member(l: LitV, name: Seq<char>) -> Option<LitV> {
    match l {
        LitV::Fields(fs) => lookup(fs, name),
        _ => None,
    }
}

/// A copy of a constant.
pub fn copy_literal(l: &Literal) -> (r: Literal)
    ensures
        r@ == l@,
    decreases l,
{
    match l {
        Literal::Empty => Literal::Empty,
        Literal::Text(t) => Literal::Text(copy_string(t)),
        Literal::Number(n) => Literal::Number(*n),
        Literal::Flag(b) => Literal::Flag(*b),
        Literal::Tag(t) => Literal::Tag(copy_string(t)),
        Literal::Items(v) => {
            let mut items: Vec<Literal> = Vec::new();
            let mut i: usize = 0;
            while i < v.len()
                invariant
                    i <= v@.len(),
                    lv_items(items@) == lv_items(v@).take(i as int),
                    decreases_to!(*l => *v),
                decreases v@.len() - i,
            {
                proof {
                    assert(decreases_to!(*v => v@));
                    assert(decreases_to!(v@ => v@[i as int]));
                }
                let e = copy_literal(&v[i]);
                proof {
                    assert(lv_items(items@.push(e)) =~= lv_items(items@).push(lv(e)));
                }
                items.push(e);
                i = i + 1;
                proof {
                    assert(lv_items(v@).take(i as int) =~= lv_items(v@).take(i - 1).push(
                        lv(v@[i - 1]),
                    ));
                }
            }
            proof {
                assert(lv_items(v@).take(i as int) =~= lv_items(v@));
            }
            Literal::Items(items)
        },
        Literal::Fields(m) => {
            let mut entries: Vec<(String, Literal)> = Vec::new();
            let mut i: usize = 0;
            while i < m.entries.len()
                invariant
                    i <= m.entries@.len(),
                    lv_entries(entries@) == lv_entries(m.entries@).take(i as int),
                    decreases_to!(*l => m.entries),
                decreases m.entries@.len() - i,
            {
                proof {
                    assert(decreases_to!(m.entries => m.entries@));
                    assert(decreases_to!(m.entries@ => m.entries@[i as int]));
                    assert(decreases_to!(m.entries@[i as int] => m.entries@[i as int].1));
                }
                let e = (copy_string(&m.entries[i].0), copy_literal(&m.entries[i].1));
                proof {
                    assert(lv_entries(entries@.push(e)) =~= lv_entries(entries@).push(
                        (e.0@, lv(e.1)),
                    ));
                }
                entries.push(e);
                i = i + 1;
                proof {
                    assert(lv_entries(m.entries@).take(i as int) =~= lv_entries(m.entries@).take(
                        i - 1,
                    ).push((m.entries@[i - 1].0@, lv(m.entries@[i - 1].1))));
                }
            }
            proof {
                assert(lv_entries(m.entries@).take(i as int) =~= lv_entries(m.entries@));
            }
            Literal::Fields(StrMap { entries })
        },
    }
}

/// The texts of the items, separated by `sep`.
pub fn join_items(v: &Vec<Literal>, sep: &str) -> (r: String)
    ensures
        r@ == join_texts(lv_items(v@), sep@),
    decreases v, 0nat,
{
    let ghost s = lv_items(v@);
    let mut out = String::new();
    let mut i: usize = 0;
    while i < v.len()
        invariant
            s == lv_items(v@),
            i <= v@.len(),
            out@ == join_texts(s.take(i as int), sep@),
        decreases v@.len() - i,
    {
        proof {
            assert(decreases_to!(*v => v@));
            assert(decreases_to!(v@ => v@[i as int]));
        }
        if i > 0 {
            push_str(&mut out, sep);
        }
        let t = v[i].as_text();
        let ghost before = out@;
        push_str(&mut out, t.as_str());
        i = i + 1;
        proof {
            assert(s.take(i as int).drop_last() =~= s.take(i - 1));
            assert(s.take(i as int)[i - 1] == lv(v@[i - 1]));
            if i == 1 {
                assert(s.take(0) =~= Seq::<LitV>::empty());
                assert(out@ =~= lit_text(s.take(i as int)[0]));
            } else {
                assert(out@ =~= join_texts(s.take(i - 1), sep@) + sep@ + lit_text(
                    s.take(i as int)[i - 1],
                ));
            }
        }
    }
    assert(s.take(v@.len() as int) =~= s);
    out
}

impl Literal {
    /// The text of the constant.
    pub fn as_text(&self) -> (r: String)
        ensures
            r@ == lit_text(self@),
        decreases self, 1nat,
    {
        match self {
            Literal::Empty => String::new(),
            Literal::Text(t) => copy_string(t),
            Literal::Tag(t) => copy_string(t),
            Literal::Number(n) => i64_text(*n),
            Literal::Flag(b) => if *b {
                "True".to_owned()
            } else {
                "False".to_owned()
            },
            Literal::Items(v) => join_items(v, ","),
            Literal::Fields(_) => String::new(),
        }
    }

    /// The number of the constant.
    pub fn as_number(&self) -> (r: i64)
        ensures
            r == lit_number(self@),
    {
        match self {
            Literal::Number(n) => *n,
            Literal::Text(t) => match parse_i64_text(t) {
                Some(n) => n,
                None => 0,
            },
            Literal::Tag(t) => match parse_i64_text(t) {
                Some(n) => n,
                None => 0,
            },
            Literal::Flag(b) => if *b {
                1
            } else {
                0
            },
            Literal::Items(v) => {
                if (v.len() as u64) <= 0x7fff_ffff_ffff_ffffu64 {
                    v.len() as i64
                } else {
                    i64::MAX
                }
            },
            Literal::Fields(m) => {
                proof {
                    lemma_fields_model(*m);
                }
                if (m.entries.len() as u64) <= 0x7fff_ffff_ffff_ffffu64 {
                    m.entries.len() as i64
                } else {
                    i64::MAX
                }
            },
            Literal::Empty => 0,
        }
    }

    /// Whether the constant counts as true.
    pub fn as_flag(&self) -> (r: bool)
        ensures
            r == lit_flag(self@),
    {
        match self {
            Literal::Flag(b) => *b,
            Literal::Tag(t) => string_eq_str(t, "True") || string_eq_str(t, "true")
                || string_eq_str(t, "Some"),
            Literal::Text(t) => {
                proof {
                    reveal_strlit("");
                    if t@.len() == 0 {
                        assert(t@ =~= ""@);
                    }
                }
                !string_eq_str(t, "") && !string_eq_str(t, "False") && !string_eq_str(
                    t,
                    "false",
                )
            },
            Literal::Number(n) => *n != 0,
            Literal::Items(v) => v.len() > 0,
            Literal::Fields(m) => {
                proof {
                    lemma_fields_model(*m);
                }
                m.entries.len() > 0
            },
            Literal::Empty => false,
        }
    }

    /// The field `name` of a record constant.
    pub fn member(&self, name: &str) -> (r: Option<Literal>)
        ensures
            opt_lv(r) == lit_member(self@, name@),
    {
        match self {
            Literal::Fields(m) => {
                proof {
                    lemma_fields_model(*m);
                }
                match m.get(name) {
                    Some(v) => Some(copy_literal(v)),
                    None => None,
                }
            },
            _ => None,
        }
    }
}

} // verus!
