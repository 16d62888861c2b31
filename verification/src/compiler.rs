//! The compiler from a parsed module to a static dataflow graph and its IR.
use vstd::prelude::*;
use crate::syntax::{
    avs, ev, evs, fvs, mvs, ArgV, ArmV, BinaryOp, CallArg, Expr, ExprV, FieldV, MatchArm,
    MatchKind, RecordField,
};
use crate::text::{
    char_is_alnum, char_to_upper, chars_of, copy_string, is_alnum, is_digit, push_char_pub,
    decimal, push_str, string_eq_str, upper, usize_text,
};
use crate::dd::{
    DdOutputProtocol, DdOutputSink, DdRenderArg, DdRenderExpr, DdRenderField, DdRenderMatchArm,
    DdRenderMatchKind, DdRenderOperation, DdRenderProgram, DdRenderProgramSource, GraphNode,
    GraphOperator, GraphOperatorKind, NodeId, SourceBinding, SourceId, StaticGraph,
};
use crate::shape::{
    check_module, check_upto, shape_debug, shape_debug_text, source_markers, src_paths, ShapeReport,
    ShapeV,
};
use crate::strmap::{has_key, ins_absent, key_lt, lemma_ins_keys, lemma_ins_sorted, lookup, sorted_keys, StrMap};
use crate::syntax::ParsedModule;
use crate::hir::{hdefvs, hsrcvs, lower, srcs_upto, HirModule};
use crate::text::byte_len;
use crate::toplevel::{
    accepts_source, find_char_pub, find_from, parse_source, parse_spec, source_accepted, DefV,
};

verus! {

// ---------------------------------------------------------------------------
// Identifiers
// ---------------------------------------------------------------------------

/// The PascalCase letters and digits of a text: every run of ASCII letters
/// and digits starts with a capital; everything else only separates runs.
/// Also whether the next letter starts a run.
pub open spec fn pascal_acc(s: Seq<char>) -> (Seq<char>, bool)
    decreases s.len(),
{
    if s.len() == 0 {
        (Seq::empty(), true)
    } else {
        let p = pascal_acc(s.drop_last());
        let c = s[s.len() - 1];
        if is_alnum(c) {
            if p.1 {
                (p.0.push(upper(c)), false)
            } else {
                (p.0.push(c), false)
            }
        } else {
            (p.0, true)
        }
    }
}

/// A PascalCase identifier made of a text; `Generated` where the text has
/// no ASCII letter or digit.
pub open spec fn pascal(s: Seq<char>) -> Seq<char> {
    if pascal_acc(s).0.len() == 0 {
        "Generated"@
    } else {
        pascal_acc(s).0
    }
}

/// Converts a text to a PascalCase identifier.
pub fn to_pascal_identifier(value: &str) -> (r: String)
    ensures
        r@ == pascal(value@),
{
    let cs = chars_of(value);
    let mut result = String::new();
    let mut up = true;
    let mut nonempty = false;
    let mut i: usize = 0;
    while i < cs.len()
        invariant
            cs@ == value@,
            i <= cs@.len(),
            (result@, up) == pascal_acc(cs@.take(i as int)),
            nonempty == (result@.len() > 0),
        decreases cs@.len() - i,
    {
        let c = cs[i];
        proof {
            assert(cs@.take(i + 1).drop_last() =~= cs@.take(i as int));
        }
        if char_is_alnum(c) {
            if up {
                push_char_pub(&mut result, char_to_upper(c));
                up = false;
            } else {
                push_char_pub(&mut result, c);
            }
            nonempty = true;
        } else {
            up = true;
        }
        i = i + 1;
    }
    proof {
        assert(cs@.take(i as int) =~= cs@);
    }
    if !nonempty {
        "Generated".to_owned()
    } else {
        result
    }
}

proof fn lemma_pascal_acc_alnum(s: Seq<char>)
    ensures
        forall|i: int| 0 <= i < pascal_acc(s).0.len() ==> #[trigger] is_alnum(pascal_acc(s).0[i]),
    decreases s.len(),
{
    if s.len() > 0 {
        lemma_pascal_acc_alnum(s.drop_last());
        let p = pascal_acc(s.drop_last());
        let c = s[s.len() - 1];
        if is_alnum(c) {
            let x = if p.1 {
                upper(c)
            } else {
                c
            };
            assert(is_alnum(x)) by {
                if 'a' <= c <= 'z' {
                    let u = ((c as u32) - 32) as char;
                    assert((c as u32) - 32 >= 'A' as u32);
                    assert((c as u32) - 32 <= 'Z' as u32);
                    assert(u as u32 == (c as u32) - 32);
                }
            }
            assert forall|i: int| 0 <= i < p.0.push(x).len() implies #[trigger] is_alnum(
                p.0.push(x)[i],
            ) by {
                if i < p.0.len() {
                    assert(p.0.push(x)[i] == p.0[i]);
                }
            }
        }
    }
}

/// An identifier made by `to_pascal_identifier` is never empty, and holds
/// only ASCII letters and digits.
pub proof fn lemma_pascal_is_identifier(s: Seq<char>)
    ensures
        pascal(s).len() > 0,
        forall|i: int| 0 <= i < pascal(s).len() ==> #[trigger] is_alnum(pascal(s)[i]),
{
    lemma_pascal_acc_alnum(s);
    if pascal_acc(s).0.len() == 0 {
        let g = "Generated"@;
        reveal_strlit("Generated");
        assert forall|i: int| 0 <= i < g.len() implies #[trigger] is_alnum(g[i]) by {
        }
    }
}

// ---------------------------------------------------------------------------
// Source hash
// ---------------------------------------------------------------------------

/// The SHA-256 digest of the UTF-8 encoding of a text.
pub uninterp spec fn sha256_digest(text: Seq<char>) -> Seq<u8>;

/// `sha2::Sha256::digest` over the text's UTF-8 bytes, copied into a `Vec`.
/// The contract names the digest and states its length of 32 bytes, as the
/// `Sha256` output type fixes it; nothing more of its value is claimed.
#[verifier::external_body]
fn sha256_bytes(text: &str) -> (r: Vec<u8>)
    ensures
        r@ == sha256_digest(text@),
        r@.len() == 32,
{
    <sha2::Sha256 as sha2::Digest>::digest(text.as_bytes()).to_vec()
}

/// A lowercase hexadecimal digit.
pub open spec fn hex_digit(n: int) -> char {
    if n < 10 {
        (('0' as int) + n) as char
    } else {
        (('a' as int) + n - 10) as char
    }
}

/// Each byte as two lowercase hexadecimal digits.
pub open spec fn hex(bytes: Seq<u8>) -> Seq<char>
    decreases bytes.len(),
{
    if bytes.len() == 0 {
        Seq::empty()
    } else {
        let b = bytes[bytes.len() - 1];
        hex(bytes.drop_last()).push(hex_digit(b as int / 16)).push(hex_digit(b as int % 16))
    }
}

proof fn lemma_hex_len(bytes: Seq<u8>)
    ensures
        hex(bytes).len() == 2 * bytes.len(),
    decreases bytes.len(),
{
    if bytes.len() > 0 {
        lemma_hex_len(bytes.drop_last());
    }
}

fn hex_digit_exec(n: u8) -> (c: char)
    requires
        n < 16,
    ensures
        c == hex_digit(n as int),
{
    if n < 10 {
        (48u8 + n) as char
    } else {
        (97u8 + n - 10) as char
    }
}

/// Each byte as two lowercase hexadecimal digits.
pub fn hex_digest(bytes: &[u8]) -> (r: String)
    ensures
        r@ == hex(bytes@),
{
    let mut r = String::new();
    let mut i: usize = 0;
    while i < bytes.len()
        invariant
            i <= bytes@.len(),
            r@ == hex(bytes@.take(i as int)),
        decreases bytes@.len() - i,
    {
        let b = bytes[i];
        push_char_pub(&mut r, hex_digit_exec(b / 16));
        push_char_pub(&mut r, hex_digit_exec(b % 16));
        i = i + 1;
        proof {
            assert(bytes@.take(i as int).drop_last() =~= bytes@.take(i - 1));
        }
    }
    proof {
        assert(bytes@.take(i as int) =~= bytes@);
    }
    r
}

/// The hexadecimal SHA-256 digest of a text.
pub open spec fn source_hash(text: Seq<char>) -> Seq<char> {
    hex(sha256_digest(text))
}

fn sha256_text(text: &str) -> (r: String)
    ensures
        r@ == source_hash(text@),
        r@.len() == 64,
{
    let d = sha256_bytes(text);
    proof {
        lemma_hex_len(d@);
    }
    hex_digest(d.as_slice())
}

/// The graph id: `module_` and the first 16 digits of the source hash.
pub open spec fn graph_id(text: Seq<char>) -> Seq<char> {
    "module_"@ + source_hash(text).take(16)
}

fn graph_id_from_source_hash(text: &str) -> (r: String)
    ensures
        r@ == graph_id(text@),
{
    let h = sha256_text(text);
    let hc = chars_of(h.as_str());
    let mut r = "module_".to_owned();
    let mut i: usize = 0;
    let ghost r0 = r@;
    while i < 16
        invariant
            hc@ == source_hash(text@),
            hc@.len() == 64,
            i <= 16,
            r0 == "module_"@,
            r@ == r0 + hc@.take(i as int),
        decreases 16 - i,
    {
        push_char_pub(&mut r, hc[i]);
        i = i + 1;
        proof {
            assert(hc@.take(i as int) =~= hc@.take(i - 1).push(hc@[i - 1]));
        }
    }
    r
}

// ---------------------------------------------------------------------------
// Integers in source text
// ---------------------------------------------------------------------------

/// The value of a run of decimal digits.
pub open spec fn digits_value(s: Seq<char>) -> int
    decreases s.len(),
{
    if s.len() == 0 {
        0
    } else {
        digits_value(s.drop_last()) * 10 + (s[s.len() - 1] as int - '0' as int)
    }
}

pub open spec fn all_digits(s: Seq<char>) -> bool {
    forall|i: int| 0 <= i < s.len() ==> #[trigger] is_digit(s[i])
}

/// `i64`'s parse of a decimal text: an optional sign, then at least one
/// digit, with a value in range.
pub open spec fn parse_i64(s: Seq<char>) -> Option<i64> {
    if s.len() > 0 && s[0] == '-' {
        let d = s.drop_first();
        if d.len() > 0 && all_digits(d) && digits_value(d) <= 0x8000_0000_0000_0000 {
            Some((-digits_value(d)) as i64)
        } else {
            None
        }
    } else {
        let d = if s.len() > 0 && s[0] == '+' {
            s.drop_first()
        } else {
            s
        };
        if d.len() > 0 && all_digits(d) && digits_value(d) <= 0x7fff_ffff_ffff_ffff {
            Some(digits_value(d) as i64)
        } else {
            None
        }
    }
}

proof fn lemma_digits_value_grows(s: Seq<char>, i: int)
    requires
        0 <= i <= s.len(),
        all_digits(s),
    ensures
        0 <= digits_value(s.take(i)) <= digits_value(s),
    decreases s.len() - i,
{
    if i < s.len() {
        lemma_digits_value_grows(s, i + 1);
        assert(s.take(i + 1).drop_last() =~= s.take(i));
        assert(is_digit(s[i]));
    } else {
        assert(s.take(i) =~= s);
    }
    lemma_digits_value_nonneg(s.take(i));
}

proof fn lemma_digits_value_nonneg(s: Seq<char>)
    requires
        all_digits(s),
    ensures
        digits_value(s) >= 0,
    decreases s.len(),
{
    if s.len() > 0 {
        assert(all_digits(s.drop_last())) by {
            assert forall|i: int| 0 <= i < s.len() - 1 implies #[trigger] is_digit(
                s.drop_last()[i],
            ) by {
                assert(s.drop_last()[i] == s[i]);
            }
        }
        lemma_digits_value_nonneg(s.drop_last());
        assert(is_digit(s[s.len() - 1]));
    }
}

/// The digits of `s` from `from` on, if they are all digits, at least one,
/// with a value at most `limit`.
fn digits_up_to(s: &Vec<char>, from: usize, limit: u64) -> (r: Option<u64>)
    requires
        from <= s@.len(),
        limit >= 9,
    ensures
        ({
            let d = s@.skip(from as int);
            match r {
                Some(v) => d.len() > 0 && all_digits(d) && digits_value(d) <= limit && v
                    == digits_value(d),
                None => !(d.len() > 0 && all_digits(d) && digits_value(d) <= limit),
            }
        }),
{
    let ghost d = s@.skip(from as int);
    if from == s.len() {
        return None;
    }
    let mut acc: u64 = 0;
    let mut i: usize = from;
    while i < s.len()
        invariant
            d == s@.skip(from as int),
            from <= i <= s@.len(),
            from < s@.len(),
            limit >= 9,
            all_digits(d.take(i - from)),
            acc == digits_value(d.take(i - from)),
            acc <= limit,
        decreases s@.len() - i,
    {
        let c = s[i];
        proof {
            assert(d[i - from] == c);
        }
        if !('0' <= c && c <= '9') {
            proof {
                assert(!is_digit(d[i - from]));
            }
            return None;
        }
        let digit = (c as u32 - '0' as u32) as u64;
        proof {
            assert(d.take(i - from + 1).drop_last() =~= d.take(i - from));
            assert(all_digits(d.take(i - from + 1)));
        }
        if acc > (limit - digit) / 10 {
            proof {
                assert(digits_value(d.take(i - from + 1)) == acc * 10 + digit);
                assert(acc * 10 + digit > limit) by (nonlinear_arith)
                    requires
                        acc > (limit - digit) / 10,
                        digit <= limit || digit > limit,
                ;
                if all_digits(d) {
                    lemma_digits_value_grows(d, i - from + 1);
                }
            }
            return None;
        }
        proof {
            assert(acc * 10 + digit <= limit) by (nonlinear_arith)
                requires
                    acc <= (limit - digit) / 10,
                    digit <= 9,
            ;
        }
        acc = acc * 10 + digit;
        i = i + 1;
    }
    proof {
        assert(d.take(i - from) =~= d);
    }
    Some(acc)
}

/// Parses a decimal `i64`.
pub fn parse_i64_text(text: &String) -> (r: Option<i64>)
    ensures
        r == parse_i64(text@),
{
    let s = chars_of(text.as_str());
    if s.len() > 0 && s[0] == '-' {
        proof {
            assert(s@.skip(1) =~= s@.drop_first());
        }
        match digits_up_to(&s, 1, 0x8000_0000_0000_0000) {
            Some(v) => {
                if v == 0x8000_0000_0000_0000 {
                    Some(-9223372036854775807i64 - 1)
                } else {
                    Some(-(v as i64))
                }
            },
            None => None,
        }
    } else {
        let from: usize = if s.len() > 0 && s[0] == '+' {
            1
        } else {
            0
        };
        proof {
            assert(s@.skip(1) =~= s@.drop_first());
            assert(s@.skip(0) =~= s@);
        }
        match digits_up_to(&s, from, 0x7fff_ffff_ffff_ffff) {
            Some(v) => Some(v as i64),
            None => None,
        }
    }
}


// ---------------------------------------------------------------------------
// Looking through expressions
// ---------------------------------------------------------------------------

/// What a search through an expression looks for.
pub enum ProbeV {
    Callee(Seq<char>),
    Then,
    Hold,
    Latest,
}

enum Probe {
    Callee(String),
    Then,
    Hold,
    Latest,
}

spec fn pv(p: Probe) -> ProbeV {
    match p {
        Probe::Callee(c) => ProbeV::Callee(c@),
        Probe::Then => ProbeV::Then,
        Probe::Hold => ProbeV::Hold,
        Probe::Latest => ProbeV::Latest,
    }
}

pub open spec fn node_hits(e: ExprV, p: ProbeV) -> bool {
    match p {
        ProbeV::Callee(c) => match e {
            ExprV::Call(x, _) => x == c,
            _ => false,
        },
        ProbeV::Then => e is Then,
        ProbeV::Hold => e is Hold,
        ProbeV::Latest => e is Latest,
    }
}

/// Some node of the expression, itself included, is what the probe looks for.
pub open spec fn tree_has(e: ExprV, p: ProbeV) -> bool
    decreases e,
{
    node_hits(e, p) || match e {
        ExprV::Record(fs) => has_fields(fs, p),
        ExprV::Constructor(_, fs) => has_fields(fs, p),
        ExprV::List(vs) => has_list(vs, p),
        ExprV::Block(vs) => has_list(vs, p),
        ExprV::Latest(vs) => has_list(vs, p),
        ExprV::Then(vs) => has_list(vs, p),
        ExprV::Call(_, args) => has_args(args, p),
        ExprV::Pipe(i, s) => tree_has(*i, p) || tree_has(*s, p),
        ExprV::Binary(_, l, r) => tree_has(*l, p) || tree_has(*r, p),
        ExprV::Hold(_, body) => has_list(body, p),
        ExprV::Match(_, arms) => has_arms(arms, p),
        ExprV::SourceAt(t) => tree_has(*t, p),
        ExprV::Link(t) => match t {
            Some(t) => tree_has(*t, p),
            None => false,
        },
        ExprV::FieldAccess(b, _) => tree_has(*b, p),
        _ => false,
    }
}

pub open spec fn has_list(vs: Seq<ExprV>, p: ProbeV) -> bool
    decreases vs,
{
    if vs.len() == 0 {
        false
    } else {
        tree_has(vs[0], p) || has_list(vs.drop_first(), p)
    }
}

pub open spec fn has_fields(fs: Seq<FieldV>, p: ProbeV) -> bool
    decreases fs,
{
    if fs.len() == 0 {
        false
    } else {
        tree_has(fs[0].value, p) || has_fields(fs.drop_first(), p)
    }
}

pub open spec fn has_args(args: Seq<ArgV>, p: ProbeV) -> bool
    decreases args,
{
    if args.len() == 0 {
        false
    } else {
        (match args[0] {
            ArgV::Positional(v) => tree_has(v, p),
            ArgV::Named(_, v) => tree_has(v, p),
        }) || has_args(args.drop_first(), p)
    }
}

pub open spec fn has_arms(arms: Seq<ArmV>, p: ProbeV) -> bool
    decreases arms,
{
    if arms.len() == 0 {
        false
    } else {
        tree_has(arms[0].value, p) || has_arms(arms.drop_first(), p)
    }
}

fn node_hits_exec(e: &Expr, p: &Probe) -> (r: bool)
    ensures
        r == node_hits(ev(*e), pv(*p)),
{
    match p {
        Probe::Callee(c) => match e {
            Expr::Call { callee, .. } => crate::text::string_eq_string(callee, c),
            _ => false,
        },
        Probe::Then => match e {
            Expr::Then { .. } => true,
            _ => false,
        },
        Probe::Hold => match e {
            Expr::Hold { .. } => true,
            _ => false,
        },
        Probe::Latest => match e {
            Expr::Latest(_) => true,
            _ => false,
        },
    }
}

fn tree_has_exec(e: &Expr, p: &Probe) -> (r: bool)
    ensures
        r == tree_has(ev(*e), pv(*p)),
    decreases e, 0int,
{
    if node_hits_exec(e, p) {
        return true;
    }
    match e {
        Expr::Record(fs) => has_fields_exec(fs, p),
        Expr::Constructor { fields, .. } => has_fields_exec(fields, p),
        Expr::List(vs) => has_list_exec(vs, p),
        Expr::Block(vs) => has_list_exec(vs, p),
        Expr::Latest(vs) => has_list_exec(vs, p),
        Expr::Then { body } => has_list_exec(body, p),
        Expr::Call { args, .. } => has_args_exec(args, p),
        Expr::Pipe { input, stage } => tree_has_exec(input, p) || tree_has_exec(stage, p),
        Expr::Binary { left, right, .. } => tree_has_exec(left, p) || tree_has_exec(right, p),
        Expr::Hold { body, .. } => has_list_exec(body, p),
        Expr::Match { arms, .. } => has_arms_exec(arms, p),
        Expr::SourceAt { target } => tree_has_exec(target, p),
        Expr::Link { target } => match target {
            Some(t) => tree_has_exec(t, p),
            None => false,
        },
        Expr::FieldAccess { base, .. } => tree_has_exec(base, p),
        _ => false,
    }
}

fn has_list_exec(vs: &Vec<Expr>, p: &Probe) -> (r: bool)
    ensures
        r == has_list(evs(vs@), pv(*p)),
    decreases vs, 0int,
{
    let ghost s = evs(vs@);
    let mut i: usize = 0;
    proof {
        assert(s.skip(0) =~= s);
    }
    while i < vs.len()
        invariant
            s == evs(vs@),
            i <= vs@.len(),
            has_list(s, pv(*p)) == has_list(s.skip(i as int), pv(*p)),
        decreases vs@.len() - i,
    {
        proof {
            assert(decreases_to!(vs@ => vs@[i as int]));
            assert(decreases_to!(*vs => vs@));
            assert(s.skip(i as int).drop_first() =~= s.skip(i + 1));
            assert(s.skip(i as int)[0] == ev(vs@[i as int]));
        }
        if tree_has_exec(&vs[i], p) {
            return true;
        }
        i = i + 1;
    }
    proof {
        assert(s.skip(i as int).len() == 0);
    }
    false
}

fn has_fields_exec(fs: &Vec<RecordField>, p: &Probe) -> (r: bool)
    ensures
        r == has_fields(fvs(fs@), pv(*p)),
    decreases fs, 0int,
{
    let ghost s = fvs(fs@);
    let mut i: usize = 0;
    proof {
        assert(s.skip(0) =~= s);
    }
    while i < fs.len()
        invariant
            s == fvs(fs@),
            i <= fs@.len(),
            has_fields(s, pv(*p)) == has_fields(s.skip(i as int), pv(*p)),
        decreases fs@.len() - i,
    {
        proof {
            assert(decreases_to!(fs@[i as int] => fs@[i as int].value));
            assert(decreases_to!(fs@ => fs@[i as int]));
            assert(decreases_to!(*fs => fs@));
            assert(s.skip(i as int).drop_first() =~= s.skip(i + 1));
            assert(s.skip(i as int)[0].value == ev(fs@[i as int].value));
        }
        if tree_has_exec(&fs[i].value, p) {
            return true;
        }
        i = i + 1;
    }
    proof {
        assert(s.skip(i as int).len() == 0);
    }
    false
}

fn has_args_exec(args: &Vec<CallArg>, p: &Probe) -> (r: bool)
    ensures
        r == has_args(avs(args@), pv(*p)),
    decreases args, 0int,
{
    let ghost s = avs(args@);
    let mut i: usize = 0;
    proof {
        assert(s.skip(0) =~= s);
    }
    while i < args.len()
        invariant
            s == avs(args@),
            i <= args@.len(),
            has_args(s, pv(*p)) == has_args(s.skip(i as int), pv(*p)),
        decreases args@.len() - i,
    {
        proof {
            assert(decreases_to!(args@ => args@[i as int]));
            assert(decreases_to!(*args => args@));
            assert(s.skip(i as int).drop_first() =~= s.skip(i + 1));
        }
        let hit = match &args[i] {
            CallArg::Positional(v) => {
                proof {
                    assert(decreases_to!(args@[i as int] => *v));
                }
                tree_has_exec(v, p)
            },
            CallArg::Named { value, .. } => {
                proof {
                    assert(decreases_to!(args@[i as int] => *value));
                }
                tree_has_exec(value, p)
            },
        };
        if hit {
            return true;
        }
        i = i + 1;
    }
    proof {
        assert(s.skip(i as int).len() == 0);
    }
    false
}

fn has_arms_exec(arms: &Vec<MatchArm>, p: &Probe) -> (r: bool)
    ensures
        r == has_arms(mvs(arms@), pv(*p)),
    decreases arms, 0int,
{
    let ghost s = mvs(arms@);
    let mut i: usize = 0;
    proof {
        assert(s.skip(0) =~= s);
    }
    while i < arms.len()
        invariant
            s == mvs(arms@),
            i <= arms@.len(),
            has_arms(s, pv(*p)) == has_arms(s.skip(i as int), pv(*p)),
        decreases arms@.len() - i,
    {
        proof {
            assert(decreases_to!(arms@[i as int] => arms@[i as int].value));
            assert(decreases_to!(arms@ => arms@[i as int]));
            assert(decreases_to!(*arms => arms@));
            assert(s.skip(i as int).drop_first() =~= s.skip(i + 1));
            assert(s.skip(i as int)[0].value == ev(arms@[i as int].value));
        }
        if tree_has_exec(&arms[i].value, p) {
            return true;
        }
        i = i + 1;
    }
    proof {
        assert(s.skip(i as int).len() == 0);
    }
    false
}

/// Whether an expression calls `callee` somewhere.
fn tree_has_callee(e: &Expr, callee: &str) -> (r: bool)
    ensures
        r == tree_has(ev(*e), ProbeV::Callee(callee@)),
{
    let p = Probe::Callee(callee.to_owned());
    tree_has_exec(e, &p)
}

// ----- the first branch of a match -----

/// The first arm that is not the default arm `__`.
pub open spec fn first_arm(arms: Seq<ArmV>) -> Option<(Seq<char>, ExprV)>
    decreases arms.len(),
{
    if arms.len() == 0 {
        None
    } else if arms[0].pattern != "__"@ {
        Some((arms[0].pattern, arms[0].value))
    } else {
        first_arm(arms.drop_first())
    }
}

/// The first match of kind `kind`, in pre-order, that has an arm other than
/// the default arm, with that arm.
pub open spec fn first_match(e: ExprV, kind: MatchKind) -> Option<(Seq<char>, ExprV)>
    decreases e,
{
    let here = match e {
        ExprV::Match(k, arms) => if k == kind {
            first_arm(arms)
        } else {
            None
        },
        _ => None,
    };
    if here is Some {
        here
    } else {
        match e {
            ExprV::Record(fs) => fm_fields(fs, kind),
            ExprV::Constructor(_, fs) => fm_fields(fs, kind),
            ExprV::List(vs) => fm_list(vs, kind),
            ExprV::Block(vs) => fm_list(vs, kind),
            ExprV::Latest(vs) => fm_list(vs, kind),
            ExprV::Then(vs) => fm_list(vs, kind),
            ExprV::Call(_, args) => fm_args(args, kind),
            ExprV::Pipe(i, s) => or_else(first_match(*i, kind), first_match(*s, kind)),
            ExprV::Binary(_, l, r) => or_else(first_match(*l, kind), first_match(*r, kind)),
            ExprV::Hold(_, body) => fm_list(body, kind),
            ExprV::Match(_, arms) => fm_arms(arms, kind),
            ExprV::SourceAt(t) => first_match(*t, kind),
            ExprV::Link(t) => match t {
                Some(t) => first_match(*t, kind),
                None => None,
            },
            ExprV::FieldAccess(b, _) => first_match(*b, kind),
            _ => None,
        }
    }
}

pub open spec fn or_else<A>(a: Option<A>, b: Option<A>) -> Option<A> {
    if a is Some {
        a
    } else {
        b
    }
}

pub open spec fn fm_list(vs: Seq<ExprV>, kind: MatchKind) -> Option<(Seq<char>, ExprV)>
    decreases vs,
{
    if vs.len() == 0 {
        None
    } else {
        or_else(first_match(vs[0], kind), fm_list(vs.drop_first(), kind))
    }
}

pub open spec fn fm_fields(fs: Seq<FieldV>, kind: MatchKind) -> Option<(Seq<char>, ExprV)>
    decreases fs,
{
    if fs.len() == 0 {
        None
    } else {
        or_else(first_match(fs[0].value, kind), fm_fields(fs.drop_first(), kind))
    }
}

pub open spec fn fm_args(args: Seq<ArgV>, kind: MatchKind) -> Option<(Seq<char>, ExprV)>
    decreases args,
{
    if args.len() == 0 {
        None
    } else {
        or_else(
            match args[0] {
                ArgV::Positional(v) => first_match(v, kind),
                ArgV::Named(_, v) => first_match(v, kind),
            },
            fm_args(args.drop_first(), kind),
        )
    }
}

pub open spec fn fm_arms(arms: Seq<ArmV>, kind: MatchKind) -> Option<(Seq<char>, ExprV)>
    decreases arms,
{
    if arms.len() == 0 {
        None
    } else {
        or_else(first_match(arms[0].value, kind), fm_arms(arms.drop_first(), kind))
    }
}

pub open spec fn fm_ok(r: Option<(&String, &Expr)>, s: Option<(Seq<char>, ExprV)>) -> bool {
    match s {
        Some(x) => r matches Some(y) && y.0@ == x.0 && ev(*y.1) == x.1,
        None => r is None,
    }
}

fn first_arm_exec(arms: &Vec<MatchArm>) -> (r: Option<(&String, &Expr)>)
    ensures
        fm_ok(r, first_arm(mvs(arms@))),
{
    let ghost s = mvs(arms@);
    let mut i: usize = 0;
    proof {
        assert(s.skip(0) =~= s);
    }
    while i < arms.len()
        invariant
            s == mvs(arms@),
            i <= arms@.len(),
            first_arm(s) == first_arm(s.skip(i as int)),
        decreases arms@.len() - i,
    {
        proof {
            assert(s.skip(i as int).drop_first() =~= s.skip(i + 1));
            assert(s.skip(i as int)[0] == s[i as int]);
        }
        if !string_eq_str(&arms[i].pattern, "__") {
            return Some((&arms[i].pattern, &arms[i].value));
        }
        i = i + 1;
    }
    None
}

fn first_match_exec(e: &Expr, kind: MatchKind) -> (r: Option<(&String, &Expr)>)
    ensures
        fm_ok(r, first_match(ev(*e), kind)),
    decreases e, 0int,
{
    if let Expr::Match { kind: k, arms } = e {
        if *k == kind {
            let here = first_arm_exec(arms);
            if here.is_some() {
                return here;
            }
        }
    }
    match e {
        Expr::Record(fs) => fm_fields_exec(fs, kind),
        Expr::Constructor { fields, .. } => fm_fields_exec(fields, kind),
        Expr::List(vs) => fm_list_exec(vs, kind),
        Expr::Block(vs) => fm_list_exec(vs, kind),
        Expr::Latest(vs) => fm_list_exec(vs, kind),
        Expr::Then { body } => fm_list_exec(body, kind),
        Expr::Call { args, .. } => fm_args_exec(args, kind),
        Expr::Pipe { input, stage } => {
            let a = first_match_exec(input, kind);
            if a.is_some() {
                a
            } else {
                first_match_exec(stage, kind)
            }
        },
        Expr::Binary { left, right, .. } => {
            let a = first_match_exec(left, kind);
            if a.is_some() {
                a
            } else {
                first_match_exec(right, kind)
            }
        },
        Expr::Hold { body, .. } => fm_list_exec(body, kind),
        Expr::Match { arms, .. } => fm_arms_exec(arms, kind),
        Expr::SourceAt { target } => first_match_exec(target, kind),
        Expr::Link { target } => match target {
            Some(t) => first_match_exec(t, kind),
            None => None,
        },
        Expr::FieldAccess { base, .. } => first_match_exec(base, kind),
        _ => None,
    }
}

fn fm_list_exec(vs: &Vec<Expr>, kind: MatchKind) -> (r: Option<(&String, &Expr)>)
    ensures
        fm_ok(r, fm_list(evs(vs@), kind)),
    decreases vs, 0int,
{
    let ghost s = evs(vs@);
    let mut i: usize = 0;
    proof {
        assert(s.skip(0) =~= s);
    }
    while i < vs.len()
        invariant
            s == evs(vs@),
            i <= vs@.len(),
            fm_list(s, kind) == fm_list(s.skip(i as int), kind),
        decreases vs@.len() - i,
    {
        proof {
            assert(decreases_to!(vs@ => vs@[i as int]));
            assert(decreases_to!(*vs => vs@));
            assert(s.skip(i as int).drop_first() =~= s.skip(i + 1));
            assert(s.skip(i as int)[0] == ev(vs@[i as int]));
        }
        let r = first_match_exec(&vs[i], kind);
        if r.is_some() {
            return r;
        }
        i = i + 1;
    }
    None
}

fn fm_fields_exec(fs: &Vec<RecordField>, kind: MatchKind) -> (r: Option<(&String, &Expr)>)
    ensures
        fm_ok(r, fm_fields(fvs(fs@), kind)),
    decreases fs, 0int,
{
    let ghost s = fvs(fs@);
    let mut i: usize = 0;
    proof {
        assert(s.skip(0) =~= s);
    }
    while i < fs.len()
        invariant
            s == fvs(fs@),
            i <= fs@.len(),
            fm_fields(s, kind) == fm_fields(s.skip(i as int), kind),
        decreases fs@.len() - i,
    {
        proof {
            assert(decreases_to!(fs@[i as int] => fs@[i as int].value));
            assert(decreases_to!(fs@ => fs@[i as int]));
            assert(decreases_to!(*fs => fs@));
            assert(s.skip(i as int).drop_first() =~= s.skip(i + 1));
            assert(s.skip(i as int)[0].value == ev(fs@[i as int].value));
        }
        let r = first_match_exec(&fs[i].value, kind);
        if r.is_some() {
            return r;
        }
        i = i + 1;
    }
    None
}

fn fm_args_exec(args: &Vec<CallArg>, kind: MatchKind) -> (r: Option<(&String, &Expr)>)
    ensures
        fm_ok(r, fm_args(avs(args@), kind)),
    decreases args, 0int,
{
    let ghost s = avs(args@);
    let mut i: usize = 0;
    proof {
        assert(s.skip(0) =~= s);
    }
    while i < args.len()
        invariant
            s == avs(args@),
            i <= args@.len(),
            fm_args(s, kind) == fm_args(s.skip(i as int), kind),
        decreases args@.len() - i,
    {
        proof {
            assert(decreases_to!(args@ => args@[i as int]));
            assert(decreases_to!(*args => args@));
            assert(s.skip(i as int).drop_first() =~= s.skip(i + 1));
        }
        let r = match &args[i] {
            CallArg::Positional(v) => {
                proof {
                    assert(decreases_to!(args@[i as int] => *v));
                }
                first_match_exec(v, kind)
            },
            CallArg::Named { value, .. } => {
                proof {
                    assert(decreases_to!(args@[i as int] => *value));
                }
                first_match_exec(value, kind)
            },
        };
        if r.is_some() {
            return r;
        }
        i = i + 1;
    }
    None
}

fn fm_arms_exec(arms: &Vec<MatchArm>, kind: MatchKind) -> (r: Option<(&String, &Expr)>)
    ensures
        fm_ok(r, fm_arms(mvs(arms@), kind)),
    decreases arms, 0int,
{
    let ghost s = mvs(arms@);
    let mut i: usize = 0;
    proof {
        assert(s.skip(0) =~= s);
    }
    while i < arms.len()
        invariant
            s == mvs(arms@),
            i <= arms@.len(),
            fm_arms(s, kind) == fm_arms(s.skip(i as int), kind),
        decreases arms@.len() - i,
    {
        proof {
            assert(decreases_to!(arms@[i as int] => arms@[i as int].value));
            assert(decreases_to!(arms@ => arms@[i as int]));
            assert(decreases_to!(*arms => arms@));
            assert(s.skip(i as int).drop_first() =~= s.skip(i + 1));
            assert(s.skip(i as int)[0].value == ev(arms@[i as int].value));
        }
        let r = first_match_exec(&arms[i].value, kind);
        if r.is_some() {
            return r;
        }
        i = i + 1;
    }
    None
}

// ---------------------------------------------------------------------------
// The document and what it renders
// ---------------------------------------------------------------------------

pub open spec fn reference_path(e: ExprV) -> Option<Seq<char>> {
    match e {
        ExprV::Path(p) => Some(p),
        _ => None,
    }
}

/// The semantic path a document shows: the path piped into a text
/// conversion or the document, or found under the document's root or a
/// button's label.
pub open spec fn target_path(e: ExprV) -> Option<Seq<char>>
    decreases e,
{
    match e {
        ExprV::Pipe(i, s) => {
            let converts = match *s {
                ExprV::Call(c, _) => c == "Text/from_number"@ || c == "Text/join"@ || c
                    == "Document/new"@,
                _ => false,
            };
            if converts {
                reference_path(*i)
            } else {
                or_else(target_path(*s), target_path(*i))
            }
        },
        ExprV::Call(c, args) => if c == "Document/new"@ {
            tp_root_args(args)
        } else if c == "Element/button"@ {
            tp_label_args(args)
        } else {
            None
        },
        _ => reference_path(e),
    }
}

pub open spec fn tp_root_args(args: Seq<ArgV>) -> Option<Seq<char>>
    decreases args,
{
    if args.len() == 0 {
        None
    } else {
        let here = match args[0] {
            ArgV::Named(n, v) => if n == "root"@ {
                target_path(v)
            } else {
                None
            },
            ArgV::Positional(v) => target_path(v),
        };
        or_else(here, tp_root_args(args.drop_first()))
    }
}

pub open spec fn tp_label_args(args: Seq<ArgV>) -> Option<Seq<char>>
    decreases args,
{
    if args.len() == 0 {
        None
    } else {
        let here = match args[0] {
            ArgV::Named(n, v) => if n == "label"@ {
                target_path(v)
            } else {
                None
            },
            ArgV::Positional(_) => None,
        };
        or_else(here, tp_label_args(args.drop_first()))
    }
}

fn reference_path_exec(e: &Expr) -> (r: Option<String>)
    ensures
        match reference_path(ev(*e)) {
            Some(p) => r matches Some(x) && x@ == p,
            None => r is None,
        },
{
    match e {
        Expr::Path(p) => Some(copy_string(p)),
        _ => None,
    }
}

pub open spec fn opt_str_ok(r: Option<String>, s: Option<Seq<char>>) -> bool {
    match s {
        Some(p) => r matches Some(x) && x@ == p,
        None => r is None,
    }
}

fn target_path_exec(e: &Expr) -> (r: Option<String>)
    ensures
        opt_str_ok(r, target_path(ev(*e))),
    decreases e, 0int,
{
    match e {
        Expr::Pipe { input, stage } => {
            proof {
                assert(ev(*e) == ExprV::Pipe(Box::new(ev(**input)), Box::new(ev(**stage))));
            }
            let converts = match &**stage {
                Expr::Call { callee, .. } => string_eq_str(callee, "Text/from_number")
                    || string_eq_str(callee, "Text/join") || string_eq_str(callee, "Document/new"),
                _ => false,
            };
            if converts {
                reference_path_exec(input)
            } else {
                let a = target_path_exec(stage);
                if a.is_some() {
                    a
                } else {
                    target_path_exec(input)
                }
            }
        },
        Expr::Call { callee, args } => {
            if string_eq_str(callee, "Document/new") {
                tp_args_exec(args, true)
            } else if string_eq_str(callee, "Element/button") {
                tp_args_exec(args, false)
            } else {
                None
            }
        },
        _ => reference_path_exec(e),
    }
}

fn tp_args_exec(args: &Vec<CallArg>, root: bool) -> (r: Option<String>)
    ensures
        opt_str_ok(
            r,
            if root {
                tp_root_args(avs(args@))
            } else {
                tp_label_args(avs(args@))
            },
        ),
    decreases args, 0int,
{
    let ghost s = avs(args@);
    let ghost target = if root {
        tp_root_args(s)
    } else {
        tp_label_args(s)
    };
    let mut i: usize = 0;
    proof {
        assert(s.skip(0) =~= s);
    }
    while i < args.len()
        invariant
            s == avs(args@),
            i <= args@.len(),
            target == (if root {
                tp_root_args(s)
            } else {
                tp_label_args(s)
            }),
            target == (if root {
                tp_root_args(s.skip(i as int))
            } else {
                tp_label_args(s.skip(i as int))
            }),
        decreases args@.len() - i,
    {
        proof {
            assert(decreases_to!(args@ => args@[i as int]));
            assert(decreases_to!(*args => args@));
            assert(s.skip(i as int).drop_first() =~= s.skip(i + 1));
        }
        let here = match &args[i] {
            CallArg::Named { name, value } => {
                proof {
                    assert(decreases_to!(args@[i as int] => *value));
                }
                if string_eq_str(name, if root {
                    "root"
                } else {
                    "label"
                }) {
                    target_path_exec(value)
                } else {
                    None
                }
            },
            CallArg::Positional(v) => {
                proof {
                    assert(decreases_to!(args@[i as int] => *v));
                }
                if root {
                    target_path_exec(v)
                } else {
                    None
                }
            },
        };
        if here.is_some() {
            return here;
        }
        i = i + 1;
    }
    None
}

/// The expression of the first definition with this name.
pub open spec fn find_def(defs: Seq<DefV>, name: Seq<char>) -> Option<ExprV>
    decreases defs.len(),
{
    if defs.len() == 0 {
        None
    } else if defs[0].name == name {
        Some(defs[0].expr)
    } else {
        find_def(defs.drop_first(), name)
    }
}

/// The value of the first field with this name, in a record or constructor.
pub open spec fn first_field(fs: Seq<FieldV>, name: Seq<char>) -> Option<ExprV>
    decreases fs.len(),
{
    if fs.len() == 0 {
        None
    } else if fs[0].name == name {
        Some(fs[0].value)
    } else {
        first_field(fs.drop_first(), name)
    }
}

pub open spec fn record_field(e: ExprV, name: Seq<char>) -> Option<ExprV> {
    match e {
        ExprV::Record(fs) => first_field(fs, name),
        ExprV::Constructor(_, fs) => first_field(fs, name),
        _ => None,
    }
}

/// Follows the parts of `p` from position `a` on through record fields.
pub open spec fn walk_fields(e: ExprV, p: Seq<char>, a: int) -> Option<ExprV>
    decreases p.len() - a,
{
    if 0 <= a <= p.len() {
        let b = find_from(p, '.', a, p.len() as int);
        match record_field(e, p.subrange(a, b)) {
            None => None,
            Some(x) => if a <= b < p.len() {
                walk_fields(x, p, b + 1)
            } else {
                Some(x)
            },
        }
    } else {
        Some(e)
    }
}

/// The expression a dotted path names: a definition, then record fields.
pub open spec fn target_expression(p: Seq<char>, defs: Seq<DefV>) -> Option<ExprV> {
    let d = find_from(p, '.', 0, p.len() as int);
    match find_def(defs, p.take(d)) {
        None => None,
        Some(e) => if d < p.len() {
            walk_fields(e, p, d + 1)
        } else {
            Some(e)
        },
    }
}

pub open spec fn opt_expr_ok(r: Option<&Expr>, s: Option<ExprV>) -> bool {
    match s {
        Some(x) => r matches Some(y) && ev(*y) == x,
        None => r is None,
    }
}

fn find_def_exec<'a>(hir: &'a HirModule, name: &[char]) -> (r: Option<&'a Expr>)
    ensures
        opt_expr_ok(r, find_def(hdefvs(hir.definitions@), name@)),
{
    let ghost s = hdefvs(hir.definitions@);
    let mut i: usize = 0;
    proof {
        assert(s.skip(0) =~= s);
    }
    while i < hir.definitions.len()
        invariant
            s == hdefvs(hir.definitions@),
            i <= hir.definitions@.len(),
            find_def(s, name@) == find_def(s.skip(i as int), name@),
        decreases hir.definitions@.len() - i,
    {
        proof {
            assert(s.skip(i as int).drop_first() =~= s.skip(i + 1));
            assert(s.skip(i as int)[0] == s[i as int]);
        }
        let n = chars_of(hir.definitions[i].name.as_str());
        if crate::text::chars_eq(n.as_slice(), name) {
            return Some(&hir.definitions[i].expression);
        }
        i = i + 1;
    }
    None
}

fn record_field_exec<'a>(e: &'a Expr, name: &[char]) -> (r: Option<&'a Expr>)
    ensures
        opt_expr_ok(r, record_field(ev(*e), name@)),
{
    let fs = match e {
        Expr::Record(fs) => fs,
        Expr::Constructor { fields, .. } => fields,
        _ => {
            return None;
        },
    };
    let ghost s = fvs(fs@);
    let mut i: usize = 0;
    proof {
        assert(s.skip(0) =~= s);
    }
    while i < fs.len()
        invariant
            s == fvs(fs@),
            record_field(ev(*e), name@) == first_field(s, name@),
            i <= fs@.len(),
            first_field(s, name@) == first_field(s.skip(i as int), name@),
        decreases fs@.len() - i,
    {
        proof {
            assert(s.skip(i as int).drop_first() =~= s.skip(i + 1));
            assert(s.skip(i as int)[0] == s[i as int]);
        }
        let n = chars_of(fs[i].name.as_str());
        if crate::text::chars_eq(n.as_slice(), name) {
            return Some(&fs[i].value);
        }
        i = i + 1;
    }
    None
}

fn target_expression_exec<'a>(p: &[char], hir: &'a HirModule) -> (r: Option<&'a Expr>)
    ensures
        opt_expr_ok(r, target_expression(p@, hdefvs(hir.definitions@))),
{
    let n = p.len();
    let d = find_char_pub(p, '.', 0, n);
    let root = crate::text::copy_range(p, 0, d);
    proof {
        assert(root@ =~= p@.take(d as int));
    }
    let mut e = match find_def_exec(hir, root.as_slice()) {
        None => {
            return None;
        },
        Some(x) => x,
    };
    if d == n {
        return Some(e);
    }
    let mut a: usize = d + 1;
    loop
        invariant
            a <= n,
            n == p@.len(),
            target_expression(p@, hdefvs(hir.definitions@)) == walk_fields(ev(*e), p@, a as int),
        decreases n - a,
    {
        let b = find_char_pub(p, '.', a, n);
        proof {
            crate::toplevel::lemma_find_from(p@, '.', a as int, n as int);
        }
        let part = crate::text::copy_range(p, a, b);
        match record_field_exec(e, part.as_slice()) {
            None => {
                return None;
            },
            Some(x) => {
                if b < n {
                    e = x;
                    a = b + 1;
                } else {
                    return Some(x);
                }
            },
        }
    }
}

/// The initial count of a counting document: the integer piped into its
/// `HOLD`, or 0.
pub open spec fn counter_seed(e: ExprV) -> i64 {
    match e {
        ExprV::Pipe(i, s) => if *s is Hold {
            match *i {
                ExprV::Number(n) => match parse_i64(n) {
                    Some(v) => v,
                    None => 0,
                },
                _ => 0,
            }
        } else {
            0
        },
        _ => 0,
    }
}

fn counter_seed_exec(e: &Expr) -> (r: i64)
    ensures
        r == counter_seed(ev(*e)),
{
    if let Expr::Pipe { input, stage } = e {
        proof {
            assert(ev(*e) == ExprV::Pipe(Box::new(ev(**input)), Box::new(ev(**stage))));
        }
        if let Expr::Hold { .. } = &**stage {
            if let Expr::Number(n) = &**input {
                return match parse_i64_text(n) {
                    Some(v) => v,
                    None => 0,
                };
            }
        }
    }
    0
}

// ---------------------------------------------------------------------------
// Render expressions
// ---------------------------------------------------------------------------

/// The mathematical value of a render expression.
pub enum RExprV {
    Missing,
    Path(Seq<char>),
    Number(Seq<char>),
    Source,
    SourceAt(Box<RExprV>),
    Link(Option<Box<RExprV>>),
    Skip,
    Tag(Seq<char>),
    Text(Seq<char>),
    Record(Seq<(Seq<char>, RExprV)>),
    List(Seq<RExprV>),
    Block(Seq<RExprV>),
    Latest(Seq<RExprV>),
    Call(Seq<char>, Seq<RArgV>),
    Constructor(Seq<char>, Seq<(Seq<char>, RExprV)>),
    FieldAccess(Box<RExprV>, Seq<char>),
    Pipe(Box<RExprV>, Box<RExprV>),
    BinaryAdd(Box<RExprV>, Box<RExprV>),
    BinarySubtract(Box<RExprV>, Box<RExprV>),
    BinaryEqual(Box<RExprV>, Box<RExprV>),
    Then(Seq<RExprV>),
    Hold(Seq<char>, Seq<RExprV>),
    Match(DdRenderMatchKind, Seq<(Seq<char>, RExprV)>),
}

pub enum RArgV {
    Positional(RExprV),
    Named(Seq<char>, RExprV),
}

pub open spec fn rv(x: DdRenderExpr) -> RExprV
    decreases x,
{
    match x {
        DdRenderExpr::Missing => RExprV::Missing,
        DdRenderExpr::Path(p) => RExprV::Path(p@),
        DdRenderExpr::Number(n) => RExprV::Number(n@),
        DdRenderExpr::Source => RExprV::Source,
        DdRenderExpr::SourceAt { target } => RExprV::SourceAt(Box::new(rv(*target))),
        DdRenderExpr::Link { target } => RExprV::Link(
            match target {
                Some(t) => Some(Box::new(rv(*t))),
                None => None,
            },
        ),
        DdRenderExpr::Skip => RExprV::Skip,
        DdRenderExpr::Tag(t) => RExprV::Tag(t@),
        DdRenderExpr::Text(t) => RExprV::Text(t@),
        DdRenderExpr::Record(fs) => RExprV::Record(rfvs(fs@)),
        DdRenderExpr::List(vs) => RExprV::List(rvs(vs@)),
        DdRenderExpr::Block(vs) => RExprV::Block(rvs(vs@)),
        DdRenderExpr::Latest(vs) => RExprV::Latest(rvs(vs@)),
        DdRenderExpr::Call { callee, args } => RExprV::Call(callee@, ravs(args@)),
        DdRenderExpr::Constructor { callee, fields } => RExprV::Constructor(callee@, rfvs(fields@)),
        DdRenderExpr::FieldAccess { base, field } => RExprV::FieldAccess(Box::new(rv(*base)), field@),
        DdRenderExpr::Pipe { input, stage } => RExprV::Pipe(Box::new(rv(*input)), Box::new(rv(*stage))),
        DdRenderExpr::BinaryAdd { left, right } => RExprV::BinaryAdd(Box::new(rv(*left)), Box::new(rv(*right))),
        DdRenderExpr::BinarySubtract { left, right } => RExprV::BinarySubtract(
            Box::new(rv(*left)),
            Box::new(rv(*right)),
        ),
        DdRenderExpr::BinaryEqual { left, right } => RExprV::BinaryEqual(
            Box::new(rv(*left)),
            Box::new(rv(*right)),
        ),
        DdRenderExpr::Then { body } => RExprV::Then(rvs(body@)),
        DdRenderExpr::Hold { binder, body } => RExprV::Hold(binder@, rvs(body@)),
        DdRenderExpr::Match { kind, arms } => RExprV::Match(kind, rmvs(arms@)),
    }
}

pub open spec fn rvs(vs: Seq<DdRenderExpr>) -> Seq<RExprV>
    decreases vs,
{
    Seq::new(
        vs.len(),
        |i: int|
            if 0 <= i < vs.len() {
                rv(vs[i])
            } else {
                RExprV::Missing
            },
    )
}

pub open spec fn rfvs(fs: Seq<DdRenderField>) -> Seq<(Seq<char>, RExprV)>
    decreases fs,
{
    Seq::new(
        fs.len(),
        |i: int|
            if 0 <= i < fs.len() {
                (fs[i].name@, rv(fs[i].value))
            } else {
                (Seq::empty(), RExprV::Missing)
            },
    )
}

pub open spec fn ravs(args: Seq<DdRenderArg>) -> Seq<RArgV>
    decreases args,
{
    Seq::new(
        args.len(),
        |i: int|
            if 0 <= i < args.len() {
                match args[i] {
                    DdRenderArg::Positional(v) => RArgV::Positional(rv(v)),
                    DdRenderArg::Named { name, value } => RArgV::Named(name@, rv(value)),
                }
            } else {
                RArgV::Positional(RExprV::Missing)
            },
    )
}

pub open spec fn rmvs(arms: Seq<DdRenderMatchArm>) -> Seq<(Seq<char>, RExprV)>
    decreases arms,
{
    Seq::new(
        arms.len(),
        |i: int|
            if 0 <= i < arms.len() {
                (arms[i].pattern@, rv(arms[i].value))
            } else {
                (Seq::empty(), RExprV::Missing)
            },
    )
}

pub open spec fn render_kind(k: MatchKind) -> DdRenderMatchKind {
    match k {
        MatchKind::When => DdRenderMatchKind::When,
        MatchKind::While => DdRenderMatchKind::While,
    }
}

pub open spec fn both<A, B>(a: Option<A>, b: Option<B>) -> Option<(A, B)> {
    match a {
        Some(x) => match b {
            Some(y) => Some((x, y)),
            None => None,
        },
        None => None,
    }
}

/// The render expression of an expression. A path that names an expression
/// of the module is replaced by that expression's render expression; `fuel`
/// bounds how deep such replacements nest, and there is no result where it
/// runs out.
pub open spec fn render(e: ExprV, defs: Seq<DefV>, fuel: nat) -> Option<RExprV>
    decreases fuel, e,
{
    match e {
        ExprV::Missing => Some(RExprV::Missing),
        ExprV::Path(p) => match target_expression(p, defs) {
            Some(x) => if fuel > 0 {
                render(x, defs, (fuel - 1) as nat)
            } else {
                None
            },
            None => Some(RExprV::Path(p)),
        },
        ExprV::Number(n) => Some(RExprV::Number(n)),
        ExprV::Source => Some(RExprV::Source),
        ExprV::SourceAt(t) => match render(*t, defs, fuel) {
            Some(r) => Some(RExprV::SourceAt(Box::new(r))),
            None => None,
        },
        ExprV::Link(t) => match t {
            Some(t) => match render(*t, defs, fuel) {
                Some(r) => Some(RExprV::Link(Some(Box::new(r)))),
                None => None,
            },
            None => Some(RExprV::Link(None)),
        },
        ExprV::Skip => Some(RExprV::Skip),
        ExprV::Tag(t) => Some(RExprV::Tag(t)),
        ExprV::Text(t) => Some(RExprV::Text(t)),
        ExprV::Record(fs) => match render_fields(fs, defs, fuel) {
            Some(r) => Some(RExprV::Record(r)),
            None => None,
        },
        ExprV::List(vs) => match render_list(vs, defs, fuel) {
            Some(r) => Some(RExprV::List(r)),
            None => None,
        },
        ExprV::Block(vs) => match render_list(vs, defs, fuel) {
            Some(r) => Some(RExprV::Block(r)),
            None => None,
        },
        ExprV::Latest(vs) => match render_list(vs, defs, fuel) {
            Some(r) => Some(RExprV::Latest(r)),
            None => None,
        },
        ExprV::Call(c, args) => match render_args(args, defs, fuel) {
            Some(r) => Some(RExprV::Call(c, r)),
            None => None,
        },
        ExprV::Constructor(c, fs) => match render_fields(fs, defs, fuel) {
            Some(r) => Some(RExprV::Constructor(c, r)),
            None => None,
        },
        ExprV::FieldAccess(b, f) => match render(*b, defs, fuel) {
            Some(r) => Some(RExprV::FieldAccess(Box::new(r), f)),
            None => None,
        },
        ExprV::Pipe(i, s) => match both(render(*i, defs, fuel), render(*s, defs, fuel)) {
            Some(x) => Some(RExprV::Pipe(Box::new(x.0), Box::new(x.1))),
            None => None,
        },
        ExprV::Binary(op, l, r) => match both(render(*l, defs, fuel), render(*r, defs, fuel)) {
            Some(x) => Some(
                match op {
                    BinaryOp::Add => RExprV::BinaryAdd(Box::new(x.0), Box::new(x.1)),
                    BinaryOp::Subtract => RExprV::BinarySubtract(Box::new(x.0), Box::new(x.1)),
                    BinaryOp::Equal => RExprV::BinaryEqual(Box::new(x.0), Box::new(x.1)),
                },
            ),
            None => None,
        },
        ExprV::Then(body) => match render_list(body, defs, fuel) {
            Some(r) => Some(RExprV::Then(r)),
            None => None,
        },
        ExprV::Hold(b, body) => match render_list(body, defs, fuel) {
            Some(r) => Some(RExprV::Hold(b, r)),
            None => None,
        },
        ExprV::Match(k, arms) => match render_arms(arms, defs, fuel) {
            Some(r) => Some(RExprV::Match(render_kind(k), r)),
            None => None,
        },
    }
}

pub open spec fn render_list(vs: Seq<ExprV>, defs: Seq<DefV>, fuel: nat) -> Option<Seq<RExprV>>
    decreases fuel, vs,
{
    if vs.len() == 0 {
        Some(Seq::empty())
    } else {
        match both(render_list(vs.drop_last(), defs, fuel), render(vs[vs.len() - 1], defs, fuel)) {
            Some(x) => Some(x.0.push(x.1)),
            None => None,
        }
    }
}

pub open spec fn render_fields(fs: Seq<FieldV>, defs: Seq<DefV>, fuel: nat) -> Option<
    Seq<(Seq<char>, RExprV)>,
>
    decreases fuel, fs,
{
    if fs.len() == 0 {
        Some(Seq::empty())
    } else {
        let f = fs[fs.len() - 1];
        match both(render_fields(fs.drop_last(), defs, fuel), render(f.value, defs, fuel)) {
            Some(x) => Some(x.0.push((f.name, x.1))),
            None => None,
        }
    }
}

pub open spec fn render_args(args: Seq<ArgV>, defs: Seq<DefV>, fuel: nat) -> Option<Seq<RArgV>>
    decreases fuel, args,
{
    if args.len() == 0 {
        Some(Seq::empty())
    } else {
        let last = match args[args.len() - 1] {
            ArgV::Positional(v) => match render(v, defs, fuel) {
                Some(r) => Some(RArgV::Positional(r)),
                None => None,
            },
            ArgV::Named(n, v) => match render(v, defs, fuel) {
                Some(r) => Some(RArgV::Named(n, r)),
                None => None,
            },
        };
        match both(render_args(args.drop_last(), defs, fuel), last) {
            Some(x) => Some(x.0.push(x.1)),
            None => None,
        }
    }
}

pub open spec fn render_arms(arms: Seq<ArmV>, defs: Seq<DefV>, fuel: nat) -> Option<
    Seq<(Seq<char>, RExprV)>,
>
    decreases fuel, arms,
{
    if arms.len() == 0 {
        Some(Seq::empty())
    } else {
        let a = arms[arms.len() - 1];
        match both(render_arms(arms.drop_last(), defs, fuel), render(a.value, defs, fuel)) {
            Some(x) => Some(x.0.push((a.pattern, x.1))),
            None => None,
        }
    }
}

/// The render expression of `e`, where `fuel` is enough for its path
/// replacements.
fn render_expr(e: &Expr, hir: &HirModule, Ghost(fuel): Ghost<nat>) -> (r: DdRenderExpr)
    requires
        render(ev(*e), hdefvs(hir.definitions@), fuel) is Some,
    ensures
        rv(r) == render(ev(*e), hdefvs(hir.definitions@), fuel).unwrap(),
    decreases fuel, e,
{
    let ghost defs = hdefvs(hir.definitions@);
    match e {
        Expr::Missing => DdRenderExpr::Missing,
        Expr::Path(p) => {
            let pc = chars_of(p.as_str());
            match target_expression_exec(pc.as_slice(), hir) {
                Some(x) => render_expr(x, hir, Ghost((fuel - 1) as nat)),
                None => DdRenderExpr::Path(copy_string(p)),
            }
        },
        Expr::Number(n) => DdRenderExpr::Number(copy_string(n)),
        Expr::Source => DdRenderExpr::Source,
        Expr::SourceAt { target } => DdRenderExpr::SourceAt {
            target: Box::new(render_expr(target, hir, Ghost(fuel))),
        },
        Expr::Link { target } => match target {
            Some(t) => DdRenderExpr::Link { target: Some(Box::new(render_expr(t, hir, Ghost(fuel)))) },
            None => DdRenderExpr::Link { target: None },
        },
        Expr::Skip => DdRenderExpr::Skip,
        Expr::Tag(t) => DdRenderExpr::Tag(copy_string(t)),
        Expr::Text(t) => DdRenderExpr::Text(copy_string(t)),
        Expr::Record(fs) => DdRenderExpr::Record(render_fields_exec(fs, hir, Ghost(fuel))),
        Expr::List(vs) => DdRenderExpr::List(render_exprs(vs, hir, Ghost(fuel))),
        Expr::Block(vs) => DdRenderExpr::Block(render_exprs(vs, hir, Ghost(fuel))),
        Expr::Latest(vs) => DdRenderExpr::Latest(render_exprs(vs, hir, Ghost(fuel))),
        Expr::Call { callee, args } => DdRenderExpr::Call {
            callee: copy_string(callee),
            args: render_args_exec(args, hir, Ghost(fuel)),
        },
        Expr::Constructor { callee, fields } => DdRenderExpr::Constructor {
            callee: copy_string(callee),
            fields: render_fields_exec(fields, hir, Ghost(fuel)),
        },
        Expr::FieldAccess { base, field } => DdRenderExpr::FieldAccess {
            base: Box::new(render_expr(base, hir, Ghost(fuel))),
            field: copy_string(field),
        },
        Expr::Pipe { input, stage } => {
            let i = render_expr(input, hir, Ghost(fuel));
            let s = render_expr(stage, hir, Ghost(fuel));
            DdRenderExpr::Pipe { input: Box::new(i), stage: Box::new(s) }
        },
        Expr::Binary { op, left, right } => {
            let l = render_expr(left, hir, Ghost(fuel));
            let r = render_expr(right, hir, Ghost(fuel));
            match op {
                BinaryOp::Add => DdRenderExpr::BinaryAdd { left: Box::new(l), right: Box::new(r) },
                BinaryOp::Subtract => DdRenderExpr::BinarySubtract {
                    left: Box::new(l),
                    right: Box::new(r),
                },
                BinaryOp::Equal => DdRenderExpr::BinaryEqual { left: Box::new(l), right: Box::new(r) },
            }
        },
        Expr::Then { body } => DdRenderExpr::Then { body: render_exprs(body, hir, Ghost(fuel)) },
        Expr::Hold { binder, body } => DdRenderExpr::Hold {
            binder: copy_string(binder),
            body: render_exprs(body, hir, Ghost(fuel)),
        },
        Expr::Match { kind, arms } => DdRenderExpr::Match {
            kind: match kind {
                MatchKind::When => DdRenderMatchKind::When,
                MatchKind::While => DdRenderMatchKind::While,
            },
            arms: render_arms_exec(arms, hir, Ghost(fuel)),
        },
    }
}

proof fn lemma_render_list_prefix(vs: Seq<ExprV>, defs: Seq<DefV>, fuel: nat, i: int)
    requires
        render_list(vs, defs, fuel) is Some,
        0 <= i <= vs.len(),
    ensures
        render_list(vs.take(i), defs, fuel) is Some,
        i < vs.len() ==> render(vs[i], defs, fuel) is Some,
    decreases vs.len() - i,
{
    if i < vs.len() {
        lemma_render_list_prefix(vs, defs, fuel, i + 1);
        assert(vs.take(i + 1).drop_last() =~= vs.take(i));
        assert(vs.take(i + 1)[i] == vs[i]);
    } else {
        assert(vs.take(i) =~= vs);
    }
}

fn render_exprs(vs: &Vec<Expr>, hir: &HirModule, Ghost(fuel): Ghost<nat>) -> (r: Vec<DdRenderExpr>)
    requires
        render_list(evs(vs@), hdefvs(hir.definitions@), fuel) is Some,
    ensures
        rvs(r@) == render_list(evs(vs@), hdefvs(hir.definitions@), fuel).unwrap(),
    decreases fuel, vs,
{
    let ghost s = evs(vs@);
    let ghost defs = hdefvs(hir.definitions@);
    let mut out: Vec<DdRenderExpr> = Vec::new();
    let mut i: usize = 0;
    proof {
        assert(s.take(0) =~= Seq::<ExprV>::empty());
        assert(rvs(out@) =~= Seq::<RExprV>::empty());
    }
    while i < vs.len()
        invariant
            s == evs(vs@),
            defs == hdefvs(hir.definitions@),
            render_list(s, defs, fuel) is Some,
            i <= vs@.len(),
            render_list(s.take(i as int), defs, fuel) == Some(rvs(out@)),
        decreases vs@.len() - i,
    {
        proof {
            assert(decreases_to!(vs@ => vs@[i as int]));
            assert(decreases_to!(*vs => vs@));
            lemma_render_list_prefix(s, defs, fuel, i as int);
            assert(s.take(i + 1).drop_last() =~= s.take(i as int));
            assert(s[i as int] == ev(vs@[i as int]));
        }
        let x = render_expr(&vs[i], hir, Ghost(fuel));
        proof {
            assert(rvs(out@.push(x)) =~= rvs(out@).push(rv(x)));
        }
        out.push(x);
        i = i + 1;
    }
    proof {
        assert(s.take(i as int) =~= s);
    }
    out
}

proof fn lemma_render_fields_prefix(fs: Seq<FieldV>, defs: Seq<DefV>, fuel: nat, i: int)
    requires
        render_fields(fs, defs, fuel) is Some,
        0 <= i <= fs.len(),
    ensures
        render_fields(fs.take(i), defs, fuel) is Some,
        i < fs.len() ==> render(fs[i].value, defs, fuel) is Some,
    decreases fs.len() - i,
{
    if i < fs.len() {
        lemma_render_fields_prefix(fs, defs, fuel, i + 1);
        assert(fs.take(i + 1).drop_last() =~= fs.take(i));
        assert(fs.take(i + 1)[i] == fs[i]);
    } else {
        assert(fs.take(i) =~= fs);
    }
}

fn render_fields_exec(fs: &Vec<RecordField>, hir: &HirModule, Ghost(fuel): Ghost<nat>) -> (r: Vec<
    DdRenderField,
>)
    requires
        render_fields(fvs(fs@), hdefvs(hir.definitions@), fuel) is Some,
    ensures
        rfvs(r@) == render_fields(fvs(fs@), hdefvs(hir.definitions@), fuel).unwrap(),
    decreases fuel, fs,
{
    let ghost s = fvs(fs@);
    let ghost defs = hdefvs(hir.definitions@);
    let mut out: Vec<DdRenderField> = Vec::new();
    let mut i: usize = 0;
    proof {
        assert(s.take(0) =~= Seq::<FieldV>::empty());
        assert(rfvs(out@) =~= Seq::<(Seq<char>, RExprV)>::empty());
    }
    while i < fs.len()
        invariant
            s == fvs(fs@),
            defs == hdefvs(hir.definitions@),
            render_fields(s, defs, fuel) is Some,
            i <= fs@.len(),
            render_fields(s.take(i as int), defs, fuel) == Some(rfvs(out@)),
        decreases fs@.len() - i,
    {
        proof {
            assert(decreases_to!(fs@[i as int] => fs@[i as int].value));
            assert(decreases_to!(fs@ => fs@[i as int]));
            assert(decreases_to!(*fs => fs@));
            lemma_render_fields_prefix(s, defs, fuel, i as int);
            assert(s.take(i + 1).drop_last() =~= s.take(i as int));
            assert(s[i as int].value == ev(fs@[i as int].value));
            assert(s[i as int].name == fs@[i as int].name@);
        }
        let v = render_expr(&fs[i].value, hir, Ghost(fuel));
        let x = DdRenderField { name: copy_string(&fs[i].name), value: v };
        proof {
            assert(rfvs(out@.push(x)) =~= rfvs(out@).push((x.name@, rv(x.value))));
        }
        out.push(x);
        i = i + 1;
    }
    proof {
        assert(s.take(i as int) =~= s);
    }
    out
}

proof fn lemma_render_args_prefix(args: Seq<ArgV>, defs: Seq<DefV>, fuel: nat, i: int)
    requires
        render_args(args, defs, fuel) is Some,
        0 <= i <= args.len(),
    ensures
        render_args(args.take(i), defs, fuel) is Some,
        i < args.len() ==> (match args[i] {
            ArgV::Positional(v) => render(v, defs, fuel) is Some,
            ArgV::Named(_, v) => render(v, defs, fuel) is Some,
        }),
    decreases args.len() - i,
{
    if i < args.len() {
        lemma_render_args_prefix(args, defs, fuel, i + 1);
        assert(args.take(i + 1).drop_last() =~= args.take(i));
        assert(args.take(i + 1)[i] == args[i]);
    } else {
        assert(args.take(i) =~= args);
    }
}

fn render_args_exec(args: &Vec<CallArg>, hir: &HirModule, Ghost(fuel): Ghost<nat>) -> (r: Vec<
    DdRenderArg,
>)
    requires
        render_args(avs(args@), hdefvs(hir.definitions@), fuel) is Some,
    ensures
        ravs(r@) == render_args(avs(args@), hdefvs(hir.definitions@), fuel).unwrap(),
    decreases fuel, args,
{
    let ghost s = avs(args@);
    let ghost defs = hdefvs(hir.definitions@);
    let mut out: Vec<DdRenderArg> = Vec::new();
    let mut i: usize = 0;
    proof {
        assert(s.take(0) =~= Seq::<ArgV>::empty());
        assert(ravs(out@) =~= Seq::<RArgV>::empty());
    }
    while i < args.len()
        invariant
            s == avs(args@),
            defs == hdefvs(hir.definitions@),
            render_args(s, defs, fuel) is Some,
            i <= args@.len(),
            render_args(s.take(i as int), defs, fuel) == Some(ravs(out@)),
        decreases args@.len() - i,
    {
        proof {
            assert(decreases_to!(args@ => args@[i as int]));
            assert(decreases_to!(*args => args@));
            lemma_render_args_prefix(s, defs, fuel, i as int);
            assert(s.take(i + 1).drop_last() =~= s.take(i as int));
        }
        let x = match &args[i] {
            CallArg::Positional(v) => {
                proof {
                    assert(decreases_to!(args@[i as int] => *v));
                }
                DdRenderArg::Positional(render_expr(v, hir, Ghost(fuel)))
            },
            CallArg::Named { name, value } => {
                proof {
                    assert(decreases_to!(args@[i as int] => *value));
                }
                DdRenderArg::Named { name: copy_string(name), value: render_expr(value, hir, Ghost(fuel)) }
            },
        };
        proof {
            assert(ravs(out@.push(x)) =~= ravs(out@).push(
                match x {
                    DdRenderArg::Positional(v) => RArgV::Positional(rv(v)),
                    DdRenderArg::Named { name, value } => RArgV::Named(name@, rv(value)),
                },
            ));
        }
        out.push(x);
        i = i + 1;
    }
    proof {
        assert(s.take(i as int) =~= s);
    }
    out
}

proof fn lemma_render_arms_prefix(arms: Seq<ArmV>, defs: Seq<DefV>, fuel: nat, i: int)
    requires
        render_arms(arms, defs, fuel) is Some,
        0 <= i <= arms.len(),
    ensures
        render_arms(arms.take(i), defs, fuel) is Some,
        i < arms.len() ==> render(arms[i].value, defs, fuel) is Some,
    decreases arms.len() - i,
{
    if i < arms.len() {
        lemma_render_arms_prefix(arms, defs, fuel, i + 1);
        assert(arms.take(i + 1).drop_last() =~= arms.take(i));
        assert(arms.take(i + 1)[i] == arms[i]);
    } else {
        assert(arms.take(i) =~= arms);
    }
}

fn render_arms_exec(arms: &Vec<MatchArm>, hir: &HirModule, Ghost(fuel): Ghost<nat>) -> (r: Vec<
    DdRenderMatchArm,
>)
    requires
        render_arms(mvs(arms@), hdefvs(hir.definitions@), fuel) is Some,
    ensures
        rmvs(r@) == render_arms(mvs(arms@), hdefvs(hir.definitions@), fuel).unwrap(),
    decreases fuel, arms,
{
    let ghost s = mvs(arms@);
    let ghost defs = hdefvs(hir.definitions@);
    let mut out: Vec<DdRenderMatchArm> = Vec::new();
    let mut i: usize = 0;
    proof {
        assert(s.take(0) =~= Seq::<ArmV>::empty());
        assert(rmvs(out@) =~= Seq::<(Seq<char>, RExprV)>::empty());
    }
    while i < arms.len()
        invariant
            s == mvs(arms@),
            defs == hdefvs(hir.definitions@),
            render_arms(s, defs, fuel) is Some,
            i <= arms@.len(),
            render_arms(s.take(i as int), defs, fuel) == Some(rmvs(out@)),
        decreases arms@.len() - i,
    {
        proof {
            assert(decreases_to!(arms@[i as int] => arms@[i as int].value));
            assert(decreases_to!(arms@ => arms@[i as int]));
            assert(decreases_to!(*arms => arms@));
            lemma_render_arms_prefix(s, defs, fuel, i as int);
            assert(s.take(i + 1).drop_last() =~= s.take(i as int));
            assert(s[i as int].value == ev(arms@[i as int].value));
            assert(s[i as int].pattern == arms@[i as int].pattern@);
        }
        let v = render_expr(&arms[i].value, hir, Ghost(fuel));
        let x = DdRenderMatchArm { pattern: copy_string(&arms[i].pattern), value: v };
        proof {
            assert(rmvs(out@.push(x)) =~= rmvs(out@).push((x.pattern@, rv(x.value))));
        }
        out.push(x);
        i = i + 1;
    }
    proof {
        assert(s.take(i as int) =~= s);
    }
    out
}

// ---------------------------------------------------------------------------
// Operators
// ---------------------------------------------------------------------------

/// `kinds` with `k` added at the end, unless it is there already.
pub open spec fn add_kind(kinds: Seq<GraphOperatorKind>, k: GraphOperatorKind) -> Seq<
    GraphOperatorKind,
> {
    if kinds.contains(k) {
        kinds
    } else {
        kinds.push(k)
    }
}

pub open spec fn call_kind(c: Seq<char>) -> GraphOperatorKind {
    if c == "List/append"@ {
        GraphOperatorKind::ListAppend
    } else if c == "List/remove"@ {
        GraphOperatorKind::ListRemove
    } else if c == "List/map"@ {
        GraphOperatorKind::ListMap
    } else if c == "List/retain"@ {
        GraphOperatorKind::ListRetain
    } else {
        GraphOperatorKind::LibraryCall
    }
}

pub open spec fn has_number_one(vs: Seq<ExprV>) -> bool {
    exists|i: int| 0 <= i < vs.len() && #[trigger] vs[i] == ExprV::Number("1"@)
}

/// The operator kinds an expression needs, added to `seen` in the order in
/// which a pre-order walk meets them.
pub open spec fn op_visit(e: ExprV, seen: Seq<GraphOperatorKind>) -> Seq<GraphOperatorKind>
    decreases e,
{
    match e {
        ExprV::Source => add_kind(seen, GraphOperatorKind::SourceLeaf),
        ExprV::Then(body) => {
            let s1 = add_kind(seen, GraphOperatorKind::Then);
            let s2 = if has_number_one(body) {
                add_kind(s1, GraphOperatorKind::ThenConst)
            } else {
                s1
            };
            ov_list(body, s2)
        },
        ExprV::Hold(_, body) => ov_list(
            body,
            add_kind(add_kind(seen, GraphOperatorKind::Hold), GraphOperatorKind::PersistTap),
        ),
        ExprV::Latest(vs) => ov_list(vs, add_kind(seen, GraphOperatorKind::Latest)),
        ExprV::Match(k, arms) => ov_arms(
            arms,
            add_kind(
                seen,
                match k {
                    MatchKind::When => GraphOperatorKind::When,
                    MatchKind::While => GraphOperatorKind::WhileSwitch,
                },
            ),
        ),
        ExprV::Call(c, args) => ov_args(args, add_kind(seen, call_kind(c))),
        ExprV::Constructor(_, fs) => ov_fields(fs, seen),
        ExprV::Record(fs) => ov_fields(fs, seen),
        ExprV::List(vs) => ov_list(vs, seen),
        ExprV::Block(vs) => ov_list(vs, seen),
        ExprV::Pipe(i, s) => op_visit(*s, op_visit(*i, seen)),
        ExprV::Binary(_, l, r) => op_visit(*r, op_visit(*l, add_kind(seen, GraphOperatorKind::BinaryAdd))),
        ExprV::SourceAt(t) => op_visit(*t, seen),
        ExprV::Link(t) => match t {
            Some(t) => op_visit(*t, seen),
            None => seen,
        },
        ExprV::FieldAccess(b, _) => op_visit(*b, seen),
        _ => seen,
    }
}

pub open spec fn ov_list(vs: Seq<ExprV>, seen: Seq<GraphOperatorKind>) -> Seq<GraphOperatorKind>
    decreases vs,
{
    if vs.len() == 0 {
        seen
    } else {
        op_visit(vs[vs.len() - 1], ov_list(vs.drop_last(), seen))
    }
}

pub open spec fn ov_fields(fs: Seq<FieldV>, seen: Seq<GraphOperatorKind>) -> Seq<GraphOperatorKind>
    decreases fs,
{
    if fs.len() == 0 {
        seen
    } else {
        op_visit(fs[fs.len() - 1].value, ov_fields(fs.drop_last(), seen))
    }
}

pub open spec fn ov_args(args: Seq<ArgV>, seen: Seq<GraphOperatorKind>) -> Seq<GraphOperatorKind>
    decreases args,
{
    if args.len() == 0 {
        seen
    } else {
        let prev = ov_args(args.drop_last(), seen);
        match args[args.len() - 1] {
            ArgV::Positional(v) => op_visit(v, prev),
            ArgV::Named(_, v) => op_visit(v, prev),
        }
    }
}

pub open spec fn ov_arms(arms: Seq<ArmV>, seen: Seq<GraphOperatorKind>) -> Seq<GraphOperatorKind>
    decreases arms,
{
    if arms.len() == 0 {
        seen
    } else {
        op_visit(arms[arms.len() - 1].value, ov_arms(arms.drop_last(), seen))
    }
}

/// The operator kinds the definitions need, in the order they are met.
pub open spec fn ov_defs(defs: Seq<DefV>) -> Seq<GraphOperatorKind>
    decreases defs.len(),
{
    if defs.len() == 0 {
        Seq::empty()
    } else {
        op_visit(defs[defs.len() - 1].expr, ov_defs(defs.drop_last()))
    }
}

/// The operator table: each kind with its node name and its order.
pub open spec fn op_table() -> Seq<(GraphOperatorKind, Seq<char>, u32)> {
    seq![
        (GraphOperatorKind::SourceLeaf, "SourceLeaf"@, 0u32),
        (GraphOperatorKind::Then, "Then"@, 10u32),
        (GraphOperatorKind::ThenConst, "ThenConst"@, 11u32),
        (GraphOperatorKind::When, "When"@, 20u32),
        (GraphOperatorKind::WhileSwitch, "WhileSwitch"@, 21u32),
        (GraphOperatorKind::Latest, "Latest"@, 22u32),
        (GraphOperatorKind::Hold, "Hold"@, 30u32),
        (GraphOperatorKind::ListAppend, "ListAppend"@, 40u32),
        (GraphOperatorKind::ListRemove, "ListRemove"@, 41u32),
        (GraphOperatorKind::ListMap, "ListMap"@, 42u32),
        (GraphOperatorKind::ListRetain, "ListRetain"@, 43u32),
        (GraphOperatorKind::LibraryCall, "LibraryCall"@, 70u32),
        (GraphOperatorKind::BinaryAdd, "BinaryAdd"@, 80u32),
        (GraphOperatorKind::PersistTap, "PersistTap"@, 90u32),
        (GraphOperatorKind::RenderSink, "RenderSink"@, 100u32),
        (GraphOperatorKind::MonitorTap, "MonitorTap"@, 101u32),
    ]
}

/// An operator as the graph lists it.
pub struct OperatorV {
    pub node: Seq<char>,
    pub kind: GraphOperatorKind,
    pub inputs: Seq<Seq<char>>,
    pub output: Seq<char>,
    pub order: u32,
}

pub open spec fn operator_v(o: GraphOperator) -> OperatorV {
    OperatorV {
        node: o.node.0@,
        kind: o.kind,
        inputs: o.inputs@.map_values(|n: NodeId| n.0@),
        output: o.output.0@,
        order: o.order,
    }
}

pub open spec fn operators_v(os: Seq<GraphOperator>) -> Seq<OperatorV> {
    os.map_values(|o: GraphOperator| operator_v(o))
}

pub open spec fn kept(seen: Seq<GraphOperatorKind>, k: GraphOperatorKind) -> bool {
    seen.contains(k) || k == GraphOperatorKind::RenderSink || k == GraphOperatorKind::MonitorTap
}

/// The rows of the table, up to `n`, whose kind was seen (the render sink and
/// the monitor tap always), as operators with no inputs.
pub open spec fn table_ops(seen: Seq<GraphOperatorKind>, n: int) -> Seq<OperatorV>
    decreases n,
{
    if n <= 0 {
        Seq::empty()
    } else {
        let prev = table_ops(seen, n - 1);
        let row = op_table()[n - 1];
        if kept(seen, row.0) {
            prev.push(
                OperatorV { node: row.1, kind: row.0, inputs: Seq::empty(), output: row.1, order: row.2 },
            )
        } else {
            prev
        }
    }
}

/// The operators of a module's graph, in table order.
pub open spec fn graph_ops(defs: Seq<DefV>) -> Seq<OperatorV> {
    table_ops(ov_defs(defs), 16)
}

/// The table's orders increase strictly down its rows.
proof fn lemma_table_orders_increase(k: int)
    requires
        0 <= k < 15,
    ensures
        op_table()[k].2 < op_table()[k + 1].2,
{
    let t = op_table();
    assert(t[0].2 == 0 && t[1].2 == 10 && t[2].2 == 11 && t[3].2 == 20 && t[4].2 == 21);
    assert(t[5].2 == 22 && t[6].2 == 30 && t[7].2 == 40 && t[8].2 == 41 && t[9].2 == 42);
    assert(t[10].2 == 43 && t[11].2 == 70 && t[12].2 == 80 && t[13].2 == 90);
    assert(t[14].2 == 100 && t[15].2 == 101);
}

/// The rows taken up to `n` keep the table's strictly increasing order, all
/// below the order of row `n`.
proof fn lemma_table_ops_ordered(seen: Seq<GraphOperatorKind>, n: int)
    requires
        0 <= n <= 16,
    ensures
        forall|i: int, j: int|
            0 <= i < j < table_ops(seen, n).len() ==> #[trigger] table_ops(seen, n)[i].order
                < #[trigger] table_ops(seen, n)[j].order,
        forall|i: int|
            0 <= i < table_ops(seen, n).len() ==> n > 0 && #[trigger] table_ops(seen, n)[i].order
                <= op_table()[n - 1].2,
    decreases n,
{
    if n > 0 {
        lemma_table_ops_ordered(seen, n - 1);
        if n > 1 {
            lemma_table_orders_increase(n - 2);
        }
    }
}

/// Every module's graph lists its operators in strictly increasing order,
/// ending with the render sink and then the monitor tap.
pub proof fn lemma_graph_operators_ordered(defs: Seq<DefV>)
    ensures
        forall|i: int, j: int|
            0 <= i < j < graph_ops(defs).len() ==> #[trigger] graph_ops(defs)[i].order
                < #[trigger] graph_ops(defs)[j].order,
        graph_ops(defs).len() >= 2,
        graph_ops(defs)[graph_ops(defs).len() - 2].kind == GraphOperatorKind::RenderSink,
        graph_ops(defs)[graph_ops(defs).len() - 1].kind == GraphOperatorKind::MonitorTap,
{
    let seen = ov_defs(defs);
    lemma_table_ops_ordered(seen, 16);
    let t = op_table();
    assert(t[14].0 == GraphOperatorKind::RenderSink && t[15].0 == GraphOperatorKind::MonitorTap);
    assert(table_ops(seen, 16) == table_ops(seen, 15).push(
        OperatorV { node: t[15].1, kind: t[15].0, inputs: Seq::empty(), output: t[15].1, order: t[15].2 },
    ));
    assert(table_ops(seen, 15) == table_ops(seen, 14).push(
        OperatorV { node: t[14].1, kind: t[14].0, inputs: Seq::empty(), output: t[14].1, order: t[14].2 },
    ));
}

fn table_row(i: usize) -> (r: (GraphOperatorKind, &'static str, u32))
    requires
        i < 16,
    ensures
        r.0 == op_table()[i as int].0,
        r.1@ == op_table()[i as int].1,
        r.2 == op_table()[i as int].2,
{
    proof {
        reveal_strlit("SourceLeaf");
        reveal_strlit("Then");
        reveal_strlit("ThenConst");
        reveal_strlit("When");
        reveal_strlit("WhileSwitch");
        reveal_strlit("Latest");
        reveal_strlit("Hold");
        reveal_strlit("ListAppend");
        reveal_strlit("ListRemove");
        reveal_strlit("ListMap");
        reveal_strlit("ListRetain");
        reveal_strlit("LibraryCall");
        reveal_strlit("BinaryAdd");
        reveal_strlit("PersistTap");
        reveal_strlit("RenderSink");
        reveal_strlit("MonitorTap");
    }
    if i == 0 {
        (GraphOperatorKind::SourceLeaf, "SourceLeaf", 0)
    } else if i == 1 {
        (GraphOperatorKind::Then, "Then", 10)
    } else if i == 2 {
        (GraphOperatorKind::ThenConst, "ThenConst", 11)
    } else if i == 3 {
        (GraphOperatorKind::When, "When", 20)
    } else if i == 4 {
        (GraphOperatorKind::WhileSwitch, "WhileSwitch", 21)
    } else if i == 5 {
        (GraphOperatorKind::Latest, "Latest", 22)
    } else if i == 6 {
        (GraphOperatorKind::Hold, "Hold", 30)
    } else if i == 7 {
        (GraphOperatorKind::ListAppend, "ListAppend", 40)
    } else if i == 8 {
        (GraphOperatorKind::ListRemove, "ListRemove", 41)
    } else if i == 9 {
        (GraphOperatorKind::ListMap, "ListMap", 42)
    } else if i == 10 {
        (GraphOperatorKind::ListRetain, "ListRetain", 43)
    } else if i == 11 {
        (GraphOperatorKind::LibraryCall, "LibraryCall", 70)
    } else if i == 12 {
        (GraphOperatorKind::BinaryAdd, "BinaryAdd", 80)
    } else if i == 13 {
        (GraphOperatorKind::PersistTap, "PersistTap", 90)
    } else if i == 14 {
        (GraphOperatorKind::RenderSink, "RenderSink", 100)
    } else {
        (GraphOperatorKind::MonitorTap, "MonitorTap", 101)
    }
}

/// Collects the operator kinds a module needs.
struct OperatorBuilder {
    seen: Vec<GraphOperatorKind>,
}

impl OperatorBuilder {
    fn add(&mut self, kind: GraphOperatorKind)
        ensures
            final(self).seen@ == add_kind(old(self).seen@, kind),
    {
        let mut i: usize = 0;
        while i < self.seen.len()
            invariant
                i <= self.seen@.len(),
                forall|j: int| 0 <= j < i ==> self.seen@[j] != kind,
            decreases self.seen@.len() - i,
        {
            if self.seen[i] == kind {
                proof {
                    assert(self.seen@.contains(kind));
                }
                return;
            }
            i = i + 1;
        }
        self.seen.push(kind);
    }

    fn visit(&mut self, e: &Expr)
        ensures
            final(self).seen@ == op_visit(ev(*e), old(self).seen@),
        decreases e, 0int,
    {
        match e {
            Expr::Source => self.add(GraphOperatorKind::SourceLeaf),
            Expr::Then { body } => {
                self.add(GraphOperatorKind::Then);
                let mut one = false;
                let mut i: usize = 0;
                while i < body.len()
                    invariant
                        i <= body@.len(),
                        one == (exists|j: int| 0 <= j < i && #[trigger] evs(body@)[j] == ExprV::Number("1"@)),
                    decreases body@.len() - i,
                {
                    if let Expr::Number(n) = &body[i] {
                        if string_eq_str(n, "1") {
                            proof {
                                assert(evs(body@)[i as int] == ExprV::Number("1"@));
                            }
                            one = true;
                        }
                    }
                    proof {
                        if evs(body@)[i as int] == ExprV::Number("1"@) {
                            assert(body@[i as int] matches Expr::Number(n) && n@ == "1"@);
                        }
                    }
                    i = i + 1;
                }
                if one {
                    self.add(GraphOperatorKind::ThenConst);
                }
                self.visit_all(body);
            },
            Expr::Hold { body, .. } => {
                self.add(GraphOperatorKind::Hold);
                self.add(GraphOperatorKind::PersistTap);
                self.visit_all(body);
            },
            Expr::Latest(vs) => {
                self.add(GraphOperatorKind::Latest);
                self.visit_all(vs);
            },
            Expr::Match { kind, arms } => {
                match kind {
                    MatchKind::When => self.add(GraphOperatorKind::When),
                    MatchKind::While => self.add(GraphOperatorKind::WhileSwitch),
                }
                self.visit_arms(arms);
            },
            Expr::Call { callee, args } => {
                self.visit_call(callee);
                self.visit_args(args);
            },
            Expr::Constructor { fields, .. } => self.visit_fields(fields),
            Expr::Record(fs) => self.visit_fields(fs),
            Expr::List(vs) => self.visit_all(vs),
            Expr::Block(vs) => self.visit_all(vs),
            Expr::Pipe { input, stage } => {
                self.visit(input);
                self.visit(stage);
            },
            Expr::Binary { left, right, .. } => {
                self.add(GraphOperatorKind::BinaryAdd);
                self.visit(left);
                self.visit(right);
            },
            Expr::SourceAt { target } => self.visit(target),
            Expr::Link { target } => {
                if let Some(t) = target {
                    self.visit(t);
                }
            },
            Expr::FieldAccess { base, .. } => self.visit(base),
            _ => {},
        }
    }

    fn visit_call(&mut self, callee: &String)
        ensures
            final(self).seen@ == add_kind(old(self).seen@, call_kind(callee@)),
    {
        let kind = if string_eq_str(callee, "List/append") {
            GraphOperatorKind::ListAppend
        } else if string_eq_str(callee, "List/remove") {
            GraphOperatorKind::ListRemove
        } else if string_eq_str(callee, "List/map") {
            GraphOperatorKind::ListMap
        } else if string_eq_str(callee, "List/retain") {
            GraphOperatorKind::ListRetain
        } else {
            GraphOperatorKind::LibraryCall
        };
        self.add(kind);
    }

    fn visit_all(&mut self, vs: &Vec<Expr>)
        ensures
            final(self).seen@ == ov_list(evs(vs@), old(self).seen@),
        decreases vs, 0int,
    {
        let ghost s = evs(vs@);
        let ghost s0 = self.seen@;
        let mut i: usize = 0;
        proof {
            assert(s.take(0) =~= Seq::<ExprV>::empty());
        }
        while i < vs.len()
            invariant
                s == evs(vs@),
                i <= vs@.len(),
                self.seen@ == ov_list(s.take(i as int), s0),
            decreases vs@.len() - i,
        {
            proof {
                assert(decreases_to!(vs@ => vs@[i as int]));
                assert(decreases_to!(*vs => vs@));
                assert(s.take(i + 1).drop_last() =~= s.take(i as int));
                assert(s[i as int] == ev(vs@[i as int]));
            }
            self.visit(&vs[i]);
            i = i + 1;
        }
        proof {
            assert(s.take(i as int) =~= s);
        }
    }

    fn visit_fields(&mut self, fs: &Vec<RecordField>)
        ensures
            final(self).seen@ == ov_fields(fvs(fs@), old(self).seen@),
        decreases fs, 0int,
    {
        let ghost s = fvs(fs@);
        let ghost s0 = self.seen@;
        let mut i: usize = 0;
        proof {
            assert(s.take(0) =~= Seq::<FieldV>::empty());
        }
        while i < fs.len()
            invariant
                s == fvs(fs@),
                i <= fs@.len(),
                self.seen@ == ov_fields(s.take(i as int), s0),
            decreases fs@.len() - i,
        {
            proof {
                assert(decreases_to!(fs@[i as int] => fs@[i as int].value));
                assert(decreases_to!(fs@ => fs@[i as int]));
                assert(decreases_to!(*fs => fs@));
                assert(s.take(i + 1).drop_last() =~= s.take(i as int));
                assert(s[i as int].value == ev(fs@[i as int].value));
            }
            self.visit(&fs[i].value);
            i = i + 1;
        }
        proof {
            assert(s.take(i as int) =~= s);
        }
    }

    fn visit_args(&mut self, args: &Vec<CallArg>)
        ensures
            final(self).seen@ == ov_args(avs(args@), old(self).seen@),
        decreases args, 0int,
    {
        let ghost s = avs(args@);
        let ghost s0 = self.seen@;
        let mut i: usize = 0;
        proof {
            assert(s.take(0) =~= Seq::<ArgV>::empty());
        }
        while i < args.len()
            invariant
                s == avs(args@),
                i <= args@.len(),
                self.seen@ == ov_args(s.take(i as int), s0),
            decreases args@.len() - i,
        {
            proof {
                assert(decreases_to!(args@ => args@[i as int]));
                assert(decreases_to!(*args => args@));
                assert(s.take(i + 1).drop_last() =~= s.take(i as int));
            }
            match &args[i] {
                CallArg::Positional(v) => {
                    proof {
                        assert(decreases_to!(args@[i as int] => *v));
                    }
                    self.visit(v);
                },
                CallArg::Named { value, .. } => {
                    proof {
                        assert(decreases_to!(args@[i as int] => *value));
                    }
                    self.visit(value);
                },
            }
            i = i + 1;
        }
        proof {
            assert(s.take(i as int) =~= s);
        }
    }

    fn visit_arms(&mut self, arms: &Vec<MatchArm>)
        ensures
            final(self).seen@ == ov_arms(mvs(arms@), old(self).seen@),
        decreases arms, 0int,
    {
        let ghost s = mvs(arms@);
        let ghost s0 = self.seen@;
        let mut i: usize = 0;
        proof {
            assert(s.take(0) =~= Seq::<ArmV>::empty());
        }
        while i < arms.len()
            invariant
                s == mvs(arms@),
                i <= arms@.len(),
                self.seen@ == ov_arms(s.take(i as int), s0),
            decreases arms@.len() - i,
        {
            proof {
                assert(decreases_to!(arms@[i as int] => arms@[i as int].value));
                assert(decreases_to!(arms@ => arms@[i as int]));
                assert(decreases_to!(*arms => arms@));
                assert(s.take(i + 1).drop_last() =~= s.take(i as int));
                assert(s[i as int].value == ev(arms@[i as int].value));
            }
            self.visit(&arms[i].value);
            i = i + 1;
        }
        proof {
            assert(s.take(i as int) =~= s);
        }
    }

    /// The operators of the table whose kind was seen, plus the render sink
    /// and the monitor tap.
    fn finish(self) -> (r: Vec<GraphOperator>)
        ensures
            operators_v(r@) == table_ops(self.seen@, 16),
    {
        let mut out: Vec<GraphOperator> = Vec::new();
        let mut i: usize = 0;
        proof {
            assert(operators_v(out@) =~= Seq::<OperatorV>::empty());
        }
        while i < 16
            invariant
                i <= 16,
                operators_v(out@) == table_ops(self.seen@, i as int),
            decreases 16 - i,
        {
            let (kind, node, order) = table_row(i);
            let mut keep = kind == GraphOperatorKind::RenderSink || kind == GraphOperatorKind::MonitorTap;
            let mut j: usize = 0;
            while j < self.seen.len()
                invariant
                    j <= self.seen@.len(),
                    keep == ((exists|t: int| 0 <= t < j && self.seen@[t] == kind) || kind
                        == GraphOperatorKind::RenderSink || kind == GraphOperatorKind::MonitorTap),
                decreases self.seen@.len() - j,
            {
                if self.seen[j] == kind {
                    keep = true;
                }
                j = j + 1;
            }
            proof {
                assert(keep == kept(self.seen@, kind));
            }
            if keep {
                let o = GraphOperator {
                    node: NodeId(node.to_owned()),
                    kind,
                    inputs: Vec::new(),
                    output: NodeId(node.to_owned()),
                    order,
                };
                proof {
                    assert(operator_v(o).inputs =~= Seq::<Seq<char>>::empty());
                    assert(operators_v(out@.push(o)) =~= operators_v(out@).push(operator_v(o)));
                }
                out.push(o);
            }
            i = i + 1;
        }
        out
    }
}

fn graph_operators(hir: &HirModule) -> (r: Vec<GraphOperator>)
    ensures
        operators_v(r@) == graph_ops(hdefvs(hir.definitions@)),
{
    let ghost dv = hdefvs(hir.definitions@);
    let mut builder = OperatorBuilder { seen: Vec::new() };
    let mut k: usize = 0;
    proof {
        assert(dv.take(0) =~= Seq::<DefV>::empty());
    }
    while k < hir.definitions.len()
        invariant
            dv == hdefvs(hir.definitions@),
            k <= hir.definitions@.len(),
            builder.seen@ == ov_defs(dv.take(k as int)),
        decreases hir.definitions@.len() - k,
    {
        proof {
            assert(dv.take(k + 1).drop_last() =~= dv.take(k as int));
            assert(dv[k as int].expr == ev(hir.definitions@[k as int].expression));
        }
        builder.visit(&hir.definitions[k].expression);
        k = k + 1;
    }
    proof {
        assert(dv.take(k as int) =~= dv);
    }
    builder.finish()
}

// ---------------------------------------------------------------------------
// The static graph
// ---------------------------------------------------------------------------

/// The definition named `document`, if any.
pub open spec fn document_expr(defs: Seq<DefV>) -> Option<ExprV> {
    find_def(defs, "document"@)
}

/// The semantic path the document shows.
pub open spec fn doc_target_path(defs: Seq<DefV>) -> Option<Seq<char>> {
    match document_expr(defs) {
        Some(d) => target_path(d),
        None => None,
    }
}

/// The position of the last `c` before `j`, or -1.
pub open spec fn rfind_from(p: Seq<char>, c: char, j: int) -> int
    decreases j,
{
    if j <= 0 {
        -1
    } else if p[j - 1] == c {
        j - 1
    } else {
        rfind_from(p, c, j - 1)
    }
}

/// The part of a path after its last dot.
pub open spec fn last_segment(p: Seq<char>) -> Seq<char> {
    p.skip(rfind_from(p, '.', p.len() as int) + 1)
}

/// The monitor node: named after the last part of the document's semantic
/// path, or `DocumentOutput`.
pub open spec fn monitor_name(target: Option<Seq<char>>) -> Seq<char> {
    match target {
        Some(p) => pascal(last_segment(p)),
        None => "DocumentOutput"@,
    }
}

pub struct BindingV {
    pub source_id: Seq<char>,
    pub path: Seq<char>,
    pub shape: Seq<char>,
    pub dynamic: bool,
}

impl View for SourceBinding {
    type V = BindingV;

    open spec fn view(&self) -> BindingV {
        BindingV { source_id: self.source_id.0@, path: self.path@, shape: self.shape@, dynamic: self.dynamic }
    }
}

/// The shape a source is reported with, as `Debug` writes it.
pub open spec fn source_shape(path: Seq<char>, ssrcs: Seq<(Seq<char>, ShapeV)>) -> Seq<char> {
    match lookup(ssrcs, path) {
        Some(s) => shape_debug(s),
        None => "Unknown"@,
    }
}

pub open spec fn binding_of(path: Seq<char>, ssrcs: Seq<(Seq<char>, ShapeV)>) -> BindingV {
    BindingV { source_id: pascal(path), path, shape: source_shape(path, ssrcs), dynamic: false }
}

/// The bindings by path; the first binding of a path stays.
pub open spec fn bindings_fold(srcs: Seq<(Seq<char>, bool)>, ssrcs: Seq<(Seq<char>, ShapeV)>) -> Seq<
    (Seq<char>, BindingV),
>
    decreases srcs.len(),
{
    if srcs.len() == 0 {
        Seq::empty()
    } else {
        let p = srcs[srcs.len() - 1].0;
        ins_absent(bindings_fold(srcs.drop_last(), ssrcs), p, binding_of(p, ssrcs))
    }
}

/// One binding per source path, in path order.
pub open spec fn bindings_spec(srcs: Seq<(Seq<char>, bool)>, ssrcs: Seq<(Seq<char>, ShapeV)>) -> Seq<
    BindingV,
> {
    bindings_fold(srcs, ssrcs).map_values(|e: (Seq<char>, BindingV)| e.1)
}

pub struct NodeV {
    pub node: Seq<char>,
    pub kind: Seq<char>,
    pub shape: Seq<char>,
    pub source_span: Seq<char>,
}

pub open spec fn node_v(n: GraphNode) -> NodeV {
    NodeV { node: n.node.0@, kind: n.kind@, shape: n.shape@, source_span: n.source_span@ }
}

pub open spec fn binding_node(path: Seq<char>, b: BindingV) -> NodeV {
    NodeV { node: b.source_id, kind: "source.leaf"@, shape: b.shape, source_span: path + ":"@ + b.path }
}

/// The render node, the monitor node, then a node per source binding.
pub open spec fn graph_nodes(path: Seq<char>, monitor: Seq<char>, bindings: Seq<BindingV>) -> Seq<NodeV> {
    seq![
        NodeV {
            node: "DocumentText"@,
            kind: "render.text"@,
            shape: "Text"@,
            source_span: path + ":document"@,
        },
        NodeV { node: monitor, kind: "monitor.value"@, shape: "Text"@, source_span: path + ":document"@ },
    ] + bindings.map_values(|b: BindingV| binding_node(path, b))
}

/// Some definition builds a physical scene.
pub open spec fn any_scene(defs: Seq<DefV>) -> bool {
    exists|i: int| 0 <= i < defs.len() && #[trigger] tree_has(defs[i].expr, ProbeV::Callee("Scene/new"@))
}

pub struct GraphV {
    pub graph_id: Seq<char>,
    pub source_path: Seq<char>,
    pub source_hash: Seq<char>,
    pub bindings: Seq<BindingV>,
    pub nodes: Seq<NodeV>,
    pub operators: Seq<OperatorV>,
    pub monitor_node: Seq<char>,
    pub render_node: Seq<char>,
    pub initial_text: Seq<char>,
    pub physical_scene: bool,
}

pub open spec fn graph_v(g: StaticGraph) -> GraphV {
    GraphV {
        graph_id: g.graph_id@,
        source_path: g.source_path@,
        source_hash: g.source_hash@,
        bindings: g.source_bindings@.map_values(|b: SourceBinding| b@),
        nodes: g.nodes@.map_values(|n: GraphNode| node_v(n)),
        operators: operators_v(g.operators@),
        monitor_node: g.monitor_node.0@,
        render_node: g.render_node.0@,
        initial_text: g.initial_text@,
        physical_scene: g.physical_scene,
    }
}

/// The static graph of a module.
pub open spec fn graph_spec(
    defs: Seq<DefV>,
    srcs: Seq<(Seq<char>, bool)>,
    ssrcs: Seq<(Seq<char>, ShapeV)>,
    path: Seq<char>,
    text: Seq<char>,
) -> GraphV {
    let bindings = bindings_spec(srcs, ssrcs);
    let monitor = monitor_name(doc_target_path(defs));
    GraphV {
        graph_id: graph_id(text),
        source_path: path,
        source_hash: source_hash(text),
        bindings,
        nodes: graph_nodes(path, monitor, bindings),
        operators: graph_ops(defs),
        monitor_node: monitor,
        render_node: "DocumentText"@,
        initial_text: Seq::empty(),
        physical_scene: any_scene(defs),
    }
}

fn document_expr_exec(hir: &HirModule) -> (r: Option<&Expr>)
    ensures
        opt_expr_ok(r, document_expr(hdefvs(hir.definitions@))),
{
    let name = chars_of("document");
    find_def_exec(hir, name.as_slice())
}

fn doc_target_path_exec(hir: &HirModule) -> (r: Option<String>)
    ensures
        opt_str_ok(r, doc_target_path(hdefvs(hir.definitions@))),
{
    match document_expr_exec(hir) {
        Some(d) => target_path_exec(d),
        None => None,
    }
}

fn document_output_node_name(target: &Option<String>) -> (r: String)
    ensures
        r@ == monitor_name(match target {
            Some(p) => Some(p@),
            None => None,
        }),
{
    match target {
        Some(p) => {
            let pc = chars_of(p.as_str());
            let mut j: usize = pc.len();
            while j > 0 && pc[j - 1] != '.'
                invariant
                    j <= pc@.len(),
                    rfind_from(pc@, '.', j as int) == rfind_from(pc@, '.', pc@.len() as int),
                decreases j,
            {
                j = j - 1;
            }
            let ghost k = rfind_from(pc@, '.', pc@.len() as int);
            let start: usize = if j == 0 {
                0
            } else {
                j
            };
            proof {
                assert(k + 1 == start);
            }
            let seg = crate::text::string_of_range(pc.as_slice(), start, pc.len());
            proof {
                assert(seg@ =~= p@.skip(k + 1));
            }
            to_pascal_identifier(seg.as_str())
        },
        None => "DocumentOutput".to_owned(),
    }
}

fn copy_binding(b: &SourceBinding) -> (r: SourceBinding)
    ensures
        r@ == b@,
{
    SourceBinding {
        source_id: SourceId(copy_string(&b.source_id.0)),
        path: copy_string(&b.path),
        shape: copy_string(&b.shape),
        dynamic: b.dynamic,
    }
}

fn source_shape_exec(path: &String, shapes: &ShapeReport) -> (r: String)
    ensures
        r@ == source_shape(path@, shapes.sources.model()),
{
    match shapes.sources.get(path.as_str()) {
        Some(s) => shape_debug_text(s),
        None => "Unknown".to_owned(),
    }
}

fn source_bindings(hir: &HirModule, shapes: &ShapeReport) -> (r: Vec<SourceBinding>)
    ensures
        r@.map_values(|b: SourceBinding| b@) == bindings_spec(hsrcvs(hir.sources@), shapes.sources.model()),
{
    let ghost sv = hsrcvs(hir.sources@);
    let ghost ss = shapes.sources.model();
    let mut m: StrMap<SourceBinding> = StrMap::new();
    let mut i: usize = 0;
    proof {
        assert(sv.take(0) =~= Seq::<(Seq<char>, bool)>::empty());
    }
    while i < hir.sources.len()
        invariant
            sv == hsrcvs(hir.sources@),
            ss == shapes.sources.model(),
            i <= hir.sources@.len(),
            m.model() == bindings_fold(sv.take(i as int), ss),
        decreases hir.sources@.len() - i,
    {
        let src = &hir.sources[i];
        let b = SourceBinding {
            source_id: SourceId(to_pascal_identifier(src.path.as_str())),
            shape: source_shape_exec(&src.path, shapes),
            dynamic: false,
            path: copy_string(&src.path),
        };
        m.insert_absent(copy_string(&src.path), b);
        i = i + 1;
        proof {
            assert(sv.take(i as int).drop_last() =~= sv.take(i - 1));
        }
    }
    proof {
        assert(sv.take(i as int) =~= sv);
    }
    let mut out: Vec<SourceBinding> = Vec::new();
    let mut j: usize = 0;
    while j < m.entries.len()
        invariant
            j <= m.entries@.len(),
            out@.map_values(|b: SourceBinding| b@) == m.model().map_values(
                |e: (Seq<char>, BindingV)| e.1,
            ).take(j as int),
        decreases m.entries@.len() - j,
    {
        let b = copy_binding(&m.entries[j].1);
        proof {
            assert(out@.push(b).map_values(|b: SourceBinding| b@) =~= out@.map_values(
                |b: SourceBinding| b@,
            ).push(b@));
        }
        out.push(b);
        j = j + 1;
        proof {
            assert(m.model().map_values(|e: (Seq<char>, BindingV)| e.1).take(j as int)
                =~= m.model().map_values(|e: (Seq<char>, BindingV)| e.1).take(j - 1).push(
                m.model()[j - 1].1,
            ));
        }
    }
    proof {
        assert(m.model().map_values(|e: (Seq<char>, BindingV)| e.1).take(j as int)
            =~= m.model().map_values(|e: (Seq<char>, BindingV)| e.1));
    }
    out
}

fn any_scene_exec(hir: &HirModule) -> (r: bool)
    ensures
        r == any_scene(hdefvs(hir.definitions@)),
{
    let ghost dv = hdefvs(hir.definitions@);
    let mut k: usize = 0;
    while k < hir.definitions.len()
        invariant
            dv == hdefvs(hir.definitions@),
            k <= hir.definitions@.len(),
            forall|i: int| 0 <= i < k ==> !tree_has(#[trigger] dv[i].expr, ProbeV::Callee("Scene/new"@)),
        decreases hir.definitions@.len() - k,
    {
        proof {
            assert(dv[k as int].expr == ev(hir.definitions@[k as int].expression));
        }
        if tree_has_callee(&hir.definitions[k].expression, "Scene/new") {
            return true;
        }
        k = k + 1;
    }
    false
}

fn concat(a: &String, b: &str) -> (r: String)
    ensures
        r@ == a@ + b@,
{
    let mut r = copy_string(a);
    push_str(&mut r, b);
    r
}

fn build_static_graph(parsed: &ParsedModule, hir: &HirModule, shapes: &ShapeReport) -> (g: StaticGraph)
    ensures
        graph_v(g) == graph_spec(
            hdefvs(hir.definitions@),
            hsrcvs(hir.sources@),
            shapes.sources.model(),
            hir.source_path@,
            parsed.source.text@,
        ),
        g.source_hash@.len() == 64,
{
    let ghost defs = hdefvs(hir.definitions@);
    let graph_id = graph_id_from_source_hash(parsed.source.text.as_str());
    let target = doc_target_path_exec(hir);
    let operators = graph_operators(hir);
    let bindings = source_bindings(hir, shapes);
    let monitor_node = NodeId(document_output_node_name(&target));
    let render_node = NodeId("DocumentText".to_owned());
    let doc_span = concat(&hir.source_path, ":document");
    let mut nodes: Vec<GraphNode> = Vec::new();
    nodes.push(
        GraphNode {
            node: NodeId("DocumentText".to_owned()),
            kind: "render.text".to_owned(),
            shape: "Text".to_owned(),
            source_span: copy_string(&doc_span),
        },
    );
    nodes.push(
        GraphNode {
            node: NodeId(copy_string(&monitor_node.0)),
            kind: "monitor.value".to_owned(),
            shape: "Text".to_owned(),
            source_span: copy_string(&doc_span),
        },
    );
    let ghost bv = bindings@.map_values(|b: SourceBinding| b@);
    let ghost head = nodes@.map_values(|n: GraphNode| node_v(n));
    let mut i: usize = 0;
    while i < bindings.len()
        invariant
            bv == bindings@.map_values(|b: SourceBinding| b@),
            i <= bindings@.len(),
            head.len() == 2,
            nodes@.map_values(|n: GraphNode| node_v(n)) == head + bv.take(i as int).map_values(
                |b: BindingV| binding_node(hir.source_path@, b),
            ),
        decreases bindings@.len() - i,
    {
        let b = &bindings[i];
        let mut span = concat(&hir.source_path, ":");
        push_str(&mut span, b.path.as_str());
        let n = GraphNode {
            node: NodeId(copy_string(&b.source_id.0)),
            kind: "source.leaf".to_owned(),
            shape: copy_string(&b.shape),
            source_span: span,
        };
        proof {
            assert(nodes@.push(n).map_values(|n: GraphNode| node_v(n)) =~= nodes@.map_values(
                |n: GraphNode| node_v(n),
            ).push(node_v(n)));
            assert(bv.take(i + 1).map_values(|b: BindingV| binding_node(hir.source_path@, b))
                =~= bv.take(i as int).map_values(|b: BindingV| binding_node(hir.source_path@, b)).push(
                binding_node(hir.source_path@, bv[i as int]),
            ));
            assert(node_v(n) == binding_node(hir.source_path@, bv[i as int]));
        }
        nodes.push(n);
        i = i + 1;
    }
    proof {
        assert(bv.take(i as int) =~= bv);
    }
    let physical_scene = any_scene_exec(hir);
    let source_hash = sha256_text(parsed.source.text.as_str());
    let g = StaticGraph {
        graph_id,
        source_path: copy_string(&hir.source_path),
        source_hash,
        source_bindings: bindings,
        nodes,
        operators,
        monitor_node,
        render_node,
        initial_text: String::new(),
        physical_scene,
    };
    proof {
        assert(graph_v(g).nodes =~= graph_nodes(
            hir.source_path@,
            monitor_name(doc_target_path(defs)),
            bindings_spec(hsrcvs(hir.sources@), shapes.sources.model()),
        ));
    }
    g
}

// ---------------------------------------------------------------------------
// The render program and the output protocol
// ---------------------------------------------------------------------------

pub enum OpV {
    LatestInputText,
    MatchTagText(Seq<char>, RExprV),
    CountInputEvents(i64),
    StaticText(RExprV),
}

pub open spec fn op_v(o: DdRenderOperation) -> OpV {
    match o {
        DdRenderOperation::LatestInputText => OpV::LatestInputText,
        DdRenderOperation::MatchTagText { tag, expr } => OpV::MatchTagText(tag@, rv(expr)),
        DdRenderOperation::CountInputEvents { initial } => OpV::CountInputEvents(initial),
        DdRenderOperation::StaticText { expr } => OpV::StaticText(rv(expr)),
    }
}

pub open spec fn tag_text(m: Option<(Seq<char>, ExprV)>, defs: Seq<DefV>, fuel: nat) -> Option<OpV> {
    match m {
        Some(x) => match render(x.1, defs, fuel) {
            Some(r) => Some(OpV::MatchTagText(x.0, r)),
            None => None,
        },
        None => None,
    }
}

/// How the text of a document expression is computed: from the latest event
/// where it uses `LATEST`, from the first tagged branch of a `WHEN`, then of a
/// `WHILE`, by counting events where it sums, holds or reacts, and otherwise
/// as a static text.
pub open spec fn render_operation(e: ExprV, defs: Seq<DefV>, fuel: nat) -> Option<OpV> {
    if tree_has(e, ProbeV::Latest) {
        Some(OpV::LatestInputText)
    } else if first_match(e, MatchKind::When) is Some {
        tag_text(first_match(e, MatchKind::When), defs, fuel)
    } else if first_match(e, MatchKind::While) is Some {
        tag_text(first_match(e, MatchKind::While), defs, fuel)
    } else if tree_has(e, ProbeV::Callee("Math/sum"@)) || tree_has(e, ProbeV::Hold) || tree_has(
        e,
        ProbeV::Then,
    ) {
        Some(OpV::CountInputEvents(counter_seed(e)))
    } else {
        match render(e, defs, fuel) {
            Some(r) => Some(OpV::StaticText(r)),
            None => None,
        }
    }
}

/// The expression the document renders: what its semantic path names, or
/// else the document itself.
pub open spec fn semantic_expr(defs: Seq<DefV>) -> Option<ExprV> {
    let t = match doc_target_path(defs) {
        Some(p) => target_expression(p, defs),
        None => None,
    };
    or_else(t, document_expr(defs))
}

pub open spec fn program_op(defs: Seq<DefV>, fuel: nat) -> Option<OpV> {
    match semantic_expr(defs) {
        None => Some(OpV::StaticText(RExprV::Text(Seq::empty()))),
        Some(e) => render_operation(e, defs, fuel),
    }
}

/// The document's render expression is finite: replacing paths by what
/// they name comes to an end.
pub open spec fn renders(defs: Seq<DefV>) -> bool {
    exists|f: nat| #[trigger] program_op(defs, f) is Some
}

pub open spec fn render_fuel(defs: Seq<DefV>) -> nat {
    choose|f: nat| #[trigger] program_op(defs, f) is Some
}

/// The render operation of a module whose document renders.
pub open spec fn the_op(defs: Seq<DefV>) -> OpV {
    program_op(defs, render_fuel(defs)).unwrap()
}

fn render_operation_from_syntax(e: &Expr, hir: &HirModule, Ghost(fuel): Ghost<nat>) -> (r:
    DdRenderOperation)
    requires
        render_operation(ev(*e), hdefvs(hir.definitions@), fuel) is Some,
    ensures
        op_v(r) == render_operation(ev(*e), hdefvs(hir.definitions@), fuel).unwrap(),
{
    let latest = Probe::Latest;
    if tree_has_exec(e, &latest) {
        return DdRenderOperation::LatestInputText;
    }
    if let Some((tag, value)) = first_match_exec(e, MatchKind::When) {
        return DdRenderOperation::MatchTagText {
            tag: copy_string(tag),
            expr: render_expr(value, hir, Ghost(fuel)),
        };
    }
    if let Some((tag, value)) = first_match_exec(e, MatchKind::While) {
        return DdRenderOperation::MatchTagText {
            tag: copy_string(tag),
            expr: render_expr(value, hir, Ghost(fuel)),
        };
    }
    let hold = Probe::Hold;
    let then = Probe::Then;
    if tree_has_callee(e, "Math/sum") || tree_has_exec(e, &hold) || tree_has_exec(e, &then) {
        DdRenderOperation::CountInputEvents { initial: counter_seed_exec(e) }
    } else {
        DdRenderOperation::StaticText { expr: render_expr(e, hir, Ghost(fuel)) }
    }
}

/// Whether the render operation of `e` exists within `fuel` path
/// replacements.
fn operation_renders_within(e: &Expr, hir: &HirModule, fuel: u64) -> (r: bool)
    ensures
        r == render_operation(ev(*e), hdefvs(hir.definitions@), fuel as nat) is Some,
{
    let latest = Probe::Latest;
    if tree_has_exec(e, &latest) {
        return true;
    }
    if let Some((_, value)) = first_match_exec(e, MatchKind::When) {
        return renders_within(value, hir, fuel);
    }
    if let Some((_, value)) = first_match_exec(e, MatchKind::While) {
        return renders_within(value, hir, fuel);
    }
    let hold = Probe::Hold;
    let then = Probe::Then;
    if tree_has_callee(e, "Math/sum") || tree_has_exec(e, &hold) || tree_has_exec(e, &then) {
        true
    } else {
        renders_within(e, hir, fuel)
    }
}

/// Whether a module's document renders within `fuel` path replacements.
fn program_renders_within(hir: &HirModule, fuel: u64) -> (r: bool)
    ensures
        r == program_op(hdefvs(hir.definitions@), fuel as nat) is Some,
{
    let document = document_expr_exec(hir);
    let target_path = doc_target_path_exec(hir);
    let target_expr = match &target_path {
        Some(p) => {
            let pc = chars_of(p.as_str());
            target_expression_exec(pc.as_slice(), hir)
        },
        None => None,
    };
    let semantic = if target_expr.is_some() {
        target_expr
    } else {
        document
    };
    match semantic {
        Some(e) => operation_renders_within(e, hir, fuel),
        None => true,
    }
}

pub struct SrcV {
    pub semantic_path: Option<Seq<char>>,
    pub output_node: Seq<char>,
}

pub open spec fn opt_view(o: Option<String>) -> Option<Seq<char>> {
    match o {
        Some(s) => Some(s@),
        None => None,
    }
}

pub open spec fn src_v(s: DdRenderProgramSource) -> SrcV {
    SrcV { semantic_path: opt_view(s.semantic_path), output_node: s.output_node.0@ }
}

pub struct ProgramV {
    pub source: SrcV,
    pub op: OpV,
}

pub open spec fn program_v(p: DdRenderProgram) -> ProgramV {
    ProgramV { source: src_v(p.source), op: op_v(p.operation) }
}

/// The render program of a module, writing to `render_node`.
pub open spec fn program_spec(defs: Seq<DefV>, render_node: Seq<char>) -> ProgramV {
    ProgramV {
        source: SrcV { semantic_path: doc_target_path(defs), output_node: render_node },
        op: the_op(defs),
    }
}

fn copy_opt(o: &Option<String>) -> (r: Option<String>)
    ensures
        opt_view(r) == opt_view(*o),
{
    match o {
        Some(s) => Some(copy_string(s)),
        None => None,
    }
}

fn dd_render_program_from_hir(hir: &HirModule, graph: &StaticGraph) -> (r: DdRenderProgram)
    requires
        renders(hdefvs(hir.definitions@)),
    ensures
        program_v(r) == program_spec(hdefvs(hir.definitions@), graph.render_node.0@),
{
    let ghost defs = hdefvs(hir.definitions@);
    let ghost fuel = render_fuel(defs);
    let document = document_expr_exec(hir);
    let target_path = doc_target_path_exec(hir);
    let target_expr = match &target_path {
        Some(p) => {
            let pc = chars_of(p.as_str());
            target_expression_exec(pc.as_slice(), hir)
        },
        None => None,
    };
    let semantic = if target_expr.is_some() {
        target_expr
    } else {
        document
    };
    let source = DdRenderProgramSource {
        semantic_path: copy_opt(&target_path),
        output_node: NodeId(copy_string(&graph.render_node.0)),
    };
    proof {
        assert(opt_view(source.semantic_path) == doc_target_path(defs));
    }
    let operation = match semantic {
        Some(e) => render_operation_from_syntax(e, hir, Ghost(fuel)),
        None => DdRenderOperation::StaticText { expr: DdRenderExpr::Text(String::new()) },
    };
    DdRenderProgram { source, operation }
}

proof fn lemma_render_list_all(vs: Seq<ExprV>, defs: Seq<DefV>, fuel: nat)
    ensures
        render_list(vs, defs, fuel) is Some <==> forall|i: int|
            0 <= i < vs.len() ==> #[trigger] render(vs[i], defs, fuel) is Some,
    decreases vs.len(),
{
    if vs.len() > 0 {
        let p = vs.drop_last();
        let last = vs.len() - 1;
        lemma_render_list_all(p, defs, fuel);
        assert forall|i: int| 0 <= i < last implies p[i] == vs[i] by {}
        if render_list(vs, defs, fuel) is Some {
            assert forall|i: int| 0 <= i < vs.len() implies #[trigger] render(vs[i], defs, fuel) is Some by {
                if i < last {
                    assert(p[i] == vs[i]);
                }
            }
        } else if render(vs[last], defs, fuel) is Some {
            let j = choose|j: int| 0 <= j < p.len() && !(#[trigger] render(p[j], defs, fuel) is Some);
            assert(p[j] == vs[j]);
            assert(!(render(vs[j], defs, fuel) is Some));
        }
    }
}

proof fn lemma_render_fields_all(fs: Seq<FieldV>, defs: Seq<DefV>, fuel: nat)
    ensures
        render_fields(fs, defs, fuel) is Some <==> forall|i: int|
            0 <= i < fs.len() ==> #[trigger] render(fs[i].value, defs, fuel) is Some,
    decreases fs.len(),
{
    if fs.len() > 0 {
        let p = fs.drop_last();
        let last = fs.len() - 1;
        lemma_render_fields_all(p, defs, fuel);
        assert forall|i: int| 0 <= i < last implies p[i] == fs[i] by {}
        if render_fields(fs, defs, fuel) is Some {
            assert forall|i: int| 0 <= i < fs.len() implies #[trigger] render(fs[i].value, defs, fuel) is Some by {
                if i < last {
                    assert(p[i] == fs[i]);
                }
            }
        } else if render(fs[last].value, defs, fuel) is Some {
            let j = choose|j: int| 0 <= j < p.len() && !(#[trigger] render(p[j].value, defs, fuel) is Some);
            assert(p[j] == fs[j]);
            assert(!(render(fs[j].value, defs, fuel) is Some));
        }
    }
}

/// The expression an argument passes.
pub open spec fn arg_value(a: ArgV) -> ExprV {
    match a {
        ArgV::Positional(v) => v,
        ArgV::Named(_, v) => v,
    }
}

proof fn lemma_render_args_all(args: Seq<ArgV>, defs: Seq<DefV>, fuel: nat)
    ensures
        render_args(args, defs, fuel) is Some <==> forall|i: int|
            0 <= i < args.len() ==> #[trigger] render(arg_value(args[i]), defs, fuel) is Some,
    decreases args.len(),
{
    if args.len() > 0 {
        let p = args.drop_last();
        let last = args.len() - 1;
        lemma_render_args_all(p, defs, fuel);
        assert forall|i: int| 0 <= i < last implies p[i] == args[i] by {}
        if render_args(args, defs, fuel) is Some {
            assert forall|i: int| 0 <= i < args.len() implies #[trigger] render(arg_value(args[i]), defs, fuel) is Some by {
                if i < last {
                    assert(p[i] == args[i]);
                }
            }
        } else if render(arg_value(args[last]), defs, fuel) is Some {
            let j = choose|j: int| 0 <= j < p.len() && !(#[trigger] render(arg_value(p[j]), defs, fuel) is Some);
            assert(p[j] == args[j]);
            assert(!(render(arg_value(args[j]), defs, fuel) is Some));
        }
    }
}

proof fn lemma_render_arms_all(arms: Seq<ArmV>, defs: Seq<DefV>, fuel: nat)
    ensures
        render_arms(arms, defs, fuel) is Some <==> forall|i: int|
            0 <= i < arms.len() ==> #[trigger] render(arms[i].value, defs, fuel) is Some,
    decreases arms.len(),
{
    if arms.len() > 0 {
        let p = arms.drop_last();
        let last = arms.len() - 1;
        lemma_render_arms_all(p, defs, fuel);
        assert forall|i: int| 0 <= i < last implies p[i] == arms[i] by {}
        if render_arms(arms, defs, fuel) is Some {
            assert forall|i: int| 0 <= i < arms.len() implies #[trigger] render(arms[i].value, defs, fuel) is Some by {
                if i < last {
                    assert(p[i] == arms[i]);
                }
            }
        } else if render(arms[last].value, defs, fuel) is Some {
            let j = choose|j: int| 0 <= j < p.len() && !(#[trigger] render(p[j].value, defs, fuel) is Some);
            assert(p[j] == arms[j]);
            assert(!(render(arms[j].value, defs, fuel) is Some));
        }
    }
}

/// Whether replacing the paths of `e` by what they name comes to an end
/// within `fuel` replacements.
fn renders_within(e: &Expr, hir: &HirModule, fuel: u64) -> (r: bool)
    ensures
        r == render(ev(*e), hdefvs(hir.definitions@), fuel as nat) is Some,
    decreases fuel, e,
{
    let ghost defs = hdefvs(hir.definitions@);
    match e {
        Expr::Path(p) => {
            let pc = chars_of(p.as_str());
            match target_expression_exec(pc.as_slice(), hir) {
                Some(x) => fuel > 0 && renders_within(x, hir, fuel - 1),
                None => true,
            }
        },
        Expr::SourceAt { target } => renders_within(target, hir, fuel),
        Expr::Link { target } => match target {
            Some(t) => renders_within(t, hir, fuel),
            None => true,
        },
        Expr::Record(fs) => fields_render_within(fs, hir, fuel),
        Expr::Constructor { fields, .. } => fields_render_within(fields, hir, fuel),
        Expr::List(vs) => exprs_render_within(vs, hir, fuel),
        Expr::Block(vs) => exprs_render_within(vs, hir, fuel),
        Expr::Latest(vs) => exprs_render_within(vs, hir, fuel),
        Expr::Then { body } => exprs_render_within(body, hir, fuel),
        Expr::Hold { body, .. } => exprs_render_within(body, hir, fuel),
        Expr::Call { args, .. } => args_render_within(args, hir, fuel),
        Expr::FieldAccess { base, .. } => renders_within(base, hir, fuel),
        Expr::Pipe { input, stage } => renders_within(input, hir, fuel) && renders_within(
            stage,
            hir,
            fuel,
        ),
        Expr::Binary { left, right, .. } => renders_within(left, hir, fuel) && renders_within(
            right,
            hir,
            fuel,
        ),
        Expr::Match { arms, .. } => arms_render_within(arms, hir, fuel),
        _ => true,
    }
}

fn exprs_render_within(vs: &Vec<Expr>, hir: &HirModule, fuel: u64) -> (r: bool)
    ensures
        r == render_list(evs(vs@), hdefvs(hir.definitions@), fuel as nat) is Some,
    decreases fuel, vs,
{
    let ghost s = evs(vs@);
    let ghost defs = hdefvs(hir.definitions@);
    proof {
        lemma_render_list_all(s, defs, fuel as nat);
    }
    let mut i: usize = 0;
    while i < vs.len()
        invariant
            s == evs(vs@),
            defs == hdefvs(hir.definitions@),
            i <= vs@.len(),
            forall|j: int| 0 <= j < i ==> #[trigger] render(s[j], defs, fuel as nat) is Some,
        decreases vs@.len() - i,
    {
        proof {
            assert(decreases_to!(vs@ => vs@[i as int]));
            assert(decreases_to!(*vs => vs@));
            assert(s[i as int] == ev(vs@[i as int]));
        }
        if !renders_within(&vs[i], hir, fuel) {
            assert(!(render(s[i as int], defs, fuel as nat) is Some));
            proof {
                lemma_render_list_all(s, defs, fuel as nat);
            }
            return false;
        }
        i = i + 1;
    }
    true
}

fn fields_render_within(fs: &Vec<RecordField>, hir: &HirModule, fuel: u64) -> (r: bool)
    ensures
        r == render_fields(fvs(fs@), hdefvs(hir.definitions@), fuel as nat) is Some,
    decreases fuel, fs,
{
    let ghost s = fvs(fs@);
    let ghost defs = hdefvs(hir.definitions@);
    proof {
        lemma_render_fields_all(s, defs, fuel as nat);
    }
    let mut i: usize = 0;
    while i < fs.len()
        invariant
            s == fvs(fs@),
            defs == hdefvs(hir.definitions@),
            i <= fs@.len(),
            forall|j: int| 0 <= j < i ==> #[trigger] render(s[j].value, defs, fuel as nat) is Some,
        decreases fs@.len() - i,
    {
        proof {
            assert(decreases_to!(*fs => fs@));
            assert(decreases_to!(fs@ => fs@[i as int]));
            assert(decreases_to!(fs@[i as int] => fs@[i as int].value));
            assert(s[i as int].value == ev(fs@[i as int].value));
        }
        if !renders_within(&fs[i].value, hir, fuel) {
            assert(!(render(s[i as int].value, defs, fuel as nat) is Some));
            proof {
                lemma_render_fields_all(s, defs, fuel as nat);
            }
            return false;
        }
        i = i + 1;
    }
    true
}

fn args_render_within(args: &Vec<CallArg>, hir: &HirModule, fuel: u64) -> (r: bool)
    ensures
        r == render_args(avs(args@), hdefvs(hir.definitions@), fuel as nat) is Some,
    decreases fuel, args,
{
    let ghost s = avs(args@);
    let ghost defs = hdefvs(hir.definitions@);
    proof {
        lemma_render_args_all(s, defs, fuel as nat);
    }
    let mut i: usize = 0;
    while i < args.len()
        invariant
            s == avs(args@),
            defs == hdefvs(hir.definitions@),
            i <= args@.len(),
            forall|j: int| 0 <= j < i ==> #[trigger] render(arg_value(s[j]), defs, fuel as nat) is Some,
        decreases args@.len() - i,
    {
        proof {
            assert(decreases_to!(*args => args@));
            assert(decreases_to!(args@ => args@[i as int]));
        }
        let ok = match &args[i] {
            CallArg::Positional(v) => {
                proof {
                    assert(decreases_to!(args@[i as int] => *v));
                }
                renders_within(v, hir, fuel)
            },
            CallArg::Named { value, .. } => {
                proof {
                    assert(decreases_to!(args@[i as int] => *value));
                }
                renders_within(value, hir, fuel)
            },
        };
        if !ok {
            assert(!(render(arg_value(s[i as int]), defs, fuel as nat) is Some));
            proof {
                lemma_render_args_all(s, defs, fuel as nat);
            }
            return false;
        }
        i = i + 1;
    }
    true
}

fn arms_render_within(arms: &Vec<MatchArm>, hir: &HirModule, fuel: u64) -> (r: bool)
    ensures
        r == render_arms(mvs(arms@), hdefvs(hir.definitions@), fuel as nat) is Some,
    decreases fuel, arms,
{
    let ghost s = mvs(arms@);
    let ghost defs = hdefvs(hir.definitions@);
    proof {
        lemma_render_arms_all(s, defs, fuel as nat);
    }
    let mut i: usize = 0;
    while i < arms.len()
        invariant
            s == mvs(arms@),
            defs == hdefvs(hir.definitions@),
            i <= arms@.len(),
            forall|j: int| 0 <= j < i ==> #[trigger] render(s[j].value, defs, fuel as nat) is Some,
        decreases arms@.len() - i,
    {
        proof {
            assert(decreases_to!(*arms => arms@));
            assert(decreases_to!(arms@ => arms@[i as int]));
            assert(decreases_to!(arms@[i as int] => arms@[i as int].value));
            assert(s[i as int].value == ev(arms@[i as int].value));
        }
        if !renders_within(&arms[i].value, hir, fuel) {
            assert(!(render(s[i as int].value, defs, fuel as nat) is Some));
            proof {
                lemma_render_arms_all(s, defs, fuel as nat);
            }
            return false;
        }
        i = i + 1;
    }
    true
}

pub enum SinkV {
    MonitorNodeValue(Seq<char>, SrcV),
    RenderPatchText(Seq<char>, SrcV),
    Effect(Seq<char>, Seq<char>, SrcV),
    Persistence(Seq<char>, SrcV),
}

pub open spec fn sink_v(s: DdOutputSink) -> SinkV {
    match s {
        DdOutputSink::MonitorNodeValue { node, source } => SinkV::MonitorNodeValue(node.0@, src_v(source)),
        DdOutputSink::RenderPatchText { node, source } => SinkV::RenderPatchText(node.0@, src_v(source)),
        DdOutputSink::Effect { node, name, source } => SinkV::Effect(node.0@, name@, src_v(source)),
        DdOutputSink::Persistence { node, source } => SinkV::Persistence(node.0@, src_v(source)),
    }
}

pub open spec fn has_kind(ops: Seq<OperatorV>, k: GraphOperatorKind) -> bool {
    exists|i: int| 0 <= i < ops.len() && #[trigger] ops[i].kind == k
}

/// The sinks: the monitor value and the render text always, then effects and
/// persistence where the graph has their operators.
pub open spec fn sinks_spec(ops: Seq<OperatorV>, monitor: Seq<char>, render: Seq<char>, src: SrcV) -> Seq<
    SinkV,
> {
    let base = seq![SinkV::MonitorNodeValue(monitor, src), SinkV::RenderPatchText(render, src)];
    let with_effect = if has_kind(ops, GraphOperatorKind::EffectSink) {
        base.push(SinkV::Effect("EffectSink"@, "EffectSink"@, src))
    } else {
        base
    };
    if has_kind(ops, GraphOperatorKind::PersistTap) {
        with_effect.push(SinkV::Persistence("PersistTap"@, src))
    } else {
        with_effect
    }
}

fn copy_source(s: &DdRenderProgramSource) -> (r: DdRenderProgramSource)
    ensures
        src_v(r) == src_v(*s),
{
    DdRenderProgramSource {
        semantic_path: copy_opt(&s.semantic_path),
        output_node: NodeId(copy_string(&s.output_node.0)),
    }
}

fn has_kind_exec(ops: &Vec<GraphOperator>, k: GraphOperatorKind) -> (r: bool)
    ensures
        r == has_kind(operators_v(ops@), k),
{
    let mut i: usize = 0;
    while i < ops.len()
        invariant
            i <= ops@.len(),
            forall|j: int| 0 <= j < i ==> ops@[j].kind != k,
        decreases ops@.len() - i,
    {
        if ops[i].kind == k {
            proof {
                assert(operators_v(ops@)[i as int].kind == k);
            }
            return true;
        }
        i = i + 1;
    }
    proof {
        if has_kind(operators_v(ops@), k) {
            let j = choose|j: int| 0 <= j < operators_v(ops@).len() && #[trigger] operators_v(
                ops@,
            )[j].kind == k;
            assert(ops@[j].kind == k);
        }
    }
    false
}

fn dd_output_protocol(graph: &StaticGraph, program: &DdRenderProgram) -> (r: DdOutputProtocol)
    ensures
        r.schema_version@ == "boon-dd-output-v1"@,
        r.sinks@.map_values(|s: DdOutputSink| sink_v(s)) == sinks_spec(
            operators_v(graph.operators@),
            graph.monitor_node.0@,
            graph.render_node.0@,
            src_v(program.source),
        ),
{
    let ghost src = src_v(program.source);
    let mut sinks: Vec<DdOutputSink> = Vec::new();
    sinks.push(
        DdOutputSink::MonitorNodeValue {
            node: NodeId(copy_string(&graph.monitor_node.0)),
            source: copy_source(&program.source),
        },
    );
    sinks.push(
        DdOutputSink::RenderPatchText {
            node: NodeId(copy_string(&graph.render_node.0)),
            source: copy_source(&program.source),
        },
    );
    proof {
        assert(sinks@.map_values(|s: DdOutputSink| sink_v(s)) =~= seq![
            SinkV::MonitorNodeValue(graph.monitor_node.0@, src),
            SinkV::RenderPatchText(graph.render_node.0@, src),
        ]);
    }
    if has_kind_exec(&graph.operators, GraphOperatorKind::EffectSink) {
        let x = DdOutputSink::Effect {
            node: NodeId("EffectSink".to_owned()),
            name: "EffectSink".to_owned(),
            source: copy_source(&program.source),
        };
        proof {
            assert(sinks@.push(x).map_values(|s: DdOutputSink| sink_v(s)) =~= sinks@.map_values(
                |s: DdOutputSink| sink_v(s),
            ).push(sink_v(x)));
        }
        sinks.push(x);
    }
    if has_kind_exec(&graph.operators, GraphOperatorKind::PersistTap) {
        let x = DdOutputSink::Persistence {
            node: NodeId("PersistTap".to_owned()),
            source: copy_source(&program.source),
        };
        proof {
            assert(sinks@.push(x).map_values(|s: DdOutputSink| sink_v(s)) =~= sinks@.map_values(
                |s: DdOutputSink| sink_v(s),
            ).push(sink_v(x)));
        }
        sinks.push(x);
    }
    DdOutputProtocol { schema_version: "boon-dd-output-v1".to_owned(), sinks }
}

// ---------------------------------------------------------------------------
// Semantic IR
// ---------------------------------------------------------------------------

/// The compiled module: its graph, semantic nodes and dataflow IR.
#[derive(Debug, PartialEq, Eq)]
pub struct CompilePlan {
    pub source_path: String,
    pub semantic_ir: SemanticIr,
    pub dd_graph_ir: DdGraphIr,
    pub graph: StaticGraph,
}

/// The dataflow IR: the graph's operators, the semantic nodes no operator
/// lowers, the render program and the outputs.
#[derive(Debug, PartialEq, Eq)]
pub struct DdGraphIr {
    pub graph_id: String,
    pub source_hash: String,
    pub nodes: Vec<DdGraphNode>,
    pub unsupported_semantic_nodes: Vec<NodeId>,
    pub render_program: DdRenderProgram,
    pub output_protocol: DdOutputProtocol,
}

#[derive(Clone, Debug, PartialEq, Eq)]
pub struct DdGraphNode {
    pub node: NodeId,
    pub operator: GraphOperatorKind,
    pub inputs: Vec<NodeId>,
    pub output: NodeId,
    pub order: u32,
}

#[derive(Debug, PartialEq, Eq)]
pub struct SemanticIr {
    pub source_path: String,
    pub nodes: Vec<SemanticNode>,
    pub outputs: SemanticOutputs,
}

#[derive(Clone, Debug, PartialEq, Eq)]
pub struct SemanticNode {
    pub node: NodeId,
    pub kind: SemanticNodeKind,
    pub shape: String,
    pub source_span: String,
    pub dependencies: Vec<NodeId>,
}

/// What a semantic node computes.
#[derive(Clone, Copy, Debug, PartialEq, Eq, Structural)]
pub enum SemanticNodeKind {
    SourceLeaf,
    PathReference,
    Skip,
    ConstantText,
    ConstantNumber,
    Tag,
    Record,
    List,
    BinaryAdd,
    Pipe,
    Then,
    Hold,
    Latest,
    When,
    While,
    LibraryCall,
    RenderSink,
    MonitorTap,
    Unknown,
}

#[derive(Clone, Debug, PartialEq, Eq)]
pub struct SemanticOutputs {
    pub monitor_node: NodeId,
    pub render_node: NodeId,
    pub physical_scene: bool,
}

pub open spec fn sem_kind(e: ExprV) -> SemanticNodeKind {
    match e {
        ExprV::Missing => SemanticNodeKind::Unknown,
        ExprV::Path(_) => SemanticNodeKind::PathReference,
        ExprV::Skip => SemanticNodeKind::Skip,
        ExprV::Number(_) => SemanticNodeKind::ConstantNumber,
        ExprV::Source => SemanticNodeKind::SourceLeaf,
        ExprV::SourceAt(_) => SemanticNodeKind::SourceLeaf,
        ExprV::Link(_) => SemanticNodeKind::SourceLeaf,
        ExprV::Tag(_) => SemanticNodeKind::Tag,
        ExprV::Text(_) => SemanticNodeKind::ConstantText,
        ExprV::Record(_) => SemanticNodeKind::Record,
        ExprV::Constructor(_, _) => SemanticNodeKind::Record,
        ExprV::List(_) => SemanticNodeKind::List,
        ExprV::Block(_) => SemanticNodeKind::List,
        ExprV::Latest(_) => SemanticNodeKind::Latest,
        ExprV::Call(_, _) => SemanticNodeKind::LibraryCall,
        ExprV::FieldAccess(_, _) => SemanticNodeKind::PathReference,
        ExprV::Pipe(_, _) => SemanticNodeKind::Pipe,
        ExprV::Binary(_, _, _) => SemanticNodeKind::BinaryAdd,
        ExprV::Then(_) => SemanticNodeKind::Then,
        ExprV::Hold(_, _) => SemanticNodeKind::Hold,
        ExprV::Match(k, _) => match k {
            MatchKind::When => SemanticNodeKind::When,
            MatchKind::While => SemanticNodeKind::While,
        },
    }
}

fn semantic_kind(e: &Expr) -> (r: SemanticNodeKind)
    ensures
        r == sem_kind(ev(*e)),
        (e matches Expr::Match { kind: MatchKind::When, .. }) ==> r == SemanticNodeKind::When,
        (e matches Expr::Match { kind: MatchKind::While, .. }) ==> r == SemanticNodeKind::While,
{
    match e {
        Expr::Missing => SemanticNodeKind::Unknown,
        Expr::Path(_) => SemanticNodeKind::PathReference,
        Expr::Skip => SemanticNodeKind::Skip,
        Expr::Number(_) => SemanticNodeKind::ConstantNumber,
        Expr::Source => SemanticNodeKind::SourceLeaf,
        Expr::SourceAt { .. } => SemanticNodeKind::SourceLeaf,
        Expr::Link { .. } => SemanticNodeKind::SourceLeaf,
        Expr::Tag(_) => SemanticNodeKind::Tag,
        Expr::Text(_) => SemanticNodeKind::ConstantText,
        Expr::Record(_) => SemanticNodeKind::Record,
        Expr::Constructor { .. } => SemanticNodeKind::Record,
        Expr::List(_) => SemanticNodeKind::List,
        Expr::Block(_) => SemanticNodeKind::List,
        Expr::Latest(_) => SemanticNodeKind::Latest,
        Expr::Call { .. } => SemanticNodeKind::LibraryCall,
        Expr::FieldAccess { .. } => SemanticNodeKind::PathReference,
        Expr::Pipe { .. } => SemanticNodeKind::Pipe,
        Expr::Binary { .. } => SemanticNodeKind::BinaryAdd,
        Expr::Then { .. } => SemanticNodeKind::Then,
        Expr::Hold { .. } => SemanticNodeKind::Hold,
        Expr::Match { kind, .. } => match kind {
            MatchKind::When => SemanticNodeKind::When,
            MatchKind::While => SemanticNodeKind::While,
        },
    }
}

pub struct SemNodeV {
    pub node: Seq<char>,
    pub kind: SemanticNodeKind,
    pub shape: Seq<char>,
    pub source_span: Seq<char>,
    pub dependencies: Seq<Seq<char>>,
}

pub open spec fn node_names(ns: Seq<NodeId>) -> Seq<Seq<char>> {
    ns.map_values(|n: NodeId| n.0@)
}

pub open spec fn sem_node_v(n: SemanticNode) -> SemNodeV {
    SemNodeV {
        node: n.node.0@,
        kind: n.kind,
        shape: n.shape@,
        source_span: n.source_span@,
        dependencies: node_names(n.dependencies@),
    }
}

pub open spec fn sem_nodes_v(ns: Seq<SemanticNode>) -> Seq<SemNodeV> {
    ns.map_values(|n: SemanticNode| sem_node_v(n))
}

/// The shape of the definition a label belongs to, as `Debug` writes it.
pub open spec fn shape_for(label: Seq<char>, sdefs: Seq<(Seq<char>, ShapeV)>) -> Seq<char> {
    match lookup(sdefs, label.take(find_from(label, '.', 0, label.len() as int))) {
        Some(s) => shape_debug(s),
        None => "Unknown"@,
    }
}

/// The name of the semantic node with number `id` and this label.
pub open spec fn sem_name(id: nat, label: Seq<char>) -> Seq<char> {
    "Semantic"@ + decimal(id) + pascal(label)
}

/// The nodes of an expression, children first; the next number after them;
/// the expression's own node name. Nodes are numbered from `id + 1` on.
pub open spec fn sem(
    e: ExprV,
    label: Seq<char>,
    span: Seq<char>,
    id: nat,
    sdefs: Seq<(Seq<char>, ShapeV)>,
) -> (Seq<SemNodeV>, nat, Seq<char>)
    decreases e,
{
    let c: (Seq<SemNodeV>, nat, Seq<Seq<char>>) = match e {
        ExprV::Record(fs) => sem_fields(fs, label, span, id, sdefs),
        ExprV::Constructor(_, fs) => sem_fields(fs, label, span, id, sdefs),
        ExprV::List(vs) => sem_list(vs, label, "."@, span, id, sdefs),
        ExprV::Block(vs) => sem_list(vs, label, "."@, span, id, sdefs),
        ExprV::Latest(vs) => sem_list(vs, label, "."@, span, id, sdefs),
        ExprV::Then(vs) => sem_list(vs, label, "."@, span, id, sdefs),
        ExprV::Call(_, args) => sem_args(args, label, span, id, sdefs),
        ExprV::Pipe(i, s) => {
            let a = sem(*i, label + ".input"@, span, id, sdefs);
            let b = sem(*s, label + ".stage"@, span, a.1, sdefs);
            (a.0 + b.0, b.1, seq![a.2, b.2])
        },
        ExprV::Binary(_, l, r) => {
            let a = sem(*l, label + ".left"@, span, id, sdefs);
            let b = sem(*r, label + ".right"@, span, a.1, sdefs);
            (a.0 + b.0, b.1, seq![a.2, b.2])
        },
        ExprV::Hold(_, body) => sem_list(body, label, ".hold."@, span, id, sdefs),
        ExprV::Match(_, arms) => sem_arms(arms, label, span, id, sdefs),
        ExprV::SourceAt(t) => {
            let a = sem(*t, label + ".target"@, span, id, sdefs);
            (a.0, a.1, seq![a.2])
        },
        ExprV::Link(t) => match t {
            Some(t) => {
                let a = sem(*t, label + ".target"@, span, id, sdefs);
                (a.0, a.1, seq![a.2])
            },
            None => (Seq::empty(), id, Seq::empty()),
        },
        ExprV::FieldAccess(b, _) => {
            let a = sem(*b, label + ".base"@, span, id, sdefs);
            (a.0, a.1, seq![a.2])
        },
        _ => (Seq::empty(), id, Seq::empty()),
    };
    let nid = c.1 + 1;
    let name = sem_name(nid, label);
    (
        c.0.push(
            SemNodeV {
                node: name,
                kind: sem_kind(e),
                shape: shape_for(label, sdefs),
                source_span: span,
                dependencies: c.2,
            },
        ),
        nid,
        name,
    )
}

pub open spec fn sem_list(
    vs: Seq<ExprV>,
    label: Seq<char>,
    sep: Seq<char>,
    span: Seq<char>,
    id: nat,
    sdefs: Seq<(Seq<char>, ShapeV)>,
) -> (Seq<SemNodeV>, nat, Seq<Seq<char>>)
    decreases vs,
{
    if vs.len() == 0 {
        (Seq::empty(), id, Seq::empty())
    } else {
        let p = sem_list(vs.drop_last(), label, sep, span, id, sdefs);
        let i = vs.len() - 1;
        let r = sem(vs[i], label + sep + decimal(i as nat), span, p.1, sdefs);
        (p.0 + r.0, r.1, p.2.push(r.2))
    }
}

pub open spec fn sem_fields(
    fs: Seq<FieldV>,
    label: Seq<char>,
    span: Seq<char>,
    id: nat,
    sdefs: Seq<(Seq<char>, ShapeV)>,
) -> (Seq<SemNodeV>, nat, Seq<Seq<char>>)
    decreases fs,
{
    if fs.len() == 0 {
        (Seq::empty(), id, Seq::empty())
    } else {
        let p = sem_fields(fs.drop_last(), label, span, id, sdefs);
        let f = fs[fs.len() - 1];
        let r = sem(f.value, label + "."@ + f.name, span, p.1, sdefs);
        (p.0 + r.0, r.1, p.2.push(r.2))
    }
}

pub open spec fn arg_label(a: ArgV, i: nat) -> Seq<char> {
    match a {
        ArgV::Positional(_) => decimal(i),
        ArgV::Named(n, _) => n,
    }
}

pub open spec fn sem_args(
    args: Seq<ArgV>,
    label: Seq<char>,
    span: Seq<char>,
    id: nat,
    sdefs: Seq<(Seq<char>, ShapeV)>,
) -> (Seq<SemNodeV>, nat, Seq<Seq<char>>)
    decreases args,
{
    if args.len() == 0 {
        (Seq::empty(), id, Seq::empty())
    } else {
        let p = sem_args(args.drop_last(), label, span, id, sdefs);
        let i = args.len() - 1;
        let l = label + "."@ + arg_label(args[i], i as nat);
        let r = match args[i] {
            ArgV::Positional(v) => sem(v, l, span, p.1, sdefs),
            ArgV::Named(_, v) => sem(v, l, span, p.1, sdefs),
        };
        (p.0 + r.0, r.1, p.2.push(r.2))
    }
}

pub open spec fn sem_arms(
    arms: Seq<ArmV>,
    label: Seq<char>,
    span: Seq<char>,
    id: nat,
    sdefs: Seq<(Seq<char>, ShapeV)>,
) -> (Seq<SemNodeV>, nat, Seq<Seq<char>>)
    decreases arms,
{
    if arms.len() == 0 {
        (Seq::empty(), id, Seq::empty())
    } else {
        let p = sem_arms(arms.drop_last(), label, span, id, sdefs);
        let a = arms[arms.len() - 1];
        let r = sem(a.value, label + ".arm."@ + a.pattern, span, p.1, sdefs);
        (p.0 + r.0, r.1, p.2.push(r.2))
    }
}

proof fn lemma_sem_grows(e: ExprV, label: Seq<char>, span: Seq<char>, id: nat, sdefs: Seq<(Seq<char>, ShapeV)>)
    ensures
        sem(e, label, span, id, sdefs).1 > id,
    decreases e,
{
    match e {
        ExprV::Record(fs) => lemma_sem_fields_grows(fs, label, span, id, sdefs),
        ExprV::Constructor(_, fs) => lemma_sem_fields_grows(fs, label, span, id, sdefs),
        ExprV::List(vs) => lemma_sem_list_grows(vs, label, "."@, span, id, sdefs),
        ExprV::Block(vs) => lemma_sem_list_grows(vs, label, "."@, span, id, sdefs),
        ExprV::Latest(vs) => lemma_sem_list_grows(vs, label, "."@, span, id, sdefs),
        ExprV::Then(vs) => lemma_sem_list_grows(vs, label, "."@, span, id, sdefs),
        ExprV::Call(_, args) => lemma_sem_args_grows(args, label, span, id, sdefs),
        ExprV::Pipe(i, s) => {
            lemma_sem_grows(*i, label + ".input"@, span, id, sdefs);
            let a = sem(*i, label + ".input"@, span, id, sdefs);
            lemma_sem_grows(*s, label + ".stage"@, span, a.1, sdefs);
        },
        ExprV::Binary(_, l, r) => {
            lemma_sem_grows(*l, label + ".left"@, span, id, sdefs);
            let a = sem(*l, label + ".left"@, span, id, sdefs);
            lemma_sem_grows(*r, label + ".right"@, span, a.1, sdefs);
        },
        ExprV::Hold(_, body) => lemma_sem_list_grows(body, label, ".hold."@, span, id, sdefs),
        ExprV::Match(_, arms) => lemma_sem_arms_grows(arms, label, span, id, sdefs),
        ExprV::SourceAt(t) => lemma_sem_grows(*t, label + ".target"@, span, id, sdefs),
        ExprV::Link(t) => match t {
            Some(t) => lemma_sem_grows(*t, label + ".target"@, span, id, sdefs),
            None => {},
        },
        ExprV::FieldAccess(b, _) => lemma_sem_grows(*b, label + ".base"@, span, id, sdefs),
        _ => {},
    }
}

proof fn lemma_sem_list_grows(
    vs: Seq<ExprV>,
    label: Seq<char>,
    sep: Seq<char>,
    span: Seq<char>,
    id: nat,
    sdefs: Seq<(Seq<char>, ShapeV)>,
)
    ensures
        sem_list(vs, label, sep, span, id, sdefs).1 >= id,
    decreases vs,
{
    if vs.len() > 0 {
        lemma_sem_list_grows(vs.drop_last(), label, sep, span, id, sdefs);
        let p = sem_list(vs.drop_last(), label, sep, span, id, sdefs);
        let i = vs.len() - 1;
        lemma_sem_grows(vs[i], label + sep + decimal(i as nat), span, p.1, sdefs);
    }
}

proof fn lemma_sem_fields_grows(
    fs: Seq<FieldV>,
    label: Seq<char>,
    span: Seq<char>,
    id: nat,
    sdefs: Seq<(Seq<char>, ShapeV)>,
)
    ensures
        sem_fields(fs, label, span, id, sdefs).1 >= id,
    decreases fs,
{
    if fs.len() > 0 {
        lemma_sem_fields_grows(fs.drop_last(), label, span, id, sdefs);
        let p = sem_fields(fs.drop_last(), label, span, id, sdefs);
        let f = fs[fs.len() - 1];
        lemma_sem_grows(f.value, label + "."@ + f.name, span, p.1, sdefs);
    }
}

proof fn lemma_sem_args_grows(
    args: Seq<ArgV>,
    label: Seq<char>,
    span: Seq<char>,
    id: nat,
    sdefs: Seq<(Seq<char>, ShapeV)>,
)
    ensures
        sem_args(args, label, span, id, sdefs).1 >= id,
    decreases args,
{
    if args.len() > 0 {
        lemma_sem_args_grows(args.drop_last(), label, span, id, sdefs);
        let p = sem_args(args.drop_last(), label, span, id, sdefs);
        let i = args.len() - 1;
        let l = label + "."@ + arg_label(args[i], i as nat);
        match args[i] {
            ArgV::Positional(v) => lemma_sem_grows(v, l, span, p.1, sdefs),
            ArgV::Named(_, v) => lemma_sem_grows(v, l, span, p.1, sdefs),
        }
    }
}

proof fn lemma_sem_arms_grows(
    arms: Seq<ArmV>,
    label: Seq<char>,
    span: Seq<char>,
    id: nat,
    sdefs: Seq<(Seq<char>, ShapeV)>,
)
    ensures
        sem_arms(arms, label, span, id, sdefs).1 >= id,
    decreases arms,
{
    if arms.len() > 0 {
        lemma_sem_arms_grows(arms.drop_last(), label, span, id, sdefs);
        let p = sem_arms(arms.drop_last(), label, span, id, sdefs);
        let a = arms[arms.len() - 1];
        lemma_sem_grows(a.value, label + ".arm."@ + a.pattern, span, p.1, sdefs);
    }
}

proof fn lemma_sem_list_prefix(
    vs: Seq<ExprV>,
    label: Seq<char>,
    sep: Seq<char>,
    span: Seq<char>,
    id: nat,
    sdefs: Seq<(Seq<char>, ShapeV)>,
    i: int,
)
    requires
        0 <= i <= vs.len(),
    ensures
        sem_list(vs.take(i), label, sep, span, id, sdefs).1 <= sem_list(vs, label, sep, span, id, sdefs).1,
    decreases vs.len() - i,
{
    if i < vs.len() {
        lemma_sem_list_prefix(vs, label, sep, span, id, sdefs, i + 1);
        let t = vs.take(i + 1);
        assert(t.drop_last() =~= vs.take(i));
        let p = sem_list(vs.take(i), label, sep, span, id, sdefs);
        lemma_sem_grows(t[i], label + sep + decimal(i as nat), span, p.1, sdefs);
    } else {
        assert(vs.take(i) =~= vs);
    }
}

proof fn lemma_sem_fields_prefix(
    fs: Seq<FieldV>,
    label: Seq<char>,
    span: Seq<char>,
    id: nat,
    sdefs: Seq<(Seq<char>, ShapeV)>,
    i: int,
)
    requires
        0 <= i <= fs.len(),
    ensures
        sem_fields(fs.take(i), label, span, id, sdefs).1 <= sem_fields(fs, label, span, id, sdefs).1,
    decreases fs.len() - i,
{
    if i < fs.len() {
        lemma_sem_fields_prefix(fs, label, span, id, sdefs, i + 1);
        let t = fs.take(i + 1);
        assert(t.drop_last() =~= fs.take(i));
        let p = sem_fields(fs.take(i), label, span, id, sdefs);
        lemma_sem_grows(t[i].value, label + "."@ + t[i].name, span, p.1, sdefs);
    } else {
        assert(fs.take(i) =~= fs);
    }
}

proof fn lemma_sem_args_prefix(
    args: Seq<ArgV>,
    label: Seq<char>,
    span: Seq<char>,
    id: nat,
    sdefs: Seq<(Seq<char>, ShapeV)>,
    i: int,
)
    requires
        0 <= i <= args.len(),
    ensures
        sem_args(args.take(i), label, span, id, sdefs).1 <= sem_args(args, label, span, id, sdefs).1,
    decreases args.len() - i,
{
    if i < args.len() {
        lemma_sem_args_prefix(args, label, span, id, sdefs, i + 1);
        let t = args.take(i + 1);
        assert(t.drop_last() =~= args.take(i));
        let p = sem_args(args.take(i), label, span, id, sdefs);
        let l = label + "."@ + arg_label(t[i], i as nat);
        match t[i] {
            ArgV::Positional(v) => lemma_sem_grows(v, l, span, p.1, sdefs),
            ArgV::Named(_, v) => lemma_sem_grows(v, l, span, p.1, sdefs),
        }
    } else {
        assert(args.take(i) =~= args);
    }
}

proof fn lemma_sem_arms_prefix(
    arms: Seq<ArmV>,
    label: Seq<char>,
    span: Seq<char>,
    id: nat,
    sdefs: Seq<(Seq<char>, ShapeV)>,
    i: int,
)
    requires
        0 <= i <= arms.len(),
    ensures
        sem_arms(arms.take(i), label, span, id, sdefs).1 <= sem_arms(arms, label, span, id, sdefs).1,
    decreases arms.len() - i,
{
    if i < arms.len() {
        lemma_sem_arms_prefix(arms, label, span, id, sdefs, i + 1);
        let t = arms.take(i + 1);
        assert(t.drop_last() =~= arms.take(i));
        let p = sem_arms(arms.take(i), label, span, id, sdefs);
        lemma_sem_grows(t[i].value, label + ".arm."@ + t[i].pattern, span, p.1, sdefs);
    } else {
        assert(arms.take(i) =~= arms);
    }
}

/// Numbers the semantic nodes of a module.
struct SemanticBuilder<'a> {
    shapes: &'a ShapeReport,
    nodes: Vec<SemanticNode>,
    next_id: usize,
}

fn shape_for_exec(label: &String, shapes: &ShapeReport) -> (r: String)
    ensures
        r@ == shape_for(label@, shapes.definitions.model()),
{
    let lc = chars_of(label.as_str());
    let d = find_char_pub(lc.as_slice(), '.', 0, lc.len());
    let root = crate::text::copy_range(lc.as_slice(), 0, d);
    proof {
        assert(root@ =~= label@.take(d as int));
    }
    match shapes.definitions.get_chars(root.as_slice()) {
        Some(s) => shape_debug_text(s),
        None => "Unknown".to_owned(),
    }
}

impl<'a> SemanticBuilder<'a> {
    spec fn sdefs(&self) -> Seq<(Seq<char>, ShapeV)> {
        self.shapes.definitions.model()
    }

    fn next_node(&mut self, label: &String) -> (r: NodeId)
        requires
            old(self).next_id < usize::MAX,
        ensures
            final(self).next_id == old(self).next_id + 1,
            r.0@ == sem_name((old(self).next_id + 1) as nat, label@),
            final(self).nodes@ == old(self).nodes@,
            final(self).shapes == old(self).shapes,
    {
        self.next_id = self.next_id + 1;
        let mut name = "Semantic".to_owned();
        let num = usize_text(self.next_id);
        push_str(&mut name, num.as_str());
        let p = to_pascal_identifier(label.as_str());
        push_str(&mut name, p.as_str());
        NodeId(name)
    }

    fn push_node(&mut self, n: SemanticNode)
        ensures
            sem_nodes_v(final(self).nodes@) == sem_nodes_v(old(self).nodes@).push(sem_node_v(n)),
            final(self).next_id == old(self).next_id,
            final(self).shapes == old(self).shapes,
    {
        proof {
            assert(sem_nodes_v(self.nodes@.push(n)) =~= sem_nodes_v(self.nodes@).push(sem_node_v(n)));
        }
        self.nodes.push(n);
    }

    fn visit_expr(&mut self, e: &Expr, label: &String, span: &String) -> (r: NodeId)
        requires
            sem(ev(*e), label@, span@, old(self).next_id as nat, old(self).sdefs()).1 <= usize::MAX,
        ensures
            sem_nodes_v(final(self).nodes@) == sem_nodes_v(old(self).nodes@) + sem(
                ev(*e),
                label@,
                span@,
                old(self).next_id as nat,
                old(self).sdefs(),
            ).0,
            final(self).next_id == sem(
                ev(*e),
                label@,
                span@,
                old(self).next_id as nat,
                old(self).sdefs(),
            ).1,
            r.0@ == sem(ev(*e), label@, span@, old(self).next_id as nat, old(self).sdefs()).2,
            final(self).shapes == old(self).shapes,
        decreases e, 0int,
    {
        let ghost sd = self.sdefs();
        let ghost id0 = self.next_id as nat;
        let ghost n0 = sem_nodes_v(self.nodes@);
        let deps: Vec<NodeId> = match e {
            Expr::Record(fs) => self.visit_fields(fs, label, span),
            Expr::Constructor { fields, .. } => self.visit_fields(fields, label, span),
            Expr::List(vs) => self.visit_list(vs, label, ".", span),
            Expr::Block(vs) => self.visit_list(vs, label, ".", span),
            Expr::Latest(vs) => self.visit_list(vs, label, ".", span),
            Expr::Then { body } => self.visit_list(body, label, ".", span),
            Expr::Call { args, .. } => self.visit_args(args, label, span),
            Expr::Pipe { input, stage } => {
                let la = concat(label, ".input");
                let lb = concat(label, ".stage");
                proof {
                    let a = sem(ev(**input), la@, span@, id0, sd);
                    lemma_sem_grows(ev(**stage), lb@, span@, a.1, sd);
                }
                let a = self.visit_expr(input, &la, span);
                let b = self.visit_expr(stage, &lb, span);
                let v = vec![a, b];
                proof {
                    assert(node_names(v@) =~= seq![v@[0].0@, v@[1].0@]);
                }
                v
            },
            Expr::Binary { left, right, .. } => {
                let la = concat(label, ".left");
                let lb = concat(label, ".right");
                proof {
                    let a = sem(ev(**left), la@, span@, id0, sd);
                    lemma_sem_grows(ev(**right), lb@, span@, a.1, sd);
                }
                let a = self.visit_expr(left, &la, span);
                let b = self.visit_expr(right, &lb, span);
                let v = vec![a, b];
                proof {
                    assert(node_names(v@) =~= seq![v@[0].0@, v@[1].0@]);
                }
                v
            },
            Expr::Hold { body, .. } => self.visit_list(body, label, ".hold.", span),
            Expr::Match { arms, .. } => self.visit_arms(arms, label, span),
            Expr::SourceAt { target } => {
                let la = concat(label, ".target");
                let a = self.visit_expr(target, &la, span);
                let v = vec![a];
                proof {
                    assert(node_names(v@) =~= seq![v@[0].0@]);
                }
                v
            },
            Expr::Link { target } => match target {
                Some(t) => {
                    let la = concat(label, ".target");
                    let a = self.visit_expr(t, &la, span);
                    let v = vec![a];
                    proof {
                        assert(node_names(v@) =~= seq![v@[0].0@]);
                    }
                    v
                },
                None => {
                    let v: Vec<NodeId> = Vec::new();
                    proof {
                        assert(node_names(v@) =~= Seq::<Seq<char>>::empty());
                        assert(sem_nodes_v(self.nodes@) =~= n0 + Seq::<SemNodeV>::empty());
                    }
                    v
                },
            },
            Expr::FieldAccess { base, .. } => {
                let la = concat(label, ".base");
                let a = self.visit_expr(base, &la, span);
                let v = vec![a];
                proof {
                    assert(node_names(v@) =~= seq![v@[0].0@]);
                }
                v
            },
            _ => {
                let v: Vec<NodeId> = Vec::new();
                proof {
                    assert(node_names(v@) =~= Seq::<Seq<char>>::empty());
                    assert(sem_nodes_v(self.nodes@) =~= n0 + Seq::<SemNodeV>::empty());
                }
                v
            },
        };
        let node = self.next_node(label);
        let n = SemanticNode {
            node: NodeId(copy_string(&node.0)),
            kind: semantic_kind(e),
            shape: shape_for_exec(label, self.shapes),
            source_span: copy_string(span),
            dependencies: deps,
        };
        self.push_node(n);
        proof {
            assert(sem_nodes_v(self.nodes@) =~= n0 + sem(ev(*e), label@, span@, id0, sd).0);
        }
        node
    }

    fn visit_list(&mut self, vs: &Vec<Expr>, label: &String, sep: &str, span: &String) -> (deps: Vec<
        NodeId,
    >)
        requires
            sem_list(evs(vs@), label@, sep@, span@, old(self).next_id as nat, old(self).sdefs()).1
                <= usize::MAX,
        ensures
            ({
                let res = sem_list(evs(vs@), label@, sep@, span@, old(self).next_id as nat, old(self).sdefs());
                &&& sem_nodes_v(final(self).nodes@) == sem_nodes_v(old(self).nodes@) + res.0
                &&& final(self).next_id == res.1
                &&& node_names(deps@) == res.2
            }),
            final(self).shapes == old(self).shapes,
        decreases vs, 0int,
    {
        let ghost s = evs(vs@);
        let ghost sd = self.sdefs();
        let ghost id0 = self.next_id as nat;
        let ghost n0 = sem_nodes_v(self.nodes@);
        let mut deps: Vec<NodeId> = Vec::new();
        let mut i: usize = 0;
        proof {
            assert(s.take(0) =~= Seq::<ExprV>::empty());
            assert(n0 + Seq::<SemNodeV>::empty() =~= n0);
            assert(node_names(deps@) =~= Seq::<Seq<char>>::empty());
        }
        while i < vs.len()
            invariant
                s == evs(vs@),
                sd == self.sdefs(),
                self.shapes == old(self).shapes,
                sd == old(self).sdefs(),
                id0 == old(self).next_id as nat,
                n0 == sem_nodes_v(old(self).nodes@),
                sem_list(s, label@, sep@, span@, id0, sd).1 <= usize::MAX,
                i <= vs@.len(),
                sem_nodes_v(self.nodes@) == n0 + sem_list(s.take(i as int), label@, sep@, span@, id0, sd).0,
                self.next_id == sem_list(s.take(i as int), label@, sep@, span@, id0, sd).1,
                node_names(deps@) == sem_list(s.take(i as int), label@, sep@, span@, id0, sd).2,
            decreases vs@.len() - i,
        {
            proof {
                assert(decreases_to!(vs@ => vs@[i as int]));
                assert(decreases_to!(*vs => vs@));
                assert(s.take(i + 1).drop_last() =~= s.take(i as int));
                assert(s[i as int] == ev(vs@[i as int]));
                lemma_sem_list_prefix(s, label@, sep@, span@, id0, sd, i + 1);
            }
            let mut l = concat(label, sep);
            let num = usize_text(i);
            push_str(&mut l, num.as_str());
            let d = self.visit_expr(&vs[i], &l, span);
            proof {
                assert(node_names(deps@.push(d)) =~= node_names(deps@).push(d.0@));
                assert(sem_nodes_v(self.nodes@) =~= n0 + sem_list(
                    s.take(i + 1),
                    label@,
                    sep@,
                    span@,
                    id0,
                    sd,
                ).0);
            }
            deps.push(d);
            i = i + 1;
        }
        proof {
            assert(s.take(i as int) =~= s);
        }
        deps
    }

    fn visit_fields(&mut self, fs: &Vec<RecordField>, label: &String, span: &String) -> (deps: Vec<
        NodeId,
    >)
        requires
            sem_fields(fvs(fs@), label@, span@, old(self).next_id as nat, old(self).sdefs()).1
                <= usize::MAX,
        ensures
            ({
                let res = sem_fields(fvs(fs@), label@, span@, old(self).next_id as nat, old(self).sdefs());
                &&& sem_nodes_v(final(self).nodes@) == sem_nodes_v(old(self).nodes@) + res.0
                &&& final(self).next_id == res.1
                &&& node_names(deps@) == res.2
            }),
            final(self).shapes == old(self).shapes,
        decreases fs, 0int,
    {
        let ghost s = fvs(fs@);
        let ghost sd = self.sdefs();
        let ghost id0 = self.next_id as nat;
        let ghost n0 = sem_nodes_v(self.nodes@);
        let mut deps: Vec<NodeId> = Vec::new();
        let mut i: usize = 0;
        proof {
            assert(s.take(0) =~= Seq::<FieldV>::empty());
            assert(n0 + Seq::<SemNodeV>::empty() =~= n0);
            assert(node_names(deps@) =~= Seq::<Seq<char>>::empty());
        }
        while i < fs.len()
            invariant
                s == fvs(fs@),
                sd == self.sdefs(),
                self.shapes == old(self).shapes,
                sd == old(self).sdefs(),
                id0 == old(self).next_id as nat,
                n0 == sem_nodes_v(old(self).nodes@),
                sem_fields(s, label@, span@, id0, sd).1 <= usize::MAX,
                i <= fs@.len(),
                sem_nodes_v(self.nodes@) == n0 + sem_fields(s.take(i as int), label@, span@, id0, sd).0,
                self.next_id == sem_fields(s.take(i as int), label@, span@, id0, sd).1,
                node_names(deps@) == sem_fields(s.take(i as int), label@, span@, id0, sd).2,
            decreases fs@.len() - i,
        {
            proof {
                assert(decreases_to!(fs@[i as int] => fs@[i as int].value));
                assert(decreases_to!(fs@ => fs@[i as int]));
                assert(decreases_to!(*fs => fs@));
                assert(s.take(i + 1).drop_last() =~= s.take(i as int));
                assert(s[i as int].value == ev(fs@[i as int].value));
                assert(s[i as int].name == fs@[i as int].name@);
                lemma_sem_fields_prefix(s, label@, span@, id0, sd, i + 1);
            }
            let mut l = concat(label, ".");
            push_str(&mut l, fs[i].name.as_str());
            let d = self.visit_expr(&fs[i].value, &l, span);
            proof {
                assert(node_names(deps@.push(d)) =~= node_names(deps@).push(d.0@));
                assert(sem_nodes_v(self.nodes@) =~= n0 + sem_fields(
                    s.take(i + 1),
                    label@,
                    span@,
                    id0,
                    sd,
                ).0);
            }
            deps.push(d);
            i = i + 1;
        }
        proof {
            assert(s.take(i as int) =~= s);
        }
        deps
    }

    fn visit_args(&mut self, args: &Vec<CallArg>, label: &String, span: &String) -> (deps: Vec<
        NodeId,
    >)
        requires
            sem_args(avs(args@), label@, span@, old(self).next_id as nat, old(self).sdefs()).1
                <= usize::MAX,
        ensures
            ({
                let res = sem_args(avs(args@), label@, span@, old(self).next_id as nat, old(self).sdefs());
                &&& sem_nodes_v(final(self).nodes@) == sem_nodes_v(old(self).nodes@) + res.0
                &&& final(self).next_id == res.1
                &&& node_names(deps@) == res.2
            }),
            final(self).shapes == old(self).shapes,
        decreases args, 0int,
    {
        let ghost s = avs(args@);
        let ghost sd = self.sdefs();
        let ghost id0 = self.next_id as nat;
        let ghost n0 = sem_nodes_v(self.nodes@);
        let mut deps: Vec<NodeId> = Vec::new();
        let mut i: usize = 0;
        proof {
            assert(s.take(0) =~= Seq::<ArgV>::empty());
            assert(n0 + Seq::<SemNodeV>::empty() =~= n0);
            assert(node_names(deps@) =~= Seq::<Seq<char>>::empty());
        }
        while i < args.len()
            invariant
                s == avs(args@),
                sd == self.sdefs(),
                self.shapes == old(self).shapes,
                sd == old(self).sdefs(),
                id0 == old(self).next_id as nat,
                n0 == sem_nodes_v(old(self).nodes@),
                sem_args(s, label@, span@, id0, sd).1 <= usize::MAX,
                i <= args@.len(),
                sem_nodes_v(self.nodes@) == n0 + sem_args(s.take(i as int), label@, span@, id0, sd).0,
                self.next_id == sem_args(s.take(i as int), label@, span@, id0, sd).1,
                node_names(deps@) == sem_args(s.take(i as int), label@, span@, id0, sd).2,
            decreases args@.len() - i,
        {
            proof {
                assert(decreases_to!(args@ => args@[i as int]));
                assert(decreases_to!(*args => args@));
                assert(s.take(i + 1).drop_last() =~= s.take(i as int));
                lemma_sem_args_prefix(s, label@, span@, id0, sd, i + 1);
            }
            let mut l = concat(label, ".");
            let d = match &args[i] {
                CallArg::Positional(v) => {
                    proof {
                        assert(decreases_to!(args@[i as int] => *v));
                    }
                    let num = usize_text(i);
                    push_str(&mut l, num.as_str());
                    self.visit_expr(v, &l, span)
                },
                CallArg::Named { name, value } => {
                    proof {
                        assert(decreases_to!(args@[i as int] => *value));
                    }
                    push_str(&mut l, name.as_str());
                    self.visit_expr(value, &l, span)
                },
            };
            proof {
                assert(node_names(deps@.push(d)) =~= node_names(deps@).push(d.0@));
                assert(sem_nodes_v(self.nodes@) =~= n0 + sem_args(
                    s.take(i + 1),
                    label@,
                    span@,
                    id0,
                    sd,
                ).0);
            }
            deps.push(d);
            i = i + 1;
        }
        proof {
            assert(s.take(i as int) =~= s);
        }
        deps
    }

    fn visit_arms(&mut self, arms: &Vec<MatchArm>, label: &String, span: &String) -> (deps: Vec<
        NodeId,
    >)
        requires
            sem_arms(mvs(arms@), label@, span@, old(self).next_id as nat, old(self).sdefs()).1
                <= usize::MAX,
        ensures
            ({
                let res = sem_arms(mvs(arms@), label@, span@, old(self).next_id as nat, old(self).sdefs());
                &&& sem_nodes_v(final(self).nodes@) == sem_nodes_v(old(self).nodes@) + res.0
                &&& final(self).next_id == res.1
                &&& node_names(deps@) == res.2
            }),
            final(self).shapes == old(self).shapes,
        decreases arms, 0int,
    {
        let ghost s = mvs(arms@);
        let ghost sd = self.sdefs();
        let ghost id0 = self.next_id as nat;
        let ghost n0 = sem_nodes_v(self.nodes@);
        let mut deps: Vec<NodeId> = Vec::new();
        let mut i: usize = 0;
        proof {
            assert(s.take(0) =~= Seq::<ArmV>::empty());
            assert(n0 + Seq::<SemNodeV>::empty() =~= n0);
            assert(node_names(deps@) =~= Seq::<Seq<char>>::empty());
        }
        while i < arms.len()
            invariant
                s == mvs(arms@),
                sd == self.sdefs(),
                self.shapes == old(self).shapes,
                sd == old(self).sdefs(),
                id0 == old(self).next_id as nat,
                n0 == sem_nodes_v(old(self).nodes@),
                sem_arms(s, label@, span@, id0, sd).1 <= usize::MAX,
                i <= arms@.len(),
                sem_nodes_v(self.nodes@) == n0 + sem_arms(s.take(i as int), label@, span@, id0, sd).0,
                self.next_id == sem_arms(s.take(i as int), label@, span@, id0, sd).1,
                node_names(deps@) == sem_arms(s.take(i as int), label@, span@, id0, sd).2,
            decreases arms@.len() - i,
        {
            proof {
                assert(decreases_to!(arms@[i as int] => arms@[i as int].value));
                assert(decreases_to!(arms@ => arms@[i as int]));
                assert(decreases_to!(*arms => arms@));
                assert(s.take(i + 1).drop_last() =~= s.take(i as int));
                assert(s[i as int].value == ev(arms@[i as int].value));
                assert(s[i as int].pattern == arms@[i as int].pattern@);
                lemma_sem_arms_prefix(s, label@, span@, id0, sd, i + 1);
            }
            let mut l = concat(label, ".arm.");
            push_str(&mut l, arms[i].pattern.as_str());
            let d = self.visit_expr(&arms[i].value, &l, span);
            proof {
                assert(node_names(deps@.push(d)) =~= node_names(deps@).push(d.0@));
                assert(sem_nodes_v(self.nodes@) =~= n0 + sem_arms(
                    s.take(i + 1),
                    label@,
                    span@,
                    id0,
                    sd,
                ).0);
            }
            deps.push(d);
            i = i + 1;
        }
        proof {
            assert(s.take(i as int) =~= s);
        }
        deps
    }
}

/// Where a definition stands: `path:start..end`.
pub open spec fn def_span(path: Seq<char>, d: DefV) -> Seq<char> {
    path + ":"@ + decimal(d.span.start as nat) + ".."@ + decimal(d.span.end as nat)
}

/// The semantic nodes of the definitions, in order, and how many there are.
pub open spec fn sem_defs(defs: Seq<DefV>, path: Seq<char>, sdefs: Seq<(Seq<char>, ShapeV)>) -> (
    Seq<SemNodeV>,
    nat,
)
    decreases defs.len(),
{
    if defs.len() == 0 {
        (Seq::empty(), 0)
    } else {
        let p = sem_defs(defs.drop_last(), path, sdefs);
        let d = defs[defs.len() - 1];
        let r = sem(d.expr, d.name, def_span(path, d), p.1, sdefs);
        (p.0 + r.0, r.1)
    }
}

proof fn lemma_sem_defs_prefix(defs: Seq<DefV>, path: Seq<char>, sdefs: Seq<(Seq<char>, ShapeV)>, i: int)
    requires
        0 <= i <= defs.len(),
    ensures
        sem_defs(defs.take(i), path, sdefs).1 <= sem_defs(defs, path, sdefs).1,
    decreases defs.len() - i,
{
    if i < defs.len() {
        lemma_sem_defs_prefix(defs, path, sdefs, i + 1);
        let t = defs.take(i + 1);
        assert(t.drop_last() =~= defs.take(i));
        let p = sem_defs(defs.take(i), path, sdefs);
        lemma_sem_grows(t[i].expr, t[i].name, def_span(path, t[i]), p.1, sdefs);
    } else {
        assert(defs.take(i) =~= defs);
    }
}

pub struct SemanticIrV {
    pub source_path: Seq<char>,
    pub nodes: Seq<SemNodeV>,
    pub monitor_node: Seq<char>,
    pub render_node: Seq<char>,
    pub physical_scene: bool,
}

pub open spec fn semantic_ir_v(s: SemanticIr) -> SemanticIrV {
    SemanticIrV {
        source_path: s.source_path@,
        nodes: sem_nodes_v(s.nodes@),
        monitor_node: s.outputs.monitor_node.0@,
        render_node: s.outputs.render_node.0@,
        physical_scene: s.outputs.physical_scene,
    }
}

/// The semantic IR: the definitions' nodes, then the render sink and the
/// monitor tap.
pub open spec fn semantic_spec(
    defs: Seq<DefV>,
    path: Seq<char>,
    sdefs: Seq<(Seq<char>, ShapeV)>,
    g: GraphV,
) -> SemanticIrV {
    SemanticIrV {
        source_path: path,
        nodes: sem_defs(defs, path, sdefs).0 + seq![
            SemNodeV {
                node: g.render_node,
                kind: SemanticNodeKind::RenderSink,
                shape: "Document"@,
                source_span: path + ":document"@,
                dependencies: Seq::empty(),
            },
            SemNodeV {
                node: g.monitor_node,
                kind: SemanticNodeKind::MonitorTap,
                shape: "Text"@,
                source_span: path + ":document"@,
                dependencies: Seq::empty(),
            },
        ],
        monitor_node: g.monitor_node,
        render_node: g.render_node,
        physical_scene: g.physical_scene,
    }
}

fn build_semantic_ir(hir: &HirModule, shapes: &ShapeReport, graph: &StaticGraph) -> (r: SemanticIr)
    requires
        sem_defs(hdefvs(hir.definitions@), hir.source_path@, shapes.definitions.model()).1
            <= usize::MAX,
    ensures
        semantic_ir_v(r) == semantic_spec(
            hdefvs(hir.definitions@),
            hir.source_path@,
            shapes.definitions.model(),
            graph_v(*graph),
        ),
{
    let ghost dv = hdefvs(hir.definitions@);
    let ghost path = hir.source_path@;
    let ghost sd = shapes.definitions.model();
    let mut builder = SemanticBuilder { shapes, nodes: Vec::new(), next_id: 0 };
    let mut k: usize = 0;
    proof {
        assert(dv.take(0) =~= Seq::<DefV>::empty());
        assert(sem_nodes_v(builder.nodes@) =~= Seq::<SemNodeV>::empty());
    }
    while k < hir.definitions.len()
        invariant
            dv == hdefvs(hir.definitions@),
            path == hir.source_path@,
            sd == shapes.definitions.model(),
            builder.shapes == shapes,
            sem_defs(dv, path, sd).1 <= usize::MAX,
            k <= hir.definitions@.len(),
            sem_nodes_v(builder.nodes@) == sem_defs(dv.take(k as int), path, sd).0,
            builder.next_id == sem_defs(dv.take(k as int), path, sd).1,
        decreases hir.definitions@.len() - k,
    {
        let d = &hir.definitions[k];
        proof {
            assert(dv.take(k + 1).drop_last() =~= dv.take(k as int));
            assert(dv[k as int].expr == ev(d.expression));
            assert(dv[k as int].name == d.name@);
            assert(dv[k as int].span == d.span);
            lemma_sem_defs_prefix(dv, path, sd, k + 1);
        }
        let mut span = concat(&hir.source_path, ":");
        let a = usize_text(d.span.start);
        push_str(&mut span, a.as_str());
        push_str(&mut span, "..");
        let b = usize_text(d.span.end);
        push_str(&mut span, b.as_str());
        let _ = builder.visit_expr(&d.expression, &d.name, &span);
        k = k + 1;
    }
    proof {
        assert(dv.take(k as int) =~= dv);
    }
    let doc_span = concat(&hir.source_path, ":document");
    let render = SemanticNode {
        node: NodeId(copy_string(&graph.render_node.0)),
        kind: SemanticNodeKind::RenderSink,
        shape: "Document".to_owned(),
        source_span: copy_string(&doc_span),
        dependencies: Vec::new(),
    };
    let monitor = SemanticNode {
        node: NodeId(copy_string(&graph.monitor_node.0)),
        kind: SemanticNodeKind::MonitorTap,
        shape: "Text".to_owned(),
        source_span: copy_string(&doc_span),
        dependencies: Vec::new(),
    };
    proof {
        assert(sem_node_v(render).dependencies =~= Seq::<Seq<char>>::empty());
        assert(sem_node_v(monitor).dependencies =~= Seq::<Seq<char>>::empty());
    }
    builder.push_node(render);
    builder.push_node(monitor);
    let r = SemanticIr {
        source_path: copy_string(&hir.source_path),
        nodes: builder.nodes,
        outputs: SemanticOutputs {
            monitor_node: NodeId(copy_string(&graph.monitor_node.0)),
            render_node: NodeId(copy_string(&graph.render_node.0)),
            physical_scene: graph.physical_scene,
        },
    };
    proof {
        assert(semantic_ir_v(r).nodes =~= semantic_spec(dv, path, sd, graph_v(*graph)).nodes);
    }
    r
}

// ---------------------------------------------------------------------------
// Dataflow IR
// ---------------------------------------------------------------------------

/// The semantic kind an operator lowers, if any.
pub open spec fn op_sem_kind(k: GraphOperatorKind) -> Option<SemanticNodeKind> {
    match k {
        GraphOperatorKind::SourceLeaf => Some(SemanticNodeKind::SourceLeaf),
        GraphOperatorKind::Then => Some(SemanticNodeKind::Then),
        GraphOperatorKind::ThenConst => Some(SemanticNodeKind::Then),
        GraphOperatorKind::When => Some(SemanticNodeKind::When),
        GraphOperatorKind::WhileSwitch => Some(SemanticNodeKind::While),
        GraphOperatorKind::Latest => Some(SemanticNodeKind::Latest),
        GraphOperatorKind::Hold => Some(SemanticNodeKind::Hold),
        GraphOperatorKind::KeyedHold => Some(SemanticNodeKind::Hold),
        GraphOperatorKind::ListAppend => Some(SemanticNodeKind::LibraryCall),
        GraphOperatorKind::ListRemove => Some(SemanticNodeKind::LibraryCall),
        GraphOperatorKind::ListMap => Some(SemanticNodeKind::LibraryCall),
        GraphOperatorKind::ListRetain => Some(SemanticNodeKind::LibraryCall),
        GraphOperatorKind::RenderSink => Some(SemanticNodeKind::RenderSink),
        GraphOperatorKind::EffectSink => None,
        GraphOperatorKind::PersistTap => None,
        GraphOperatorKind::MonitorTap => Some(SemanticNodeKind::MonitorTap),
        GraphOperatorKind::LibraryCall => Some(SemanticNodeKind::LibraryCall),
        GraphOperatorKind::BinaryAdd => Some(SemanticNodeKind::BinaryAdd),
        GraphOperatorKind::PathReference => Some(SemanticNodeKind::PathReference),
        GraphOperatorKind::Skip => Some(SemanticNodeKind::Skip),
        GraphOperatorKind::ConstantText => Some(SemanticNodeKind::ConstantText),
        GraphOperatorKind::ConstantNumber => Some(SemanticNodeKind::ConstantNumber),
        GraphOperatorKind::Tag => Some(SemanticNodeKind::Tag),
        GraphOperatorKind::Record => Some(SemanticNodeKind::Record),
        GraphOperatorKind::List => Some(SemanticNodeKind::List),
        GraphOperatorKind::Pipe => Some(SemanticNodeKind::Pipe),
    }
}

fn semantic_kind_for_operator(k: GraphOperatorKind) -> (r: Option<SemanticNodeKind>)
    ensures
        r == op_sem_kind(k),
{
    match k {
        GraphOperatorKind::SourceLeaf => Some(SemanticNodeKind::SourceLeaf),
        GraphOperatorKind::Then => Some(SemanticNodeKind::Then),
        GraphOperatorKind::ThenConst => Some(SemanticNodeKind::Then),
        GraphOperatorKind::When => Some(SemanticNodeKind::When),
        GraphOperatorKind::WhileSwitch => Some(SemanticNodeKind::While),
        GraphOperatorKind::Latest => Some(SemanticNodeKind::Latest),
        GraphOperatorKind::Hold => Some(SemanticNodeKind::Hold),
        GraphOperatorKind::KeyedHold => Some(SemanticNodeKind::Hold),
        GraphOperatorKind::ListAppend => Some(SemanticNodeKind::LibraryCall),
        GraphOperatorKind::ListRemove => Some(SemanticNodeKind::LibraryCall),
        GraphOperatorKind::ListMap => Some(SemanticNodeKind::LibraryCall),
        GraphOperatorKind::ListRetain => Some(SemanticNodeKind::LibraryCall),
        GraphOperatorKind::RenderSink => Some(SemanticNodeKind::RenderSink),
        GraphOperatorKind::EffectSink => None,
        GraphOperatorKind::PersistTap => None,
        GraphOperatorKind::MonitorTap => Some(SemanticNodeKind::MonitorTap),
        GraphOperatorKind::LibraryCall => Some(SemanticNodeKind::LibraryCall),
        GraphOperatorKind::BinaryAdd => Some(SemanticNodeKind::BinaryAdd),
        GraphOperatorKind::PathReference => Some(SemanticNodeKind::PathReference),
        GraphOperatorKind::Skip => Some(SemanticNodeKind::Skip),
        GraphOperatorKind::ConstantText => Some(SemanticNodeKind::ConstantText),
        GraphOperatorKind::ConstantNumber => Some(SemanticNodeKind::ConstantNumber),
        GraphOperatorKind::Tag => Some(SemanticNodeKind::Tag),
        GraphOperatorKind::Record => Some(SemanticNodeKind::Record),
        GraphOperatorKind::List => Some(SemanticNodeKind::List),
        GraphOperatorKind::Pipe => Some(SemanticNodeKind::Pipe),
    }
}

/// Some operator lowers nodes of this kind.
pub open spec fn lowered(ops: Seq<OperatorV>, k: SemanticNodeKind) -> bool {
    exists|i: int| 0 <= i < ops.len() && #[trigger] op_sem_kind(ops[i].kind) == Some(k)
}

/// Kinds that need no operator of their own.
pub open spec fn plain_kind(k: SemanticNodeKind) -> bool {
    k == SemanticNodeKind::ConstantText || k == SemanticNodeKind::ConstantNumber || k
        == SemanticNodeKind::PathReference || k == SemanticNodeKind::Pipe || k
        == SemanticNodeKind::Skip || k == SemanticNodeKind::Tag || k == SemanticNodeKind::Record
        || k == SemanticNodeKind::List
}

/// The semantic nodes, in order, that no operator lowers.
pub open spec fn unsupported(nodes: Seq<SemNodeV>, ops: Seq<OperatorV>) -> Seq<Seq<char>>
    decreases nodes.len(),
{
    if nodes.len() == 0 {
        Seq::empty()
    } else {
        let p = unsupported(nodes.drop_last(), ops);
        let n = nodes[nodes.len() - 1];
        if !plain_kind(n.kind) && !lowered(ops, n.kind) {
            p.push(n.node)
        } else {
            p
        }
    }
}

pub open spec fn dd_node_v(n: DdGraphNode) -> OperatorV {
    OperatorV {
        node: n.node.0@,
        kind: n.operator,
        inputs: node_names(n.inputs@),
        output: n.output.0@,
        order: n.order,
    }
}

pub struct DdGraphIrV {
    pub graph_id: Seq<char>,
    pub source_hash: Seq<char>,
    pub nodes: Seq<OperatorV>,
    pub unsupported: Seq<Seq<char>>,
    pub program: ProgramV,
    pub schema_version: Seq<char>,
    pub sinks: Seq<SinkV>,
}

pub open spec fn dd_ir_v(d: DdGraphIr) -> DdGraphIrV {
    DdGraphIrV {
        graph_id: d.graph_id@,
        source_hash: d.source_hash@,
        nodes: d.nodes@.map_values(|n: DdGraphNode| dd_node_v(n)),
        unsupported: node_names(d.unsupported_semantic_nodes@),
        program: program_v(d.render_program),
        schema_version: d.output_protocol.schema_version@,
        sinks: d.output_protocol.sinks@.map_values(|s: DdOutputSink| sink_v(s)),
    }
}

/// The dataflow IR of a module, from its graph and semantic nodes.
pub open spec fn dd_ir_spec(defs: Seq<DefV>, g: GraphV, nodes: Seq<SemNodeV>) -> DdGraphIrV {
    let program = program_spec(defs, g.render_node);
    DdGraphIrV {
        graph_id: g.graph_id,
        source_hash: g.source_hash,
        nodes: g.operators,
        unsupported: unsupported(nodes, g.operators),
        program,
        schema_version: "boon-dd-output-v1"@,
        sinks: sinks_spec(g.operators, g.monitor_node, g.render_node, program.source),
    }
}

fn lowered_exec(ops: &Vec<GraphOperator>, k: SemanticNodeKind) -> (r: bool)
    ensures
        r == lowered(operators_v(ops@), k),
{
    let mut i: usize = 0;
    while i < ops.len()
        invariant
            i <= ops@.len(),
            forall|j: int| 0 <= j < i ==> op_sem_kind(ops@[j].kind) != Some(k),
        decreases ops@.len() - i,
    {
        if semantic_kind_for_operator(ops[i].kind) == Some(k) {
            proof {
                assert(operators_v(ops@)[i as int].kind == ops@[i as int].kind);
            }
            return true;
        }
        i = i + 1;
    }
    proof {
        if lowered(operators_v(ops@), k) {
            let j = choose|j: int| 0 <= j < operators_v(ops@).len() && #[trigger] op_sem_kind(
                operators_v(ops@)[j].kind,
            ) == Some(k);
            assert(operators_v(ops@)[j].kind == ops@[j].kind);
        }
    }
    false
}

fn is_plain_kind(k: SemanticNodeKind) -> (r: bool)
    ensures
        r == plain_kind(k),
{
    match k {
        SemanticNodeKind::ConstantText => true,
        SemanticNodeKind::ConstantNumber => true,
        SemanticNodeKind::PathReference => true,
        SemanticNodeKind::Pipe => true,
        SemanticNodeKind::Skip => true,
        SemanticNodeKind::Tag => true,
        SemanticNodeKind::Record => true,
        SemanticNodeKind::List => true,
        _ => false,
    }
}

fn copy_node_ids(v: &Vec<NodeId>) -> (r: Vec<NodeId>)
    ensures
        node_names(r@) == node_names(v@),
{
    let mut out: Vec<NodeId> = Vec::new();
    let mut i: usize = 0;
    while i < v.len()
        invariant
            i <= v@.len(),
            node_names(out@) == node_names(v@).take(i as int),
        decreases v@.len() - i,
    {
        let x = NodeId(copy_string(&v[i].0));
        proof {
            assert(node_names(out@.push(x)) =~= node_names(out@).push(x.0@));
        }
        out.push(x);
        i = i + 1;
        proof {
            assert(node_names(v@).take(i as int) =~= node_names(v@).take(i - 1).push(v@[i - 1].0@));
        }
    }
    proof {
        assert(node_names(v@).take(i as int) =~= node_names(v@));
    }
    out
}

fn lower_semantic_to_dd(semantic_ir: &SemanticIr, graph: &StaticGraph, hir: &HirModule) -> (r: DdGraphIr)
    requires
        renders(hdefvs(hir.definitions@)),
    ensures
        dd_ir_v(r) == dd_ir_spec(hdefvs(hir.definitions@), graph_v(*graph), sem_nodes_v(semantic_ir.nodes@)),
{
    let ghost ops = operators_v(graph.operators@);
    let ghost sn = sem_nodes_v(semantic_ir.nodes@);
    let mut unsupported_nodes: Vec<NodeId> = Vec::new();
    let mut i: usize = 0;
    proof {
        assert(sn.take(0) =~= Seq::<SemNodeV>::empty());
        assert(node_names(unsupported_nodes@) =~= Seq::<Seq<char>>::empty());
    }
    while i < semantic_ir.nodes.len()
        invariant
            ops == operators_v(graph.operators@),
            sn == sem_nodes_v(semantic_ir.nodes@),
            i <= semantic_ir.nodes@.len(),
            node_names(unsupported_nodes@) == unsupported(sn.take(i as int), ops),
        decreases semantic_ir.nodes@.len() - i,
    {
        let n = &semantic_ir.nodes[i];
        proof {
            assert(sn.take(i + 1).drop_last() =~= sn.take(i as int));
            assert(sn.take(i + 1)[i as int] == sem_node_v(*n));
        }
        if !is_plain_kind(n.kind) && !lowered_exec(&graph.operators, n.kind) {
            let x = NodeId(copy_string(&n.node.0));
            proof {
                assert(node_names(unsupported_nodes@.push(x)) =~= node_names(unsupported_nodes@).push(x.0@));
            }
            unsupported_nodes.push(x);
        }
        i = i + 1;
    }
    proof {
        assert(sn.take(i as int) =~= sn);
    }
    let mut nodes: Vec<DdGraphNode> = Vec::new();
    let mut j: usize = 0;
    while j < graph.operators.len()
        invariant
            ops == operators_v(graph.operators@),
            j <= graph.operators@.len(),
            nodes@.map_values(|n: DdGraphNode| dd_node_v(n)) == ops.take(j as int),
        decreases graph.operators@.len() - j,
    {
        let o = &graph.operators[j];
        let x = DdGraphNode {
            node: NodeId(copy_string(&o.node.0)),
            operator: o.kind,
            inputs: copy_node_ids(&o.inputs),
            output: NodeId(copy_string(&o.output.0)),
            order: o.order,
        };
        proof {
            assert(nodes@.push(x).map_values(|n: DdGraphNode| dd_node_v(n)) =~= nodes@.map_values(
                |n: DdGraphNode| dd_node_v(n),
            ).push(dd_node_v(x)));
            assert(ops.take(j + 1) =~= ops.take(j as int).push(ops[j as int]));
            assert(dd_node_v(x) == ops[j as int]);
        }
        nodes.push(x);
        j = j + 1;
    }
    proof {
        assert(ops.take(j as int) =~= ops);
    }
    let render_program = dd_render_program_from_hir(hir, graph);
    let output_protocol = dd_output_protocol(graph, &render_program);
    DdGraphIr {
        graph_id: copy_string(&graph.graph_id),
        source_hash: copy_string(&graph.source_hash),
        nodes,
        unsupported_semantic_nodes: unsupported_nodes,
        output_protocol,
        render_program,
    }
}

// ---------------------------------------------------------------------------
// Compiling a source text
// ---------------------------------------------------------------------------

/// The definitions of a source text.
pub open spec fn module_defs(text: Seq<char>) -> Seq<DefV> {
    parse_spec(text).defs
}

/// The event sources of a source text.
pub open spec fn module_srcs(text: Seq<char>) -> Seq<(Seq<char>, bool)> {
    srcs_upto(module_defs(text), module_defs(text).len() as int)
}

pub open spec fn module_src_paths(text: Seq<char>) -> Seq<Seq<char>> {
    module_srcs(text).map_values(|x: (Seq<char>, bool)| x.0)
}

/// The definition shapes of a source text.
pub open spec fn module_sdefs(text: Seq<char>) -> Seq<(Seq<char>, ShapeV)> {
    check_upto(module_defs(text), module_src_paths(text), module_defs(text).len() as int).0
}

/// The static graph of a source text.
pub open spec fn plan_graph(path: Seq<char>, text: Seq<char>) -> GraphV {
    graph_spec(
        module_defs(text),
        module_srcs(text),
        source_markers(module_src_paths(text)),
        path,
        text,
    )
}

/// The semantic IR of a source text.
pub open spec fn plan_semantic(path: Seq<char>, text: Seq<char>) -> SemanticIrV {
    semantic_spec(module_defs(text), path, module_sdefs(text), plan_graph(path, text))
}

/// The number of semantic nodes of a source text's definitions.
pub open spec fn semantic_count(path: Seq<char>, text: Seq<char>) -> nat {
    sem_defs(module_defs(text), path, module_sdefs(text)).1
}

/// Compiles a source text: parses it, resolves names, checks shapes, and
/// builds the static graph, the semantic IR and the dataflow IR.
///
/// The text must be one the parser accepts, the document's render
/// expression must be finite, and the semantic nodes must be countable in
/// a `usize`.
pub fn compile_source(path: &str, text: &str) -> (plan: CompilePlan)
    requires
        byte_len(text@) <= usize::MAX,
        source_accepted(text@),
        renders(module_defs(text@)),
        semantic_count(path@, text@) <= usize::MAX,
    ensures
        plan.source_path@ == path@,
        graph_v(plan.graph) == plan_graph(path@, text@),
        plan.graph.source_hash@.len() == 64,
        plan.graph.source_hash@ == hex(sha256_digest(text@)),
        plan.graph.graph_id@ == "module_"@ + plan.graph.source_hash@.take(16),
        plan.dd_graph_ir.graph_id@ == plan.graph.graph_id@,
        bindings_law(graph_v(plan.graph).bindings, module_src_paths(text@)),
        plan.graph.nodes@.len() == 2 + plan.graph.source_bindings@.len(),
        semantic_ir_v(plan.semantic_ir) == plan_semantic(path@, text@),
        dd_ir_v(plan.dd_graph_ir) == dd_ir_spec(
            module_defs(text@),
            plan_graph(path@, text@),
            plan_semantic(path@, text@).nodes,
        ),
{
    let parsed = parse_source(path, text);
    let hir = lower(&parsed);
    proof {
        assert(src_paths(hir) =~= module_src_paths(text@));
    }
    let shapes = check_module(&hir);
    let graph = build_static_graph(&parsed, &hir, &shapes);
    let semantic_ir = build_semantic_ir(&hir, &shapes, &graph);
    let dd_graph_ir = lower_semantic_to_dd(&semantic_ir, &graph, &hir);
    proof {
        lemma_source_bindings(path@, text@);
        assert(graph_v(graph).nodes.len() == graph.nodes@.len());
        assert(graph_v(graph).bindings.len() == graph.source_bindings@.len());
    }
    CompilePlan { source_path: hir.source_path, semantic_ir, dd_graph_ir, graph }
}

/// The depth of nested path replacements that a compiled document may need;
/// a definition that reaches itself needs more than any depth.
pub const RENDER_DEPTH: u64 = 1024;

/// Compiles a source text, or answers `None` where compiling cannot go
/// through: the parser cannot read the text, or replacing the paths of the
/// document's render expression does not come to an end within
/// `RENDER_DEPTH` nested replacements (as when a definition reaches itself).
/// This is stricter than `compile_source`, which takes every text whose
/// replacements end at some depth: a text that ends only deeper than
/// `RENDER_DEPTH` gets `None` here. Callers that must take such texts check
/// `renders` by other means and call `compile_source`.
pub fn try_compile_source(path: &str, text: &str) -> (r: Option<CompilePlan>)
    requires
        byte_len(text@) <= usize::MAX,
        semantic_count(path@, text@) <= usize::MAX,
    ensures
        r is None <==> !source_accepted(text@) || !(program_op(
            module_defs(text@),
            RENDER_DEPTH as nat,
        ) is Some),
        r matches Some(plan) ==> {
            &&& plan.source_path@ == path@
            &&& graph_v(plan.graph) == plan_graph(path@, text@)
            &&& plan.graph.source_hash@.len() == 64
            &&& plan.graph.source_hash@ == hex(sha256_digest(text@))
            &&& plan.graph.graph_id@ == "module_"@ + plan.graph.source_hash@.take(16)
            &&& plan.dd_graph_ir.graph_id@ == plan.graph.graph_id@
            &&& bindings_law(graph_v(plan.graph).bindings, module_src_paths(text@))
            &&& plan.graph.nodes@.len() == 2 + plan.graph.source_bindings@.len()
            &&& semantic_ir_v(plan.semantic_ir) == plan_semantic(path@, text@)
            &&& dd_ir_v(plan.dd_graph_ir) == dd_ir_spec(
                module_defs(text@),
                plan_graph(path@, text@),
                plan_semantic(path@, text@).nodes,
            )
        },
{
    if !accepts_source(text) {
        return None;
    }
    let parsed = parse_source(path, text);
    let hir = lower(&parsed);
    if !program_renders_within(&hir, RENDER_DEPTH) {
        return None;
    }
    proof {
        assert(program_op(module_defs(text@), RENDER_DEPTH as nat) is Some);
        assert(renders(module_defs(text@)));
        assert(src_paths(hir) =~= module_src_paths(text@));
    }
    let shapes = check_module(&hir);
    let graph = build_static_graph(&parsed, &hir, &shapes);
    let semantic_ir = build_semantic_ir(&hir, &shapes, &graph);
    let dd_graph_ir = lower_semantic_to_dd(&semantic_ir, &graph, &hir);
    proof {
        lemma_source_bindings(path@, text@);
        assert(graph_v(graph).nodes.len() == graph.nodes@.len());
        assert(graph_v(graph).bindings.len() == graph.source_bindings@.len());
    }
    Some(CompilePlan { source_path: hir.source_path, semantic_ir, dd_graph_ir, graph })
}

/// Each entry of an insertion is an entry of the map or the inserted one.
proof fn lemma_ins_absent_entries(
    s: Seq<(Seq<char>, BindingV)>,
    k: Seq<char>,
    v: BindingV,
    p: spec_fn((Seq<char>, BindingV)) -> bool,
)
    requires
        forall|i: int| 0 <= i < s.len() ==> #[trigger] p(s[i]),
        p((k, v)),
    ensures
        forall|i: int| 0 <= i < ins_absent(s, k, v).len() ==> #[trigger] p(ins_absent(s, k, v)[i]),
    decreases s.len(),
{
    let r = ins_absent(s, k, v);
    if s.len() == 0 {
        assert(r =~= seq![(k, v)]);
    } else if s[0].0 == k {
    } else if key_lt(k, s[0].0) {
        assert forall|i: int| 0 <= i < r.len() implies #[trigger] p(r[i]) by {
            if i > 0 {
                assert(r[i] == s[i - 1]);
            }
        }
    } else {
        let t = s.drop_first();
        assert forall|i: int| 0 <= i < t.len() implies #[trigger] p(t[i]) by {
            assert(t[i] == s[i + 1]);
        }
        lemma_ins_absent_entries(t, k, v, p);
        let rt = ins_absent(t, k, v);
        assert forall|i: int| 0 <= i < r.len() implies #[trigger] p(r[i]) by {
            if i > 0 {
                assert(r[i] == rt[i - 1]);
            }
        }
    }
}

proof fn lemma_bindings_fold(srcs: Seq<(Seq<char>, bool)>, ssrcs: Seq<(Seq<char>, ShapeV)>)
    ensures
        sorted_keys(bindings_fold(srcs, ssrcs)),
        forall|x: Seq<char>| #[trigger] has_key(bindings_fold(srcs, ssrcs), x) <==> srcs.map_values(
            |e: (Seq<char>, bool)| e.0,
        ).contains(x),
        forall|i: int|
            0 <= i < bindings_fold(srcs, ssrcs).len() ==> #[trigger] bindings_fold(srcs, ssrcs)[i].1
                == binding_of(bindings_fold(srcs, ssrcs)[i].0, ssrcs),
    decreases srcs.len(),
{
    let f = bindings_fold(srcs, ssrcs);
    let ps = srcs.map_values(|e: (Seq<char>, bool)| e.0);
    if srcs.len() > 0 {
        let q = srcs.drop_last();
        let last = srcs[srcs.len() - 1].0;
        let qs = q.map_values(|e: (Seq<char>, bool)| e.0);
        lemma_bindings_fold(q, ssrcs);
        let g = bindings_fold(q, ssrcs);
        lemma_ins_sorted(g, last, binding_of(last, ssrcs));
        let p = |e: (Seq<char>, BindingV)| e.1 == binding_of(e.0, ssrcs);
        assert forall|i: int| 0 <= i < g.len() implies #[trigger] p(g[i]) by {}
        lemma_ins_absent_entries(g, last, binding_of(last, ssrcs), p);
        assert forall|i: int| 0 <= i < f.len() implies #[trigger] f[i].1 == binding_of(f[i].0, ssrcs) by {
            assert(p(f[i]));
        }
        assert forall|x: Seq<char>| #[trigger] has_key(f, x) <==> ps.contains(x) by {
            lemma_ins_keys(g, last, binding_of(last, ssrcs), x);
            if qs.contains(x) {
                let i = choose|i: int| 0 <= i < qs.len() && qs[i] == x;
                assert(ps[i] == x);
            }
            if ps.contains(x) && x != last {
                let i = choose|i: int| 0 <= i < ps.len() && ps[i] == x;
                assert(qs[i] == x);
            }
            if x == last {
                assert(ps[ps.len() - 1] == x);
            }
        }
    } else {
        assert forall|x: Seq<char>| #[trigger] has_key(f, x) <==> ps.contains(x) by {
            if ps.contains(x) {
                let i = choose|i: int| 0 <= i < ps.len() && ps[i] == x;
            }
        }
    }
}

/// Bindings in strictly increasing path order, exactly one for each of the
/// given source paths, each a static binding whose id is its path in Pascal
/// case and whose shape is the source marker.
pub open spec fn bindings_law(b: Seq<BindingV>, paths: Seq<Seq<char>>) -> bool {
    &&& forall|i: int, j: int| 0 <= i < j < b.len() ==> key_lt(#[trigger] b[i].path, #[trigger] b[j].path)
    &&& forall|x: Seq<char>|
        (exists|i: int| 0 <= i < b.len() && #[trigger] b[i].path == x) <==> #[trigger] paths.contains(x)
    &&& forall|i: int|
        0 <= i < b.len() ==> #[trigger] b[i].source_id == pascal(b[i].path) && !b[i].dynamic && b[i].shape
            == "SourceMarker"@
}

/// The source bindings of a compiled text follow `bindings_law` over the
/// paths of the sources the resolver finds in it, and the graph has a node
/// for each binding after the render and monitor nodes.
pub proof fn lemma_source_bindings(path: Seq<char>, text: Seq<char>)
    ensures
        bindings_law(plan_graph(path, text).bindings, module_src_paths(text)),
        plan_graph(path, text).nodes.len() == 2 + plan_graph(path, text).bindings.len(),
{
    let srcs = module_srcs(text);
    let ssrcs = source_markers(module_src_paths(text));
    let f = bindings_fold(srcs, ssrcs);
    let b = plan_graph(path, text).bindings;
    lemma_bindings_fold(srcs, ssrcs);
    assert(b == f.map_values(|e: (Seq<char>, BindingV)| e.1));
    assert(b.len() == f.len());
    assert forall|i: int| 0 <= i < b.len() implies #[trigger] b[i].path == f[i].0 by {
        assert(f[i].1 == binding_of(f[i].0, ssrcs));
    }
    assert forall|i: int, j: int| 0 <= i < j < b.len() implies key_lt(#[trigger] b[i].path, #[trigger] b[j].path) by {
        assert(b[i].path == f[i].0 && b[j].path == f[j].0);
    }
    assert forall|x: Seq<char>|
        (exists|i: int| 0 <= i < b.len() && #[trigger] b[i].path == x) <==> #[trigger] module_src_paths(text).contains(x) by {
        if exists|i: int| 0 <= i < b.len() && #[trigger] b[i].path == x {
            let i = choose|i: int| 0 <= i < b.len() && #[trigger] b[i].path == x;
            assert(f[i].0 == x);
            assert(has_key(f, x));
        }
        if module_src_paths(text).contains(x) {
            assert(has_key(f, x));
            let i = choose|i: int| 0 <= i < f.len() && #[trigger] f[i].0 == x;
            assert(b[i].path == x);
        }
    }
    assert forall|i: int| 0 <= i < b.len() implies #[trigger] b[i].source_id == pascal(b[i].path) && !b[i].dynamic
        && b[i].shape == "SourceMarker"@ by {
        let x = f[i].0;
        assert(has_key(f, x));
        assert(module_src_paths(text).contains(x));
        crate::shape::lemma_sources_marked(module_src_paths(text), x);
        assert(f[i].1 == binding_of(x, ssrcs));
    }
}


/// The graph id of a text is `module_` and the first 16 digits of its
/// source hash, the hex SHA-256 digest of the text; it does not depend on
/// the path the text is compiled under.
pub proof fn lemma_graph_identity(p: Seq<char>, p2: Seq<char>, text: Seq<char>)
    ensures
        plan_graph(p, text).source_hash == hex(sha256_digest(text)),
        plan_graph(p, text).graph_id == "module_"@ + plan_graph(p, text).source_hash.take(16),
        plan_graph(p, text).source_path == p,
        plan_graph(p2, text).graph_id == plan_graph(p, text).graph_id,
        plan_graph(p2, text).source_hash == plan_graph(p, text).source_hash,
{
}


/// The semantic node built for a `WHEN` expression has the kind `When`, and
/// the one built for a `WHILE` expression has the kind `While`: the node of
/// an expression is the last one its traversal adds.
pub proof fn lemma_match_node_kind(
    e: ExprV,
    label: Seq<char>,
    span: Seq<char>,
    id: nat,
    sdefs: Seq<(Seq<char>, ShapeV)>,
)
    ensures
        sem(e, label, span, id, sdefs).0.len() > 0,
        sem(e, label, span, id, sdefs).0.last().node == sem(e, label, span, id, sdefs).2,
        (e matches ExprV::Match(MatchKind::When, _)) ==> sem(e, label, span, id, sdefs).0.last().kind
            == SemanticNodeKind::When,
        (e matches ExprV::Match(MatchKind::While, _)) ==> sem(e, label, span, id, sdefs).0.last().kind
            == SemanticNodeKind::While,
{
}

} // verus!
