//! Name resolution: definitions by name and the event sources a module uses.
use vstd::prelude::*;
use crate::strmap::{has_key, ins, ins_absent, lemma_ins_keys, lemma_ins_sorted, lookup, key_lt, sorted_keys, StrMap};
use crate::syntax::{
    copy_expr, dvs, ev, ArgV, ArmV, CallArg, DiagV, Expr, ExprV, FieldV, MatchArm, ParsedModule,
    RecordField, SourceSpan, SyntaxDiagnostic,
};
use crate::text::{
    chars_of, copy_string, decimal, push_str, range_eq_str, string_of_range, usize_text,
};
use crate::toplevel::{find_char_pub, find_from, svs, DefV, defv, defvs};

verus! {

/// A module after name resolution.
#[derive(Debug, PartialEq, Eq)]
pub struct HirModule {
    pub source_path: String,
    pub definitions: Vec<HirDefinition>,
    pub definition_names: StrMap<usize>,
    pub sources: Vec<HirSource>,
    pub diagnostics: Vec<HirDiagnostic>,
}

#[derive(Debug, PartialEq, Eq)]
pub struct HirDefinition {
    pub name: String,
    pub parameters: Vec<String>,
    pub is_function: bool,
    pub expression: Expr,
    pub span: SourceSpan,
}

/// An event source path; `declared` when the module declares it with `SOURCE`
/// (or an event-producing call) rather than only referring to it.
#[derive(Clone, Debug, PartialEq, Eq)]
pub struct HirSource {
    pub path: String,
    pub declared: bool,
}

#[derive(Clone, Debug, PartialEq, Eq)]
pub struct HirDiagnostic {
    pub message: String,
    pub span: SourceSpan,
}

pub open spec fn hdefv(d: HirDefinition) -> DefV {
    DefV {
        name: d.name@,
        params: svs(d.parameters@),
        is_function: d.is_function,
        expr: ev(d.expression),
        span: d.span,
    }
}

pub open spec fn hdefvs(s: Seq<HirDefinition>) -> Seq<DefV> {
    s.map_values(|d: HirDefinition| hdefv(d))
}

pub open spec fn hdiagv(d: HirDiagnostic) -> DiagV {
    DiagV { message: d.message@, span: d.span }
}

pub open spec fn hdiagvs(s: Seq<HirDiagnostic>) -> Seq<DiagV> {
    s.map_values(|d: HirDiagnostic| hdiagv(d))
}

pub open spec fn hsrcvs(s: Seq<HirSource>) -> Seq<(Seq<char>, bool)> {
    s.map_values(|x: HirSource| (x.path@, x.declared))
}

// ---------------------------------------------------------------------------
// Paths
// ---------------------------------------------------------------------------

/// Path segments joined with dots.
pub open spec fn join_path(p: Seq<Seq<char>>) -> Seq<char>
    decreases p.len(),
{
    if p.len() == 0 {
        Seq::empty()
    } else if p.len() == 1 {
        p[0]
    } else {
        join_path(p.drop_last()) + seq!['.'] + p.last()
    }
}

/// Some dot-separated segment of `p`, from the one that starts at `a` on, is `sources`.
pub open spec fn sources_segment_from(p: Seq<char>, a: int) -> bool
    decreases p.len() - a,
{
    if 0 <= a <= p.len() {
        let b = find_from(p, '.', a, p.len() as int);
        (a <= b && p.subrange(a, b) == "sources"@) || (a <= b < p.len() && sources_segment_from(
            p,
            b + 1,
        ))
    } else {
        false
    }
}

pub open spec fn has_sources_segment(p: Seq<char>) -> bool {
    sources_segment_from(p, 0)
}

/// The source path that a path names through the `sources` namespace: a leading
/// `sources.` segment is dropped; a path with `sources` further in is kept whole.
pub open spec fn ns_ref(p: Seq<char>) -> Option<Seq<char>> {
    let d = find_from(p, '.', 0, p.len() as int);
    if p.take(d) == "sources"@ {
        if p.len() > 0 && d < p.len() - 1 {
            Some(p.skip(d + 1))
        } else {
            None
        }
    } else if has_sources_segment(p) {
        Some(p)
    } else {
        None
    }
}

pub open spec fn source_reference(p: Seq<char>) -> Seq<char> {
    match ns_ref(p) {
        Some(s) => s,
        None => p,
    }
}

pub open spec fn is_source_call(callee: Seq<char>) -> bool {
    callee == "Timer/interval"@ || callee == "Window/animation_frame"@
}

pub open spec fn consumes_source(stage: ExprV) -> bool {
    stage is Then || stage is Match
}

pub type SrcModel = Seq<(Seq<char>, bool)>;

/// A bare path in a consuming position is a source reference.
pub open spec fn path_ref(e: ExprV, m: SrcModel) -> SrcModel {
    match e {
        ExprV::Path(p) => ins_absent(m, source_reference(p), false),
        _ => m,
    }
}

/// The event sources that an expression declares or refers to; `path` is the
/// chain of field names that leads to it from its definition.
pub open spec fn cs(e: ExprV, path: Seq<Seq<char>>, m: SrcModel) -> SrcModel
    decreases e,
{
    match e {
        ExprV::Source => if path.len() > 0 {
            ins(m, join_path(path), true)
        } else {
            m
        },
        ExprV::SourceAt(t) => path_ref(*t, cs(*t, path, m)),
        ExprV::Link(t) => match t {
            Some(t) => path_ref(*t, cs(*t, path, m)),
            None => m,
        },
        ExprV::Path(p) => match ns_ref(p) {
            Some(sp) => ins_absent(m, sp, false),
            None => m,
        },
        ExprV::Record(fs) => cs_fields(fs, path, m),
        ExprV::Constructor(_, fs) => cs_fields(fs, path, m),
        ExprV::List(vs) => cs_list(vs, path, m),
        ExprV::Block(vs) => cs_list(vs, path, m),
        ExprV::Then(vs) => cs_list(vs, path, m),
        ExprV::Hold(_, vs) => cs_list(vs, path, m),
        ExprV::Latest(vs) => cs_latest(vs, path, m),
        ExprV::Call(callee, args) => cs_args(
            args,
            path,
            if is_source_call(callee) && path.len() > 0 {
                ins(m, join_path(path), true)
            } else {
                m
            },
        ),
        ExprV::FieldAccess(b, _) => cs(*b, path, m),
        ExprV::Pipe(i, s) => {
            let m2 = cs(*s, path, cs(*i, path, m));
            if consumes_source(*s) {
                path_ref(*i, m2)
            } else {
                m2
            }
        },
        ExprV::Binary(_, l, r) => cs(*r, path, cs(*l, path, m)),
        ExprV::Match(_, arms) => cs_arms(arms, path, m),
        _ => m,
    }
}

pub open spec fn cs_list(vs: Seq<ExprV>, path: Seq<Seq<char>>, m: SrcModel) -> SrcModel
    decreases vs,
{
    if vs.len() == 0 {
        m
    } else {
        cs_list(vs.drop_first(), path, cs(vs[0], path, m))
    }
}

pub open spec fn cs_latest(vs: Seq<ExprV>, path: Seq<Seq<char>>, m: SrcModel) -> SrcModel
    decreases vs,
{
    if vs.len() == 0 {
        m
    } else {
        cs_latest(vs.drop_first(), path, path_ref(vs[0], cs(vs[0], path, m)))
    }
}

pub open spec fn cs_fields(fs: Seq<FieldV>, path: Seq<Seq<char>>, m: SrcModel) -> SrcModel
    decreases fs,
{
    if fs.len() == 0 {
        m
    } else {
        cs_fields(fs.drop_first(), path, cs(fs[0].value, path.push(fs[0].name), m))
    }
}

pub open spec fn cs_args(args: Seq<ArgV>, path: Seq<Seq<char>>, m: SrcModel) -> SrcModel
    decreases args,
{
    if args.len() == 0 {
        m
    } else {
        let m1 = match args[0] {
            ArgV::Positional(v) => cs(v, path, m),
            ArgV::Named(n, v) => cs(v, path.push(n), m),
        };
        cs_args(args.drop_first(), path, m1)
    }
}

pub open spec fn cs_arms(arms: Seq<ArmV>, path: Seq<Seq<char>>, m: SrcModel) -> SrcModel
    decreases arms,
{
    if arms.len() == 0 {
        m
    } else {
        cs_arms(arms.drop_first(), path, cs(arms[0].value, path, m))
    }
}

// ---------------------------------------------------------------------------
// Resolution of a whole module
// ---------------------------------------------------------------------------

pub open spec fn dup_message(name: Seq<char>, prev: usize) -> Seq<char> {
    "duplicate definition `"@ + name + "`; first declared at index "@ + decimal(prev as nat)
}

/// The name index after the first `k` definitions, and the duplicate-name
/// diagnostics so far. A later definition of a name takes its index.
pub open spec fn names_upto(defs: Seq<DefV>, k: int) -> (Seq<(Seq<char>, usize)>, Seq<DiagV>)
    decreases k,
{
    if k <= 0 {
        (Seq::empty(), Seq::empty())
    } else {
        let prev = names_upto(defs, k - 1);
        let d = defs[k - 1];
        let diags = match lookup(prev.0, d.name) {
            Some(i) => prev.1.push(DiagV { message: dup_message(d.name, i), span: d.span }),
            None => prev.1,
        };
        (ins(prev.0, d.name, (k - 1) as usize), diags)
    }
}

/// The sources of the first `k` definitions.
pub open spec fn srcs_upto(defs: Seq<DefV>, k: int) -> SrcModel
    decreases k,
{
    if k <= 0 {
        Seq::empty()
    } else {
        cs(defs[k - 1].expr, seq![defs[k - 1].name], srcs_upto(defs, k - 1))
    }
}

// ----- exec helpers -----
fn join_path_exec(path: &Vec<String>) -> (r: String)
    ensures
        r@ == join_path(svs(path@)),
{
    let ghost p = svs(path@);
    if path.len() == 0 {
        return String::new();
    }
    let mut r = copy_string(&path[0]);
    let mut i: usize = 1;
    proof {
        assert(p.take(1).drop_last() =~= Seq::<Seq<char>>::empty());
    }
    while i < path.len()
        invariant
            p == svs(path@),
            1 <= i <= path@.len(),
            r@ == join_path(p.take(i as int)),
        decreases path@.len() - i,
    {
        crate::text::push_char_pub(&mut r, '.');
        push_str(&mut r, path[i].as_str());
        i = i + 1;
        proof {
            assert(p.take(i as int).drop_last() =~= p.take(i - 1));
            assert(r@ =~= join_path(p.take(i - 1)) + seq!['.'] + p[i - 1]);
        }
    }
    assert(p.take(path@.len() as int) =~= p);
    r
}

fn sources_segment_exec(p: &[char]) -> (r: bool)
    ensures
        r == has_sources_segment(p@),
{
    let mut a: usize = 0;
    loop
        invariant
            a <= p@.len(),
            sources_segment_from(p@, a as int) == has_sources_segment(p@),
        decreases p@.len() - a,
    {
        let b = find_char_pub(p, '.', a, p.len());
        if range_eq_str(p, a, b, "sources") {
            return true;
        }
        if b == p.len() {
            return false;
        }
        a = b + 1;
    }
}

fn ns_ref_exec(path: &String) -> (r: Option<String>)
    ensures
        match ns_ref(path@) {
            Some(s) => r matches Some(x) && x@ == s,
            None => r is None,
        },
{
    let p = chars_of(path.as_str());
    let d = find_char_pub(p.as_slice(), '.', 0, p.len());
    if range_eq_str(p.as_slice(), 0, d, "sources") {
        proof {
            assert(p@.take(d as int) =~= p@.subrange(0, d as int));
        }
        if p.len() > 0 && d < p.len() - 1 {
            let s = string_of_range(p.as_slice(), d + 1, p.len());
            proof {
                assert(p@.skip(d + 1) =~= p@.subrange(d + 1, p@.len() as int));
            }
            Some(s)
        } else {
            None
        }
    } else {
        proof {
            assert(p@.take(d as int) =~= p@.subrange(0, d as int));
        }
        if sources_segment_exec(p.as_slice()) {
            Some(copy_string(path))
        } else {
            None
        }
    }
}

fn source_reference_exec(path: &String) -> (r: String)
    ensures
        r@ == source_reference(path@),
{
    match ns_ref_exec(path) {
        Some(s) => s,
        None => copy_string(path),
    }
}

fn is_source_call_exec(callee: &String) -> (r: bool)
    ensures
        r == is_source_call(callee@),
{
    crate::text::string_eq_str(callee, "Timer/interval") || crate::text::string_eq_str(
        callee,
        "Window/animation_frame",
    )
}

fn path_ref_exec(e: &Expr, m: &mut StrMap<bool>)
    ensures
        final(m).model() == path_ref(ev(*e), old(m).model()),
        sorted_keys(old(m).model()) ==> sorted_keys(final(m).model()),
{
    if let Expr::Path(p) = e {
        let r = source_reference_exec(p);
        m.insert_absent(r, false);
    }
}

proof fn lemma_svs_push_pub(s: Seq<String>, x: String)
    ensures
        svs(s.push(x)) == svs(s).push(x@),
{
    assert(svs(s.push(x)) =~= svs(s).push(x@));
}

/// Records the sources of `e`, reached through the field names in `path`.
fn collect_sources(e: &Expr, path: &mut Vec<String>, m: &mut StrMap<bool>)
    ensures
        final(m).model() == cs(ev(*e), svs(old(path)@), old(m).model()),
        sorted_keys(old(m).model()) ==> sorted_keys(final(m).model()),
        final(path)@ == old(path)@,
    decreases e,
{
    match e {
        Expr::Source => {
            if path.len() > 0 {
                let j = join_path_exec(path);
                m.insert(j, true);
            }
        },
        Expr::SourceAt { target } => {
            collect_sources(target, path, m);
            path_ref_exec(target, m);
        },
        Expr::Link { target } => {
            if let Some(t) = target {
                collect_sources(t, path, m);
                path_ref_exec(t, m);
            }
        },
        Expr::Path(p) => {
            if let Some(sp) = ns_ref_exec(p) {
                m.insert_absent(sp, false);
            }
        },
        Expr::Record(fs) => collect_fields(e, fs, path, m),
        Expr::Constructor { fields, .. } => collect_fields(e, fields, path, m),
        Expr::List(vs) => collect_list(e, vs, false, path, m),
        Expr::Block(vs) => collect_list(e, vs, false, path, m),
        Expr::Then { body } => collect_list(e, body, false, path, m),
        Expr::Hold { body, .. } => collect_list(e, body, false, path, m),
        Expr::Latest(vs) => collect_list(e, vs, true, path, m),
        Expr::Call { callee, args } => {
            if is_source_call_exec(callee) && path.len() > 0 {
                let j = join_path_exec(path);
                m.insert(j, true);
            }
            collect_args(e, args, path, m);
        },
        Expr::FieldAccess { base, .. } => collect_sources(base, path, m),
        Expr::Pipe { input, stage } => {
            collect_sources(input, path, m);
            collect_sources(stage, path, m);
            let consumes = match &**stage {
                Expr::Then { .. } => true,
                Expr::Match { .. } => true,
                _ => false,
            };
            if consumes {
                path_ref_exec(input, m);
            }
        },
        Expr::Binary { left, right, .. } => {
            collect_sources(left, path, m);
            collect_sources(right, path, m);
        },
        Expr::Match { arms, .. } => collect_arms(e, arms, path, m),
        _ => {},
    }
}

fn collect_list(
    parent: &Expr,
    vs: &Vec<Expr>,
    latest: bool,
    path: &mut Vec<String>,
    m: &mut StrMap<bool>,
)
    requires
        decreases_to!(*parent => *vs),
    ensures
        final(m).model() == (if latest {
            cs_latest(crate::syntax::evs(vs@), svs(old(path)@), old(m).model())
        } else {
            cs_list(crate::syntax::evs(vs@), svs(old(path)@), old(m).model())
        }),
        sorted_keys(old(m).model()) ==> sorted_keys(final(m).model()),
        final(path)@ == old(path)@,
    decreases parent, 0int,
{
    let ghost s = crate::syntax::evs(vs@);
    let ghost p = svs(path@);
    let ghost target = if latest {
        cs_latest(s, p, m.model())
    } else {
        cs_list(s, p, m.model())
    };
    let mut i: usize = 0;
    assert(s.skip(0) =~= s);
    while i < vs.len()
        invariant
            decreases_to!(*parent => *vs),
            s == crate::syntax::evs(vs@),
            p == svs(path@),
            path@ == old(path)@,
            sorted_keys(old(m).model()) ==> sorted_keys(m.model()),
            i <= vs@.len(),
            target == (if latest {
                cs_latest(s.skip(i as int), p, m.model())
            } else {
                cs_list(s.skip(i as int), p, m.model())
            }),
        decreases vs@.len() - i,
    {
        proof {
            assert(decreases_to!(vs@ => vs@[i as int]));
            assert(decreases_to!(*vs => vs@));
            assert(s.skip(i as int).drop_first() =~= s.skip(i + 1));
            assert(s.skip(i as int)[0] == ev(vs@[i as int]));
        }
        collect_sources(&vs[i], path, m);
        if latest {
            path_ref_exec(&vs[i], m);
        }
        i = i + 1;
    }
    assert(s.skip(i as int) =~= Seq::<ExprV>::empty());
}

fn collect_fields(parent: &Expr, fs: &Vec<RecordField>, path: &mut Vec<String>, m: &mut StrMap<bool>)
    requires
        decreases_to!(*parent => *fs),
    ensures
        final(m).model() == cs_fields(crate::syntax::fvs(fs@), svs(old(path)@), old(m).model()),
        sorted_keys(old(m).model()) ==> sorted_keys(final(m).model()),
        final(path)@ == old(path)@,
    decreases parent, 0int,
{
    let ghost s = crate::syntax::fvs(fs@);
    let ghost p = svs(path@);
    let ghost target = cs_fields(s, p, m.model());
    let mut i: usize = 0;
    assert(s.skip(0) =~= s);
    while i < fs.len()
        invariant
            decreases_to!(*parent => *fs),
            s == crate::syntax::fvs(fs@),
            p == svs(path@),
            path@ == old(path)@,
            sorted_keys(old(m).model()) ==> sorted_keys(m.model()),
            i <= fs@.len(),
            target == cs_fields(s.skip(i as int), p, m.model()),
        decreases fs@.len() - i,
    {
        proof {
            assert(decreases_to!(fs@[i as int] => fs@[i as int].value));
            assert(decreases_to!(fs@ => fs@[i as int]));
            assert(decreases_to!(*fs => fs@));
            assert(s.skip(i as int).drop_first() =~= s.skip(i + 1));
            assert(s.skip(i as int)[0].value == ev(fs@[i as int].value));
            assert(s.skip(i as int)[0].name == fs@[i as int].name@);
        }
        let name = copy_string(&fs[i].name);
        proof {
            lemma_svs_push_pub(path@, name);
        }
        path.push(name);
        collect_sources(&fs[i].value, path, m);
        path.pop();
        proof {
            assert(path@ =~= old(path)@);
        }
        i = i + 1;
    }
    assert(s.skip(i as int) =~= Seq::<FieldV>::empty());
}

fn collect_args(parent: &Expr, args: &Vec<CallArg>, path: &mut Vec<String>, m: &mut StrMap<bool>)
    requires
        decreases_to!(*parent => *args),
    ensures
        final(m).model() == cs_args(crate::syntax::avs(args@), svs(old(path)@), old(m).model()),
        sorted_keys(old(m).model()) ==> sorted_keys(final(m).model()),
        final(path)@ == old(path)@,
    decreases parent, 0int,
{
    let ghost s = crate::syntax::avs(args@);
    let ghost p = svs(path@);
    let ghost target = cs_args(s, p, m.model());
    let mut i: usize = 0;
    assert(s.skip(0) =~= s);
    while i < args.len()
        invariant
            decreases_to!(*parent => *args),
            s == crate::syntax::avs(args@),
            p == svs(path@),
            path@ == old(path)@,
            sorted_keys(old(m).model()) ==> sorted_keys(m.model()),
            i <= args@.len(),
            target == cs_args(s.skip(i as int), p, m.model()),
        decreases args@.len() - i,
    {
        proof {
            assert(decreases_to!(args@ => args@[i as int]));
            assert(decreases_to!(*args => args@));
            assert(s.skip(i as int).drop_first() =~= s.skip(i + 1));
        }
        match &args[i] {
            CallArg::Positional(v) => {
                proof {
                    assert(decreases_to!(args@[i as int] => *v));
                }
                collect_sources(v, path, m);
            },
            CallArg::Named { name, value } => {
                proof {
                    assert(decreases_to!(args@[i as int] => *value));
                }
                let n = copy_string(name);
                proof {
                    lemma_svs_push_pub(path@, n);
                }
                path.push(n);
                collect_sources(value, path, m);
                path.pop();
                proof {
                    assert(path@ =~= old(path)@);
                }
            },
        }
        i = i + 1;
    }
    assert(s.skip(i as int) =~= Seq::<ArgV>::empty());
}

fn collect_arms(parent: &Expr, arms: &Vec<MatchArm>, path: &mut Vec<String>, m: &mut StrMap<bool>)
    requires
        decreases_to!(*parent => *arms),
    ensures
        final(m).model() == cs_arms(crate::syntax::mvs(arms@), svs(old(path)@), old(m).model()),
        sorted_keys(old(m).model()) ==> sorted_keys(final(m).model()),
        final(path)@ == old(path)@,
    decreases parent, 0int,
{
    let ghost s = crate::syntax::mvs(arms@);
    let ghost p = svs(path@);
    let ghost target = cs_arms(s, p, m.model());
    let mut i: usize = 0;
    assert(s.skip(0) =~= s);
    while i < arms.len()
        invariant
            decreases_to!(*parent => *arms),
            s == crate::syntax::mvs(arms@),
            p == svs(path@),
            path@ == old(path)@,
            sorted_keys(old(m).model()) ==> sorted_keys(m.model()),
            i <= arms@.len(),
            target == cs_arms(s.skip(i as int), p, m.model()),
        decreases arms@.len() - i,
    {
        proof {
            assert(decreases_to!(arms@[i as int] => arms@[i as int].value));
            assert(decreases_to!(arms@ => arms@[i as int]));
            assert(decreases_to!(*arms => arms@));
            assert(s.skip(i as int).drop_first() =~= s.skip(i + 1));
            assert(s.skip(i as int)[0].value == ev(arms@[i as int].value));
        }
        collect_sources(&arms[i].value, path, m);
        i = i + 1;
    }
    assert(s.skip(i as int) =~= Seq::<ArmV>::empty());
}

fn copy_strings(v: &Vec<String>) -> (r: Vec<String>)
    ensures
        svs(r@) == svs(v@),
{
    let mut out: Vec<String> = Vec::new();
    let mut i: usize = 0;
    while i < v.len()
        invariant
            i <= v@.len(),
            svs(out@) == svs(v@).take(i as int),
        decreases v@.len() - i,
    {
        let x = copy_string(&v[i]);
        proof {
            lemma_svs_push_pub(out@, x);
        }
        out.push(x);
        i = i + 1;
        proof {
            assert(svs(v@).take(i as int) =~= svs(v@).take(i - 1).push(v@[i - 1]@));
        }
    }
    assert(svs(v@).take(v@.len() as int) =~= svs(v@));
    out
}

/// Resolves a parsed module: copies its definitions, indexes them by name
/// (reporting each name defined again), and collects the event sources that
/// each definition declares or refers to.
pub fn lower(parsed: &ParsedModule) -> (h: HirModule)
    ensures
        h.source_path@ == parsed.source.path@,
        hdefvs(h.definitions@) == defvs(parsed.definitions@),
        h.definition_names.model() == names_upto(
            defvs(parsed.definitions@),
            parsed.definitions@.len() as int,
        ).0,
        hdiagvs(h.diagnostics@) == dvs(parsed.diagnostics@) + names_upto(
            defvs(parsed.definitions@),
            parsed.definitions@.len() as int,
        ).1,
        hsrcvs(h.sources@) == srcs_upto(
            defvs(parsed.definitions@),
            parsed.definitions@.len() as int,
        ),
        sorted_keys(hsrcvs(h.sources@)),
        sorted_keys(h.definition_names.model()),
{
    let ghost dv = defvs(parsed.definitions@);
    let mut diagnostics: Vec<HirDiagnostic> = Vec::new();
    let mut i: usize = 0;
    while i < parsed.diagnostics.len()
        invariant
            i <= parsed.diagnostics@.len(),
            hdiagvs(diagnostics@) == dvs(parsed.diagnostics@).take(i as int),
        decreases parsed.diagnostics@.len() - i,
    {
        let d = &parsed.diagnostics[i];
        let h = HirDiagnostic { message: copy_string(&d.message), span: d.span };
        proof {
            assert(hdiagvs(diagnostics@.push(h)) =~= hdiagvs(diagnostics@).push(hdiagv(h)));
        }
        diagnostics.push(h);
        i = i + 1;
        proof {
            assert(dvs(parsed.diagnostics@).take(i as int) =~= dvs(parsed.diagnostics@).take(
                i - 1,
            ).push(crate::syntax::dv(parsed.diagnostics@[i - 1])));
        }
    }
    assert(dvs(parsed.diagnostics@).take(i as int) =~= dvs(parsed.diagnostics@));
    let ghost d0 = dvs(parsed.diagnostics@);
    assert(d0 + Seq::<DiagV>::empty() =~= d0);
    let mut names: StrMap<usize> = StrMap::new();
    let mut definitions: Vec<HirDefinition> = Vec::new();
    let mut k: usize = 0;
    while k < parsed.definitions.len()
        invariant
            k <= parsed.definitions@.len(),
            dv == defvs(parsed.definitions@),
            d0 == dvs(parsed.diagnostics@),
            hdefvs(definitions@) == dv.take(k as int),
            names.model() == names_upto(dv, k as int).0,
            sorted_keys(names.model()),
            hdiagvs(diagnostics@) == d0 + names_upto(dv, k as int).1,
        decreases parsed.definitions@.len() - k,
    {
        let d = &parsed.definitions[k];
        let prev = names.insert(copy_string(&d.name), k);
        if let Some(p) = prev {
            let mut message = "duplicate definition `".to_owned();
            push_str(&mut message, d.name.as_str());
            push_str(&mut message, "`; first declared at index ");
            let num = usize_text(p);
            push_str(&mut message, num.as_str());
            let h = HirDiagnostic { message, span: d.span };
            proof {
                assert(hdiagvs(diagnostics@.push(h)) =~= hdiagvs(diagnostics@).push(hdiagv(h)));
                assert(h.message@ =~= dup_message(d.name@, p));
            }
            diagnostics.push(h);
        }
        let hd = HirDefinition {
            name: copy_string(&d.name),
            parameters: copy_strings(&d.parameters),
            is_function: d.is_function,
            expression: copy_expr(&d.expression),
            span: d.span,
        };
        proof {
            assert(hdefvs(definitions@.push(hd)) =~= hdefvs(definitions@).push(hdefv(hd)));
        }
        definitions.push(hd);
        k = k + 1;
        proof {
            assert(dv.take(k as int) =~= dv.take(k - 1).push(dv[k - 1]));
            assert(names_upto(dv, k as int).1 == (match lookup(names_upto(dv, k - 1).0, dv[k - 1].name) {
                Some(i) => names_upto(dv, k - 1).1.push(DiagV { message: dup_message(dv[k - 1].name, i), span: dv[k - 1].span }),
                None => names_upto(dv, k - 1).1,
            }));
            assert(hdiagvs(diagnostics@) =~= d0 + names_upto(dv, k as int).1);
        }
    }
    assert(dv.take(k as int) =~= dv);
    let mut sources: StrMap<bool> = StrMap::new();
    let mut k: usize = 0;
    while k < definitions.len()
        invariant
            k <= definitions@.len(),
            hdefvs(definitions@) == dv,
            sources.model() == srcs_upto(dv, k as int),
            sorted_keys(sources.model()),
            sorted_keys(names.model()),
        decreases definitions@.len() - k,
    {
        let mut path: Vec<String> = Vec::new();
        path.push(copy_string(&definitions[k].name));
        proof {
            assert(svs(path@) =~= seq![dv[k as int].name]);
            assert(dv[k as int].expr == ev(definitions@[k as int].expression));
        }
        collect_sources(&definitions[k].expression, &mut path, &mut sources);
        k = k + 1;
    }
    let mut out: Vec<HirSource> = Vec::new();
    let mut j: usize = 0;
    while j < sources.entries.len()
        invariant
            j <= sources.entries@.len(),
            hsrcvs(out@) == sources.model().take(j as int),
            sorted_keys(sources.model()),
            sorted_keys(names.model()),
        decreases sources.entries@.len() - j,
    {
        let e = &sources.entries[j];
        let x = HirSource { path: copy_string(&e.0), declared: e.1 };
        proof {
            assert(hsrcvs(out@.push(x)) =~= hsrcvs(out@).push((x.path@, x.declared)));
        }
        out.push(x);
        j = j + 1;
        proof {
            assert(sources.model().take(j as int) =~= sources.model().take(j - 1).push(
                sources.model()[j - 1],
            ));
        }
    }
    assert(sources.model().take(j as int) =~= sources.model());
    HirModule {
        source_path: copy_string(&parsed.source.path),
        definitions,
        definition_names: names,
        sources: out,
        diagnostics,
    }
}

// ---------------------------------------------------------------------------
// Unresolved references
// ---------------------------------------------------------------------------

/// The first dot-separated segment of a path.
pub open spec fn root_of(p: Seq<char>) -> Seq<char> {
    p.take(find_from(p, '.', 0, p.len() as int))
}

/// A path whose root names no definition, no scope binder and no source.
pub open spec fn path_unresolved(
    p: Seq<char>,
    defs: Set<Seq<char>>,
    srcs: Set<Seq<char>>,
    scopes: Seq<Seq<char>>,
) -> bool {
    let root = root_of(p);
    let resolved_source = srcs.contains(p) || (ns_ref(p) matches Some(q) && srcs.contains(q));
    !defs.contains(root) && !scopes.contains(root) && root != "sources"@ && !resolved_source
        && !root.contains('/')
}

/// A call whose first argument is a bare path, followed by more arguments,
/// binds that path in the other arguments.
pub open spec fn call_binder(args: Seq<ArgV>) -> Option<Seq<char>> {
    if args.len() >= 2 {
        match args[0] {
            ArgV::Positional(ExprV::Path(p)) => Some(p),
            _ => None,
        }
    } else {
        None
    }
}

/// The unresolved roots of the paths in an expression.
pub open spec fn ur(e: ExprV, defs: Set<Seq<char>>, srcs: Set<Seq<char>>, sc: Seq<Seq<char>>) -> Set<
    Seq<char>,
>
    decreases e,
{
    match e {
        ExprV::Path(p) => if path_unresolved(p, defs, srcs, sc) {
            set![root_of(p)]
        } else {
            Set::empty()
        },
        ExprV::Record(fs) => ur_fields(fs, defs, srcs, sc),
        ExprV::Constructor(_, fs) => ur_fields(fs, defs, srcs, sc),
        ExprV::List(vs) => ur_list(vs, defs, srcs, sc),
        ExprV::Block(vs) => ur_list(vs, defs, srcs, sc),
        ExprV::Latest(vs) => ur_list(vs, defs, srcs, sc),
        ExprV::Then(vs) => ur_list(vs, defs, srcs, sc),
        ExprV::Call(_, args) => match call_binder(args) {
            Some(b) => ur_args(args.drop_first(), defs, srcs, sc.push(b)),
            None => ur_args(args, defs, srcs, sc),
        },
        ExprV::FieldAccess(b, _) => ur(*b, defs, srcs, sc),
        ExprV::Pipe(i, s) => ur(*i, defs, srcs, sc) + ur(*s, defs, srcs, sc),
        ExprV::Binary(_, l, r) => ur(*l, defs, srcs, sc) + ur(*r, defs, srcs, sc),
        ExprV::Hold(b, body) => ur_list(body, defs, srcs, sc.push(b)),
        ExprV::Match(_, arms) => ur_arms(arms, defs, srcs, sc),
        ExprV::SourceAt(t) => ur(*t, defs, srcs, sc),
        ExprV::Link(t) => match t {
            Some(t) => ur(*t, defs, srcs, sc),
            None => Set::empty(),
        },
        _ => Set::empty(),
    }
}

pub open spec fn ur_list(
    vs: Seq<ExprV>,
    defs: Set<Seq<char>>,
    srcs: Set<Seq<char>>,
    sc: Seq<Seq<char>>,
) -> Set<Seq<char>>
    decreases vs,
{
    if vs.len() == 0 {
        Set::empty()
    } else {
        ur(vs[0], defs, srcs, sc) + ur_list(vs.drop_first(), defs, srcs, sc)
    }
}

pub open spec fn ur_fields(
    fs: Seq<FieldV>,
    defs: Set<Seq<char>>,
    srcs: Set<Seq<char>>,
    sc: Seq<Seq<char>>,
) -> Set<Seq<char>>
    decreases fs,
{
    if fs.len() == 0 {
        Set::empty()
    } else {
        ur(fs[0].value, defs, srcs, sc) + ur_fields(fs.drop_first(), defs, srcs, sc)
    }
}

pub open spec fn ur_args(
    args: Seq<ArgV>,
    defs: Set<Seq<char>>,
    srcs: Set<Seq<char>>,
    sc: Seq<Seq<char>>,
) -> Set<Seq<char>>
    decreases args,
{
    if args.len() == 0 {
        Set::empty()
    } else {
        let v = match args[0] {
            ArgV::Positional(v) => v,
            ArgV::Named(_, v) => v,
        };
        ur(v, defs, srcs, sc) + ur_args(args.drop_first(), defs, srcs, sc)
    }
}

pub open spec fn ur_arms(
    arms: Seq<ArmV>,
    defs: Set<Seq<char>>,
    srcs: Set<Seq<char>>,
    sc: Seq<Seq<char>>,
) -> Set<Seq<char>>
    decreases arms,
{
    if arms.len() == 0 {
        Set::empty()
    } else {
        ur(arms[0].value, defs, srcs, sc) + ur_arms(arms.drop_first(), defs, srcs, sc)
    }
}

pub open spec fn def_names(defs: Seq<DefV>) -> Set<Seq<char>> {
    Set::new(|x: Seq<char>| exists|i: int| 0 <= i < defs.len() && #[trigger] defs[i].name == x)
}

pub open spec fn source_paths(srcs: Seq<(Seq<char>, bool)>) -> Set<Seq<char>> {
    Set::new(|x: Seq<char>| exists|i: int| 0 <= i < srcs.len() && #[trigger] srcs[i].0 == x)
}

/// The names in scope in a definition: its parameters, and `PASSED` in a function.
pub open spec fn def_scopes(d: DefV) -> Seq<Seq<char>> {
    if d.is_function {
        d.params.push("PASSED"@)
    } else {
        d.params
    }
}

/// The unresolved references of the first `k` definitions.
pub open spec fn refs_upto(defs: Seq<DefV>, srcs: Seq<(Seq<char>, bool)>, k: int) -> Set<Seq<char>>
    decreases k,
{
    if k <= 0 {
        Set::empty()
    } else {
        refs_upto(defs, srcs, k - 1) + ur(
            defs[k - 1].expr,
            def_names(defs),
            source_paths(srcs),
            def_scopes(defs[k - 1]),
        )
    }
}

/// The unresolved references of a module.
pub open spec fn module_refs(m: HirModule) -> Set<Seq<char>> {
    refs_upto(hdefvs(m.definitions@), hsrcvs(m.sources@), m.definitions@.len() as int)
}

/// The exec state for collecting references.
struct RefCtx<'a> {
    module: &'a HirModule,
}

/// The keys now held are the keys held before, plus `add`.
pub open spec fn added(m0: Seq<(Seq<char>, bool)>, m1: Seq<(Seq<char>, bool)>, add: Set<Seq<char>>) -> bool {
    &&& forall|x: Seq<char>| #[trigger] has_key(m1, x) <==> (has_key(m0, x) || add.contains(x))
    &&& sorted_keys(m0) ==> sorted_keys(m1)
}

impl<'a> RefCtx<'a> {
    spec fn dset(&self) -> Set<Seq<char>> {
        def_names(hdefvs(self.module.definitions@))
    }

    spec fn sset(&self) -> Set<Seq<char>> {
        source_paths(hsrcvs(self.module.sources@))
    }

    fn defines(&self, x: &[char]) -> (r: bool)
        ensures
            r == self.dset().contains(x@),
    {
        let mut i: usize = 0;
        while i < self.module.definitions.len()
            invariant
                i <= self.module.definitions@.len(),
                forall|j: int| 0 <= j < i ==> self.module.definitions@[j].name@ != x@,
            decreases self.module.definitions@.len() - i,
        {
            let n = chars_of(self.module.definitions[i].name.as_str());
            if crate::text::chars_eq(n.as_slice(), x) {
                proof {
                    assert(hdefvs(self.module.definitions@)[i as int].name == x@);
                }
                return true;
            }
            i = i + 1;
        }
        proof {
            if self.dset().contains(x@) {
                let j = choose|j: int|
                    0 <= j < hdefvs(self.module.definitions@).len() && #[trigger] hdefvs(
                        self.module.definitions@,
                    )[j].name == x@;
                assert(self.module.definitions@[j].name@ == x@);
            }
        }
        false
    }

    fn has_source(&self, x: &[char]) -> (r: bool)
        ensures
            r == self.sset().contains(x@),
    {
        let mut i: usize = 0;
        while i < self.module.sources.len()
            invariant
                i <= self.module.sources@.len(),
                forall|j: int| 0 <= j < i ==> self.module.sources@[j].path@ != x@,
            decreases self.module.sources@.len() - i,
        {
            let n = chars_of(self.module.sources[i].path.as_str());
            if crate::text::chars_eq(n.as_slice(), x) {
                proof {
                    assert(hsrcvs(self.module.sources@)[i as int].0 == x@);
                }
                return true;
            }
            i = i + 1;
        }
        proof {
            if self.sset().contains(x@) {
                let j = choose|j: int|
                    0 <= j < hsrcvs(self.module.sources@).len() && #[trigger] hsrcvs(
                        self.module.sources@,
                    )[j].0 == x@;
                assert(self.module.sources@[j].path@ == x@);
            }
        }
        false
    }
}

fn scopes_contain(scopes: &Vec<String>, x: &[char]) -> (r: bool)
    ensures
        r == svs(scopes@).contains(x@),
{
    let mut i: usize = 0;
    while i < scopes.len()
        invariant
            i <= scopes@.len(),
            forall|j: int| 0 <= j < i ==> scopes@[j]@ != x@,
        decreases scopes@.len() - i,
    {
        let n = chars_of(scopes[i].as_str());
        if crate::text::chars_eq(n.as_slice(), x) {
            proof {
                assert(svs(scopes@)[i as int] == x@);
            }
            return true;
        }
        i = i + 1;
    }
    proof {
        if svs(scopes@).contains(x@) {
            let j = choose|j: int| 0 <= j < svs(scopes@).len() && svs(scopes@)[j] == x@;
            assert(scopes@[j]@ == x@);
        }
    }
    false
}

fn contains_slash(x: &[char]) -> (r: bool)
    ensures
        r == x@.contains('/'),
{
    let mut i: usize = 0;
    while i < x.len()
        invariant
            i <= x@.len(),
            forall|j: int| 0 <= j < i ==> x@[j] != '/',
        decreases x@.len() - i,
    {
        if x[i] == '/' {
            return true;
        }
        i = i + 1;
    }
    false
}

proof fn lemma_added_insert(m0: Seq<(Seq<char>, bool)>, k: Seq<char>)
    ensures
        added(m0, ins_absent(m0, k, false), set![k]),
{
    assert forall|x: Seq<char>| #[trigger] has_key(ins_absent(m0, k, false), x) <==> (has_key(m0, x)
        || set![k].contains(x)) by {
        lemma_ins_keys(m0, k, false, x);
    }
    if sorted_keys(m0) {
        lemma_ins_sorted(m0, k, false);
    }
}

proof fn lemma_added_none(m0: Seq<(Seq<char>, bool)>)
    ensures
        added(m0, m0, Set::empty()),
{
}

proof fn lemma_added_chain(
    m0: Seq<(Seq<char>, bool)>,
    m1: Seq<(Seq<char>, bool)>,
    m2: Seq<(Seq<char>, bool)>,
    a: Set<Seq<char>>,
    b: Set<Seq<char>>,
)
    requires
        added(m0, m1, a),
        added(m1, m2, b),
    ensures
        added(m0, m2, a + b),
{
    assert forall|x: Seq<char>| #[trigger] has_key(m2, x) <==> (has_key(m0, x) || (a + b).contains(
        x,
    )) by {
        assert(has_key(m1, x) <==> (has_key(m0, x) || a.contains(x)));
    }
}


fn call_binder_exec(args: &Vec<CallArg>) -> (r: Option<&String>)
    ensures
        match call_binder(crate::syntax::avs(args@)) {
            Some(b) => r matches Some(x) && x@ == b,
            None => r is None,
        },
{
    if args.len() >= 2 {
        match &args[0] {
            CallArg::Positional(Expr::Path(p)) => Some(p),
            _ => None,
        }
    } else {
        None
    }
}

impl<'a> RefCtx<'a> {
    fn path_refs(&self, p: &String, scopes: &Vec<String>, refs: &mut StrMap<bool>)
        ensures
            added(
                old(refs).model(),
                final(refs).model(),
                ur(ExprV::Path(p@), self.dset(), self.sset(), svs(scopes@)),
            ),
    {
        let ghost m0 = refs.model();
        let pc = chars_of(p.as_str());
        let d = find_char_pub(pc.as_slice(), '.', 0, pc.len());
        let rc = crate::text::copy_range(pc.as_slice(), 0, d);
        proof {
            assert(rc@ =~= root_of(p@));
            assert(rc@.subrange(0, rc@.len() as int) =~= rc@);
        }
        let mut resolved = self.has_source(pc.as_slice());
        if !resolved {
            if let Some(q) = ns_ref_exec(p) {
                let qc = chars_of(q.as_str());
                resolved = self.has_source(qc.as_slice());
            }
        }
        if !self.defines(rc.as_slice()) && !scopes_contain(scopes, rc.as_slice()) && !range_eq_str(
            rc.as_slice(),
            0,
            rc.len(),
            "sources",
        ) && !resolved && !contains_slash(rc.as_slice()) {
            let root = crate::text::string_of(rc.as_slice());
            refs.insert_absent(root, false);
            proof {
                lemma_added_insert(m0, root@);
            }
        } else {
            proof {
                lemma_added_none(m0);
                assert(ur(ExprV::Path(p@), self.dset(), self.sset(), svs(scopes@)) =~= Set::empty());
            }
        }
    }

    /// Records the unresolved roots of `e`, with `scopes` the binders in scope.
    fn collect_refs(&self, e: &Expr, scopes: &mut Vec<String>, refs: &mut StrMap<bool>)
        ensures
            added(
                old(refs).model(),
                final(refs).model(),
                ur(ev(*e), self.dset(), self.sset(), svs(old(scopes)@)),
            ),
            final(scopes)@ == old(scopes)@,
        decreases e,
    {
        let ghost m0 = refs.model();
        match e {
            Expr::Path(p) => self.path_refs(p, scopes, refs),
            Expr::Record(fs) => self.refs_fields(e, fs, scopes, refs),
            Expr::Constructor { fields, .. } => self.refs_fields(e, fields, scopes, refs),
            Expr::List(vs) => self.refs_list(e, vs, scopes, refs),
            Expr::Block(vs) => self.refs_list(e, vs, scopes, refs),
            Expr::Latest(vs) => self.refs_list(e, vs, scopes, refs),
            Expr::Then { body } => self.refs_list(e, body, scopes, refs),
            Expr::Call { args, .. } => {
                match call_binder_exec(args) {
                    Some(b) => {
                        let bs = copy_string(b);
                        proof {
                            lemma_svs_push_pub(scopes@, bs);
                        }
                        scopes.push(bs);
                        self.refs_args(e, args, 1, scopes, refs);
                        scopes.pop();
                        proof {
                            assert(scopes@ =~= old(scopes)@);
                            assert(crate::syntax::avs(args@).skip(1) =~= crate::syntax::avs(
                                args@,
                            ).drop_first());
                        }
                    },
                    None => {
                        self.refs_args(e, args, 0, scopes, refs);
                        proof {
                            assert(crate::syntax::avs(args@).skip(0) =~= crate::syntax::avs(
                                args@,
                            ));
                        }
                    },
                }
            },
            Expr::FieldAccess { base, .. } => self.collect_refs(base, scopes, refs),
            Expr::Pipe { input, stage } => {
                self.collect_refs(input, scopes, refs);
                let ghost m1 = refs.model();
                self.collect_refs(stage, scopes, refs);
                proof {
                    lemma_added_chain(
                        m0,
                        m1,
                        refs.model(),
                        ur(ev(**input), self.dset(), self.sset(), svs(scopes@)),
                        ur(ev(**stage), self.dset(), self.sset(), svs(scopes@)),
                    );
                }
            },
            Expr::Binary { left, right, .. } => {
                self.collect_refs(left, scopes, refs);
                let ghost m1 = refs.model();
                self.collect_refs(right, scopes, refs);
                proof {
                    lemma_added_chain(
                        m0,
                        m1,
                        refs.model(),
                        ur(ev(**left), self.dset(), self.sset(), svs(scopes@)),
                        ur(ev(**right), self.dset(), self.sset(), svs(scopes@)),
                    );
                }
            },
            Expr::Hold { binder, body } => {
                let bs = copy_string(binder);
                proof {
                    lemma_svs_push_pub(scopes@, bs);
                }
                scopes.push(bs);
                self.refs_list(e, body, scopes, refs);
                scopes.pop();
                proof {
                    assert(scopes@ =~= old(scopes)@);
                }
            },
            Expr::Match { arms, .. } => self.refs_arms(e, arms, scopes, refs),
            Expr::SourceAt { target } => self.collect_refs(target, scopes, refs),
            Expr::Link { target } => {
                if let Some(t) = target {
                    self.collect_refs(t, scopes, refs);
                } else {
                    proof {
                        lemma_added_none(m0);
                    }
                }
            },
            _ => {
                proof {
                    lemma_added_none(m0);
                }
            },
        }
    }

    fn refs_list(
        &self,
        parent: &Expr,
        vs: &Vec<Expr>,
        scopes: &mut Vec<String>,
        refs: &mut StrMap<bool>,
    )
        requires
            decreases_to!(*parent => *vs),
        ensures
            added(
                old(refs).model(),
                final(refs).model(),
                ur_list(crate::syntax::evs(vs@), self.dset(), self.sset(), svs(old(scopes)@)),
            ),
            final(scopes)@ == old(scopes)@,
        decreases parent, 0int,
    {
        let ghost s = crate::syntax::evs(vs@);
        let ghost sc = svs(scopes@);
        let ghost m0 = refs.model();
        let ghost mut acc: Set<Seq<char>> = Set::empty();
        let mut i: usize = 0;
        proof {
            assert(s.skip(0) =~= s);
            lemma_added_none(m0);
            assert(acc + ur_list(s, self.dset(), self.sset(), sc) =~= ur_list(
                s,
                self.dset(),
                self.sset(),
                sc,
            ));
        }
        while i < vs.len()
            invariant
                decreases_to!(*parent => *vs),
                s == crate::syntax::evs(vs@),
                sc == svs(scopes@),
                scopes@ == old(scopes)@,
                i <= vs@.len(),
                added(m0, refs.model(), acc),
                acc + ur_list(s.skip(i as int), self.dset(), self.sset(), sc) == ur_list(
                    s,
                    self.dset(),
                    self.sset(),
                    sc,
                ),
            decreases vs@.len() - i,
        {
            proof {
                assert(decreases_to!(vs@ => vs@[i as int]));
                assert(decreases_to!(*vs => vs@));
                assert(s.skip(i as int).drop_first() =~= s.skip(i + 1));
                assert(s.skip(i as int)[0] == ev(vs@[i as int]));
            }
            let ghost m1 = refs.model();
            self.collect_refs(&vs[i], scopes, refs);
            proof {
                let u = ur(ev(vs@[i as int]), self.dset(), self.sset(), sc);
                lemma_added_chain(m0, m1, refs.model(), acc, u);
                assert(acc + u + ur_list(s.skip(i + 1), self.dset(), self.sset(), sc) =~= acc
                    + ur_list(s.skip(i as int), self.dset(), self.sset(), sc));
                acc = acc + u;
            }
            i = i + 1;
        }
        proof {
            assert(s.skip(i as int) =~= Seq::<ExprV>::empty());
            assert(acc =~= acc + ur_list(s.skip(i as int), self.dset(), self.sset(), sc));
        }
    }

    fn refs_fields(
        &self,
        parent: &Expr,
        fs: &Vec<RecordField>,
        scopes: &mut Vec<String>,
        refs: &mut StrMap<bool>,
    )
        requires
            decreases_to!(*parent => *fs),
        ensures
            added(
                old(refs).model(),
                final(refs).model(),
                ur_fields(crate::syntax::fvs(fs@), self.dset(), self.sset(), svs(old(scopes)@)),
            ),
            final(scopes)@ == old(scopes)@,
        decreases parent, 0int,
    {
        let ghost s = crate::syntax::fvs(fs@);
        let ghost sc = svs(scopes@);
        let ghost m0 = refs.model();
        let ghost mut acc: Set<Seq<char>> = Set::empty();
        let mut i: usize = 0;
        proof {
            assert(s.skip(0) =~= s);
            lemma_added_none(m0);
            assert(acc + ur_fields(s, self.dset(), self.sset(), sc) =~= ur_fields(
                s,
                self.dset(),
                self.sset(),
                sc,
            ));
        }
        while i < fs.len()
            invariant
                decreases_to!(*parent => *fs),
                s == crate::syntax::fvs(fs@),
                sc == svs(scopes@),
                scopes@ == old(scopes)@,
                i <= fs@.len(),
                added(m0, refs.model(), acc),
                acc + ur_fields(s.skip(i as int), self.dset(), self.sset(), sc) == ur_fields(
                    s,
                    self.dset(),
                    self.sset(),
                    sc,
                ),
            decreases fs@.len() - i,
        {
            proof {
                assert(decreases_to!(fs@[i as int] => fs@[i as int].value));
                assert(decreases_to!(fs@ => fs@[i as int]));
                assert(decreases_to!(*fs => fs@));
                assert(s.skip(i as int).drop_first() =~= s.skip(i + 1));
                assert(s.skip(i as int)[0].value == ev(fs@[i as int].value));
            }
            let ghost m1 = refs.model();
            self.collect_refs(&fs[i].value, scopes, refs);
            proof {
                let u = ur(ev(fs@[i as int].value), self.dset(), self.sset(), sc);
                lemma_added_chain(m0, m1, refs.model(), acc, u);
                assert(acc + u + ur_fields(s.skip(i + 1), self.dset(), self.sset(), sc) =~= acc
                    + ur_fields(s.skip(i as int), self.dset(), self.sset(), sc));
                acc = acc + u;
            }
            i = i + 1;
        }
        proof {
            assert(s.skip(i as int) =~= Seq::<FieldV>::empty());
            assert(acc =~= acc + ur_fields(s.skip(i as int), self.dset(), self.sset(), sc));
        }
    }

    fn refs_args(
        &self,
        parent: &Expr,
        args: &Vec<CallArg>,
        start: usize,
        scopes: &mut Vec<String>,
        refs: &mut StrMap<bool>,
    )
        requires
            decreases_to!(*parent => *args),
            start <= args@.len(),
        ensures
            added(
                old(refs).model(),
                final(refs).model(),
                ur_args(
                    crate::syntax::avs(args@).skip(start as int),
                    self.dset(),
                    self.sset(),
                    svs(old(scopes)@),
                ),
            ),
            final(scopes)@ == old(scopes)@,
        decreases parent, 0int,
    {
        let ghost s = crate::syntax::avs(args@);
        let ghost sc = svs(scopes@);
        let ghost m0 = refs.model();
        let ghost mut acc: Set<Seq<char>> = Set::empty();
        let mut i: usize = start;
        proof {
            lemma_added_none(m0);
            assert(acc + ur_args(s.skip(start as int), self.dset(), self.sset(), sc) =~= ur_args(
                s.skip(start as int),
                self.dset(),
                self.sset(),
                sc,
            ));
        }
        while i < args.len()
            invariant
                decreases_to!(*parent => *args),
                s == crate::syntax::avs(args@),
                sc == svs(scopes@),
                scopes@ == old(scopes)@,
                start <= i <= args@.len(),
                added(m0, refs.model(), acc),
                acc + ur_args(s.skip(i as int), self.dset(), self.sset(), sc) == ur_args(
                    s.skip(start as int),
                    self.dset(),
                    self.sset(),
                    sc,
                ),
            decreases args@.len() - i,
        {
            proof {
                assert(decreases_to!(args@ => args@[i as int]));
                assert(decreases_to!(*args => args@));
                assert(s.skip(i as int).drop_first() =~= s.skip(i + 1));
            }
            let ghost m1 = refs.model();
            let ghost u = ur(
                match s[i as int] {
                    ArgV::Positional(v) => v,
                    ArgV::Named(_, v) => v,
                },
                self.dset(),
                self.sset(),
                sc,
            );
            match &args[i] {
                CallArg::Positional(v) => {
                    proof {
                        assert(decreases_to!(args@[i as int] => *v));
                    }
                    self.collect_refs(v, scopes, refs);
                },
                CallArg::Named { value, .. } => {
                    proof {
                        assert(decreases_to!(args@[i as int] => *value));
                    }
                    self.collect_refs(value, scopes, refs);
                },
            }
            proof {
                lemma_added_chain(m0, m1, refs.model(), acc, u);
                assert(acc + u + ur_args(s.skip(i + 1), self.dset(), self.sset(), sc) =~= acc
                    + ur_args(s.skip(i as int), self.dset(), self.sset(), sc));
                acc = acc + u;
            }
            i = i + 1;
        }
        proof {
            assert(s.skip(i as int) =~= Seq::<ArgV>::empty());
            assert(acc =~= acc + ur_args(s.skip(i as int), self.dset(), self.sset(), sc));
        }
    }

    fn refs_arms(
        &self,
        parent: &Expr,
        arms: &Vec<MatchArm>,
        scopes: &mut Vec<String>,
        refs: &mut StrMap<bool>,
    )
        requires
            decreases_to!(*parent => *arms),
        ensures
            added(
                old(refs).model(),
                final(refs).model(),
                ur_arms(crate::syntax::mvs(arms@), self.dset(), self.sset(), svs(old(scopes)@)),
            ),
            final(scopes)@ == old(scopes)@,
        decreases parent, 0int,
    {
        let ghost s = crate::syntax::mvs(arms@);
        let ghost sc = svs(scopes@);
        let ghost m0 = refs.model();
        let ghost mut acc: Set<Seq<char>> = Set::empty();
        let mut i: usize = 0;
        proof {
            assert(s.skip(0) =~= s);
            lemma_added_none(m0);
            assert(acc + ur_arms(s, self.dset(), self.sset(), sc) =~= ur_arms(
                s,
                self.dset(),
                self.sset(),
                sc,
            ));
        }
        while i < arms.len()
            invariant
                decreases_to!(*parent => *arms),
                s == crate::syntax::mvs(arms@),
                sc == svs(scopes@),
                scopes@ == old(scopes)@,
                i <= arms@.len(),
                added(m0, refs.model(), acc),
                acc + ur_arms(s.skip(i as int), self.dset(), self.sset(), sc) == ur_arms(
                    s,
                    self.dset(),
                    self.sset(),
                    sc,
                ),
            decreases arms@.len() - i,
        {
            proof {
                assert(decreases_to!(arms@[i as int] => arms@[i as int].value));
                assert(decreases_to!(arms@ => arms@[i as int]));
                assert(decreases_to!(*arms => arms@));
                assert(s.skip(i as int).drop_first() =~= s.skip(i + 1));
                assert(s.skip(i as int)[0].value == ev(arms@[i as int].value));
            }
            let ghost m1 = refs.model();
            self.collect_refs(&arms[i].value, scopes, refs);
            proof {
                let u = ur(ev(arms@[i as int].value), self.dset(), self.sset(), sc);
                lemma_added_chain(m0, m1, refs.model(), acc, u);
                assert(acc + u + ur_arms(s.skip(i + 1), self.dset(), self.sset(), sc) =~= acc
                    + ur_arms(s.skip(i as int), self.dset(), self.sset(), sc));
                acc = acc + u;
            }
            i = i + 1;
        }
        proof {
            assert(s.skip(i as int) =~= Seq::<ArmV>::empty());
            assert(acc =~= acc + ur_arms(s.skip(i as int), self.dset(), self.sset(), sc));
        }
    }
}

/// The names that a module uses without defining them: the root segment of
/// each path that names no definition, no parameter or binder in scope
/// (`PASSED` in a function), and no event source. Sorted, each once.
pub fn unresolved_references(module: &HirModule) -> (r: Vec<String>)
    ensures
        forall|i: int, j: int| 0 <= i < j < r@.len() ==> key_lt(#[trigger] r@[i]@, #[trigger] r@[j]@),
        forall|x: Seq<char>| #[trigger] svs(r@).contains(x) <==> module_refs(*module).contains(x),
{
    let ctx = RefCtx { module };
    let ghost dv = hdefvs(module.definitions@);
    let ghost sv = hsrcvs(module.sources@);
    let mut refs: StrMap<bool> = StrMap::new();
    let ghost m0 = refs.model();
    let mut k: usize = 0;
    proof {
        lemma_added_none(m0);
    }
    while k < module.definitions.len()
        invariant
            ctx.module == module,
            dv == hdefvs(module.definitions@),
            sv == hsrcvs(module.sources@),
            m0 == Seq::<(Seq<char>, bool)>::empty(),
            k <= module.definitions@.len(),
            added(m0, refs.model(), refs_upto(dv, sv, k as int)),
        decreases module.definitions@.len() - k,
    {
        let d = &module.definitions[k];
        let mut scopes = copy_strings(&d.parameters);
        if d.is_function {
            let passed = "PASSED".to_owned();
            proof {
                lemma_svs_push_pub(scopes@, passed);
            }
            scopes.push(passed);
        }
        proof {
            assert(svs(scopes@) =~= def_scopes(dv[k as int]));
            assert(dv[k as int].expr == ev(d.expression));
        }
        let ghost m1 = refs.model();
        ctx.collect_refs(&d.expression, &mut scopes, &mut refs);
        proof {
            lemma_added_chain(
                m0,
                m1,
                refs.model(),
                refs_upto(dv, sv, k as int),
                ur(dv[k as int].expr, def_names(dv), source_paths(sv), def_scopes(dv[k as int])),
            );
        }
        k = k + 1;
    }
    let mut out: Vec<String> = Vec::new();
    let mut j: usize = 0;
    while j < refs.entries.len()
        invariant
            j <= refs.entries@.len(),
            forall|t: int| 0 <= t < j ==> #[trigger] svs(out@)[t] == refs.model()[t].0,
            out@.len() == j,
        decreases refs.entries@.len() - j,
    {
        let x = copy_string(&refs.entries[j].0);
        proof {
            lemma_svs_push_pub(out@, x);
        }
        out.push(x);
        j = j + 1;
    }
    proof {
        let m = refs.model();
        assert(sorted_keys(m));
        assert forall|i: int, jj: int| 0 <= i < jj < out@.len() implies key_lt(
            #[trigger] out@[i]@,
            #[trigger] out@[jj]@,
        ) by {
            assert(svs(out@)[i] == m[i].0);
            assert(svs(out@)[jj] == m[jj].0);
        }
        assert forall|x: Seq<char>| #[trigger] svs(out@).contains(x) <==> module_refs(
            *module,
        ).contains(x) by {
            if svs(out@).contains(x) {
                let t = choose|t: int| 0 <= t < svs(out@).len() && svs(out@)[t] == x;
                assert(m[t].0 == x);
                assert(has_key(m, x));
            }
            if has_key(m, x) {
                let t = choose|t: int| 0 <= t < m.len() && #[trigger] m[t].0 == x;
                assert(svs(out@)[t] == x);
            }
        }
    }
    out
}

/// Every source declared in `m` stays declared in `m2`.
pub open spec fn keeps_declared(m: SrcModel, m2: SrcModel) -> bool {
    forall|x: Seq<char>| #[trigger] lookup(m, x) == Some(true) ==> lookup(m2, x) == Some(true)
}

proof fn lemma_path_ref_keeps(e: ExprV, m: SrcModel)
    ensures
        keeps_declared(m, path_ref(e, m)),
{
    match e {
        ExprV::Path(p) => {
            assert forall|x: Seq<char>| #[trigger] lookup(m, x) == Some(true) implies lookup(
                path_ref(e, m),
                x,
            ) == Some(true) by {
                crate::strmap::lemma_lookup_ins_absent(m, source_reference(p), false, x);
            }
        },
        _ => {},
    }
}

proof fn lemma_ins_keeps(m: SrcModel, k: Seq<char>)
    ensures
        keeps_declared(m, ins(m, k, true)),
        lookup(ins(m, k, true), k) == Some(true),
{
    crate::strmap::lemma_lookup_ins(m, k, true, k);
    assert forall|x: Seq<char>| #[trigger] lookup(m, x) == Some(true) implies lookup(ins(m, k, true), x)
        == Some(true) by {
        crate::strmap::lemma_lookup_ins(m, k, true, x);
    }
}

proof fn lemma_ins_absent_keeps(m: SrcModel, k: Seq<char>)
    ensures
        keeps_declared(m, ins_absent(m, k, false)),
{
    assert forall|x: Seq<char>| #[trigger] lookup(m, x) == Some(true) implies lookup(
        ins_absent(m, k, false),
        x,
    ) == Some(true) by {
        crate::strmap::lemma_lookup_ins_absent(m, k, false, x);
    }
}

/// Collecting the sources of an expression never takes back a declared
/// source.
proof fn lemma_cs_keeps(e: ExprV, path: Seq<Seq<char>>, m: SrcModel)
    ensures
        keeps_declared(m, cs(e, path, m)),
    decreases e,
{
    match e {
        ExprV::Source => if path.len() > 0 {
            lemma_ins_keeps(m, join_path(path));
        },
        ExprV::SourceAt(t) => {
            lemma_cs_keeps(*t, path, m);
            lemma_path_ref_keeps(*t, cs(*t, path, m));
        },
        ExprV::Link(t) => match t {
            Some(t) => {
                lemma_cs_keeps(*t, path, m);
                lemma_path_ref_keeps(*t, cs(*t, path, m));
            },
            None => {},
        },
        ExprV::Path(p) => match ns_ref(p) {
            Some(sp) => lemma_ins_absent_keeps(m, sp),
            None => {},
        },
        ExprV::Record(fs) => lemma_cs_fields_keeps(fs, path, m),
        ExprV::Constructor(_, fs) => lemma_cs_fields_keeps(fs, path, m),
        ExprV::List(vs) => lemma_cs_list_keeps(vs, path, m),
        ExprV::Block(vs) => lemma_cs_list_keeps(vs, path, m),
        ExprV::Then(vs) => lemma_cs_list_keeps(vs, path, m),
        ExprV::Hold(_, vs) => lemma_cs_list_keeps(vs, path, m),
        ExprV::Latest(vs) => lemma_cs_latest_keeps(vs, path, m),
        ExprV::Call(callee, args) => {
            let m1 = if is_source_call(callee) && path.len() > 0 {
                lemma_ins_keeps(m, join_path(path));
                ins(m, join_path(path), true)
            } else {
                m
            };
            lemma_cs_args_keeps(args, path, m1);
        },
        ExprV::FieldAccess(b, _) => lemma_cs_keeps(*b, path, m),
        ExprV::Pipe(i, st) => {
            lemma_cs_keeps(*i, path, m);
            lemma_cs_keeps(*st, path, cs(*i, path, m));
            lemma_path_ref_keeps(*i, cs(*st, path, cs(*i, path, m)));
        },
        ExprV::Binary(_, l, r) => {
            lemma_cs_keeps(*l, path, m);
            lemma_cs_keeps(*r, path, cs(*l, path, m));
        },
        ExprV::Match(_, arms) => lemma_cs_arms_keeps(arms, path, m),
        _ => {},
    }
}

proof fn lemma_cs_list_keeps(vs: Seq<ExprV>, path: Seq<Seq<char>>, m: SrcModel)
    ensures
        keeps_declared(m, cs_list(vs, path, m)),
    decreases vs,
{
    if vs.len() > 0 {
        lemma_cs_keeps(vs[0], path, m);
        lemma_cs_list_keeps(vs.drop_first(), path, cs(vs[0], path, m));
    }
}

proof fn lemma_cs_latest_keeps(vs: Seq<ExprV>, path: Seq<Seq<char>>, m: SrcModel)
    ensures
        keeps_declared(m, cs_latest(vs, path, m)),
    decreases vs,
{
    if vs.len() > 0 {
        lemma_cs_keeps(vs[0], path, m);
        lemma_path_ref_keeps(vs[0], cs(vs[0], path, m));
        lemma_cs_latest_keeps(vs.drop_first(), path, path_ref(vs[0], cs(vs[0], path, m)));
    }
}

proof fn lemma_cs_fields_keeps(fs: Seq<FieldV>, path: Seq<Seq<char>>, m: SrcModel)
    ensures
        keeps_declared(m, cs_fields(fs, path, m)),
    decreases fs,
{
    if fs.len() > 0 {
        lemma_cs_keeps(fs[0].value, path.push(fs[0].name), m);
        lemma_cs_fields_keeps(fs.drop_first(), path, cs(fs[0].value, path.push(fs[0].name), m));
    }
}

proof fn lemma_cs_args_keeps(args: Seq<ArgV>, path: Seq<Seq<char>>, m: SrcModel)
    ensures
        keeps_declared(m, cs_args(args, path, m)),
    decreases args,
{
    if args.len() > 0 {
        let m1 = match args[0] {
            ArgV::Positional(v) => {
                lemma_cs_keeps(v, path, m);
                cs(v, path, m)
            },
            ArgV::Named(n, v) => {
                lemma_cs_keeps(v, path.push(n), m);
                cs(v, path.push(n), m)
            },
        };
        lemma_cs_args_keeps(args.drop_first(), path, m1);
    }
}

proof fn lemma_cs_arms_keeps(arms: Seq<ArmV>, path: Seq<Seq<char>>, m: SrcModel)
    ensures
        keeps_declared(m, cs_arms(arms, path, m)),
    decreases arms,
{
    if arms.len() > 0 {
        lemma_cs_keeps(arms[0].value, path, m);
        lemma_cs_arms_keeps(arms.drop_first(), path, cs(arms[0].value, path, m));
    }
}

proof fn lemma_srcs_upto_keeps(defs: Seq<DefV>, a: int, b: int)
    requires
        0 <= a <= b <= defs.len(),
    ensures
        keeps_declared(srcs_upto(defs, a), srcs_upto(defs, b)),
    decreases b - a,
{
    if a < b {
        lemma_srcs_upto_keeps(defs, a, b - 1);
        lemma_cs_keeps(defs[b - 1].expr, seq![defs[b - 1].name], srcs_upto(defs, b - 1));
    }
}

/// A definition whose expression calls `Timer/interval` or
/// `Window/animation_frame` declares an event source under the
/// definition's own name, whatever its arguments and whatever the other
/// definitions of the module.
pub proof fn lemma_source_call_declares(defs: Seq<DefV>, i: int, c: Seq<char>, args: Seq<ArgV>)
    requires
        0 <= i < defs.len(),
        defs[i].expr == ExprV::Call(c, args),
        c == "Timer/interval"@ || c == "Window/animation_frame"@,
    ensures
        lookup(srcs_upto(defs, defs.len() as int), defs[i].name) == Some(true),
{
    let path = seq![defs[i].name];
    let m = srcs_upto(defs, i);
    assert(join_path(path) == defs[i].name);
    assert(is_source_call(c));
    lemma_ins_keeps(m, defs[i].name);
    lemma_cs_args_keeps(args, path, ins(m, defs[i].name, true));
    assert(srcs_upto(defs, i + 1) == cs(defs[i].expr, path, m));
    lemma_srcs_upto_keeps(defs, i + 1, defs.len() as int);
}

} // verus!
