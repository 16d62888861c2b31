//! Constant folding of render graphs: the value a node has when it does not
//! depend on any source event.
//!
//! Folding follows node references through the graph, so a graph with a
//! cycle would fold forever. Every folding function here takes a `fuel`
//! bound on the depth of that recursion and answers `None` when it runs out,
//! or when an arithmetic step leaves the range of `i64`; it answers
//! `Some(None)` when the node has no constant value and `Some(Some(v))` when
//! it folds to `v`.
use vstd::prelude::*;
use crate::compiler::{parse_i64, parse_i64_text};
use crate::dd::{
    DdRenderGraph, DdRenderGraphArg, DdRenderGraphField, DdRenderGraphMatchArm, DdRenderGraphNode,
    DdRenderGraphOperation, NodeId,
};
use crate::literal::{
    copy_literal, i64_decimal, i64_text, join_items, join_texts, lit_flag, lit_member, lit_number,
    lit_text, lv_entries, lv_items, opt_lv, LitV, Literal,
};
use crate::strmap::{ins, lookup, StrMap};
use crate::text::{
    chars_of, copy_string, push_str, range_eq_str, string_eq_str, string_eq_string,
};
use crate::toplevel::{find_char_pub, find_from};

verus! {

/// The bindings a fold sees (`item` inside a list operation), by name.
pub type LitEnv = Seq<(Seq<char>, LitV)>;

/// What folding a node gives: it got stuck (out of fuel, or an arithmetic
/// overflow), or it is done, with or without a constant.
pub enum Folded {
    Stuck,
    Done(Option<LitV>),
}

/// The folding result that an executable answer stands for.
pub open spec fn folded_of(r: Option<Option<Literal>>) -> Folded {
    match r {
        None => Folded::Stuck,
        Some(o) => Folded::Done(opt_lv(o)),
    }
}

/// The position of the first node with the given id, from `i` on.
pub open spec fn node_index(ns: Seq<DdRenderGraphNode>, id: Seq<char>, i: int) -> Option<int>
    decreases ns.len() - i,
{
    if 0 <= i < ns.len() {
        if ns[i].node.0@ == id {
            Some(i)
        } else {
            node_index(ns, id, i + 1)
        }
    } else {
        None
    }
}

/// The node of the first positional argument, from `i` on.
pub open spec fn first_arg_at(args: Seq<DdRenderGraphArg>, i: int) -> Option<Seq<char>>
    decreases args.len() - i,
{
    if 0 <= i < args.len() {
        match args[i] {
            DdRenderGraphArg::Positional(n) => Some(n.0@),
            DdRenderGraphArg::Named { .. } => first_arg_at(args, i + 1),
        }
    } else {
        None
    }
}

/// The node of the first argument named `name`, from `i` on.
pub open spec fn named_arg_at(args: Seq<DdRenderGraphArg>, name: Seq<char>, i: int) -> Option<
    Seq<char>,
>
    decreases args.len() - i,
{
    if 0 <= i < args.len() {
        match args[i] {
            DdRenderGraphArg::Named { name: n, value } => if n@ == name {
                Some(value.0@)
            } else {
                named_arg_at(args, name, i + 1)
            },
            DdRenderGraphArg::Positional(_) => named_arg_at(args, name, i + 1),
        }
    } else {
        None
    }
}

/// Whether a match arm's pattern takes a text: `__` takes every text.
pub open spec fn pattern_matches(text: Seq<char>, pattern: Seq<char>) -> bool {
    pattern == "__"@ || text == pattern || (text.len() == 0 && pattern.len() == 0)
}

/// The position of the first arm whose pattern takes the text, from `i` on.
pub open spec fn arm_at(arms: Seq<DdRenderGraphMatchArm>, text: Seq<char>, i: int) -> Option<int>
    decreases arms.len() - i,
{
    if 0 <= i < arms.len() {
        if pattern_matches(text, arms[i].pattern@) {
            Some(i)
        } else {
            arm_at(arms, text, i + 1)
        }
    } else {
        None
    }
}

/// Follows the dot-separated parts of `p`, from position `a` on, through
/// record fields.
pub open spec fn walk_fields(l: LitV, p: Seq<char>, a: int) -> Option<LitV>
    decreases p.len() - a,
{
    if 0 <= a <= p.len() {
        let b = find_from(p, '.', a, p.len() as int);
        match lit_member(l, p.subrange(a, b)) {
            None => None,
            Some(m) => if a <= b < p.len() {
                walk_fields(m, p, b + 1)
            } else {
                Some(m)
            },
        }
    } else {
        Some(l)
    }
}

/// The constant of a path: `pipe_input` is the piped value; otherwise the
/// root is looked up among the bindings and the rest followed through fields.
pub open spec fn path_literal(p: Seq<char>, pipe: Option<LitV>, env: LitEnv) -> Option<LitV> {
    if p == "pipe_input"@ {
        pipe
    } else {
        let d = find_from(p, '.', 0, p.len() as int);
        match lookup(env, p.take(d)) {
            None => None,
            Some(l) => if d < p.len() {
                walk_fields(l, p, d + 1)
            } else {
                Some(l)
            },
        }
    }
}

/// A tag constant: `True` and `False` are flags.
pub open spec fn tag_literal(t: Seq<char>) -> LitV {
    if t == "True"@ {
        LitV::Flag(true)
    } else if t == "False"@ {
        LitV::Flag(false)
    } else {
        LitV::Tag(t)
    }
}

/// The piped value if there is one, else the fallback.
pub open spec fn or_fold(pipe: Option<LitV>, y: Folded) -> Folded {
    match pipe {
        Some(v) => Folded::Done(Some(v)),
        None => y,
    }
}

/// The first result unless it found no constant, then the second.
pub open spec fn first_some(x: Folded, y: Folded) -> Folded {
    match x {
        Folded::Done(None) => y,
        _ => x,
    }
}

/// A found constant, transformed.
pub open spec fn map_fold(x: Folded, f: spec_fn(LitV) -> LitV) -> Folded {
    match x {
        Folded::Done(Some(v)) => Folded::Done(Some(f(v))),
        _ => x,
    }
}

/// Rust's `/`, which rounds toward zero.
pub open spec fn trunc_div(x: int, d: int) -> int {
    if x >= 0 {
        x / d
    } else {
        -((-x) / d)
    }
}

/// A count one higher, stopping at `i64::MAX`.
pub open spec fn saturating_inc(c: i64) -> i64 {
    if c < i64::MAX {
        (c + 1) as i64
    } else {
        c
    }
}

/// An arithmetic result as a constant, stuck when it leaves `i64`.
pub open spec fn number_result(n: int) -> Folded {
    if i64::MIN <= n <= i64::MAX {
        Folded::Done(Some(LitV::Number(n as i64)))
    } else {
        Folded::Stuck
    }
}

/// The two sides of a binary operation, folded in turn.
pub open spec fn both(x: Folded, y: Folded) -> Option<Option<(LitV, LitV)>> {
    match x {
        Folded::Stuck => None,
        Folded::Done(None) => Some(None),
        Folded::Done(Some(a)) => match y {
            Folded::Stuck => None,
            Folded::Done(None) => Some(None),
            Folded::Done(Some(b)) => Some(Some((a, b))),
        },
    }
}

/// `str::to_uppercase`: the Unicode upper case of a text.
pub uninterp spec fn uppercase_text(s: Seq<char>) -> Seq<char>;

/// `str::to_uppercase`, which maps each character to its Unicode upper case;
/// only that the result is a function of the text is claimed.
#[verifier::external_body]
fn to_uppercase(s: &str) -> (r: String)
    ensures
        r@ == uppercase_text(s@),
{
    s.to_uppercase()
}

/// The name a library call is known by: `Scene/Element/x` is `Element/x`
/// for the scene elements.
pub open spec fn canonical_call(callee: Seq<char>) -> Seq<char> {
    if callee == "Scene/Element/block"@ {
        "Element/block"@
    } else if callee == "Scene/Element/button"@ {
        "Element/button"@
    } else if callee == "Scene/Element/checkbox"@ {
        "Element/checkbox"@
    } else if callee == "Scene/Element/container"@ {
        "Element/container"@
    } else if callee == "Scene/Element/grid"@ {
        "Element/grid"@
    } else if callee == "Scene/Element/label"@ {
        "Element/label"@
    } else if callee == "Scene/Element/link"@ {
        "Element/link"@
    } else if callee == "Scene/Element/panel"@ {
        "Element/panel"@
    } else if callee == "Scene/Element/paragraph"@ {
        "Element/paragraph"@
    } else if callee == "Scene/Element/rect"@ {
        "Element/rect"@
    } else if callee == "Scene/Element/select"@ {
        "Element/select"@
    } else if callee == "Scene/Element/slider"@ {
        "Element/slider"@
    } else if callee == "Scene/Element/stack"@ {
        "Element/stack"@
    } else if callee == "Scene/Element/stripe"@ {
        "Element/stripe"@
    } else if callee == "Scene/Element/svg"@ {
        "Element/svg"@
    } else if callee == "Scene/Element/svg_circle"@ {
        "Element/svg_circle"@
    } else if callee == "Scene/Element/text"@ {
        "Element/text"@
    } else if callee == "Scene/Element/text_input"@ {
        "Element/text_input"@
    } else {
        callee
    }
}

/// The name a library call is known by.
pub fn canonical_library_call(callee: &str) -> (r: &str)
    ensures
        r@ == canonical_call(callee@),
{
    let v = chars_of(callee);
    assert(v@.subrange(0, v@.len() as int) =~= v@);
    if range_eq_str(v.as_slice(), 0, v.len(), "Scene/Element/block") {
        return "Element/block";
    }
    if range_eq_str(v.as_slice(), 0, v.len(), "Scene/Element/button") {
        return "Element/button";
    }
    if range_eq_str(v.as_slice(), 0, v.len(), "Scene/Element/checkbox") {
        return "Element/checkbox";
    }
    if range_eq_str(v.as_slice(), 0, v.len(), "Scene/Element/container") {
        return "Element/container";
    }
    if range_eq_str(v.as_slice(), 0, v.len(), "Scene/Element/grid") {
        return "Element/grid";
    }
    if range_eq_str(v.as_slice(), 0, v.len(), "Scene/Element/label") {
        return "Element/label";
    }
    if range_eq_str(v.as_slice(), 0, v.len(), "Scene/Element/link") {
        return "Element/link";
    }
    if range_eq_str(v.as_slice(), 0, v.len(), "Scene/Element/panel") {
        return "Element/panel";
    }
    if range_eq_str(v.as_slice(), 0, v.len(), "Scene/Element/paragraph") {
        return "Element/paragraph";
    }
    if range_eq_str(v.as_slice(), 0, v.len(), "Scene/Element/rect") {
        return "Element/rect";
    }
    if range_eq_str(v.as_slice(), 0, v.len(), "Scene/Element/select") {
        return "Element/select";
    }
    if range_eq_str(v.as_slice(), 0, v.len(), "Scene/Element/slider") {
        return "Element/slider";
    }
    if range_eq_str(v.as_slice(), 0, v.len(), "Scene/Element/stack") {
        return "Element/stack";
    }
    if range_eq_str(v.as_slice(), 0, v.len(), "Scene/Element/stripe") {
        return "Element/stripe";
    }
    if range_eq_str(v.as_slice(), 0, v.len(), "Scene/Element/svg") {
        return "Element/svg";
    }
    if range_eq_str(v.as_slice(), 0, v.len(), "Scene/Element/svg_circle") {
        return "Element/svg_circle";
    }
    if range_eq_str(v.as_slice(), 0, v.len(), "Scene/Element/text") {
        return "Element/text";
    }
    if range_eq_str(v.as_slice(), 0, v.len(), "Scene/Element/text_input") {
        return "Element/text_input";
    }
    callee
}

/// Folds the node `id`, with `fuel` bounding the depth of the recursion.
pub open spec fn fold_node(
    g: DdRenderGraph,
    id: Seq<char>,
    pipe: Option<LitV>,
    env: LitEnv,
    fuel: nat,
) -> Folded
    decreases fuel, 0nat, 0nat,
{
    if fuel == 0 {
        Folded::Stuck
    } else {
        match node_index(g.nodes@, id, 0) {
            None => Folded::Done(None),
            Some(i) => fold_op(g, g.nodes@[i].operation, pipe, env, (fuel - 1) as nat),
        }
    }
}

/// Folds the node named by an argument, when there is one.
pub open spec fn fold_arg(
    g: DdRenderGraph,
    id: Option<Seq<char>>,
    pipe: Option<LitV>,
    env: LitEnv,
    fuel: nat,
) -> Folded
    decreases fuel, 1nat, 0nat,
{
    match id {
        None => Folded::Done(None),
        Some(n) => fold_node(g, n, pipe, env, fuel),
    }
}

/// Folds the value of the first arm that takes the text of `m`, with `m`
/// piped in.
pub open spec fn fold_arms(
    g: DdRenderGraph,
    arms: Seq<DdRenderGraphMatchArm>,
    m: LitV,
    env: LitEnv,
    fuel: nat,
) -> Folded
    decreases fuel, 1nat, 0nat,
{
    match arm_at(arms, lit_text(m), 0) {
        None => Folded::Done(None),
        Some(k) => fold_node(g, arms[k].value.0@, Some(m), env, fuel),
    }
}

/// Whether an item is kept by a predicate node (every item is kept when
/// there is none); `None` when folding the predicate gets stuck.
pub open spec fn keep_item(
    g: DdRenderGraph,
    pred: Option<Seq<char>>,
    item: LitV,
    env: LitEnv,
    fuel: nat,
) -> Option<bool>
    decreases fuel, 1nat, 0nat,
{
    match pred {
        None => Some(true),
        Some(p) => match fold_node(g, p, None, ins(env, "item"@, item), fuel) {
            Folded::Stuck => None,
            Folded::Done(None) => Some(false),
            Folded::Done(Some(v)) => Some(lit_flag(v)),
        },
    }
}

/// Folds record fields in order into `acc`; a field without a constant
/// leaves the record without one.
pub open spec fn fold_record(
    g: DdRenderGraph,
    fields: Seq<DdRenderGraphField>,
    pipe: Option<LitV>,
    env: LitEnv,
    fuel: nat,
    acc: LitEnv,
) -> Folded
    decreases fuel, 2nat, fields.len(),
{
    if fields.len() == 0 {
        Folded::Done(Some(LitV::Fields(acc)))
    } else {
        match fold_node(g, fields[0].value.0@, pipe, env, fuel) {
            Folded::Stuck => Folded::Stuck,
            Folded::Done(None) => Folded::Done(None),
            Folded::Done(Some(v)) => fold_record(
                g,
                fields.drop_first(),
                pipe,
                env,
                fuel,
                ins(acc, fields[0].name@, v),
            ),
        }
    }
}

/// Folds list items in order after `acc`.
pub open spec fn fold_list(
    g: DdRenderGraph,
    ids: Seq<NodeId>,
    pipe: Option<LitV>,
    env: LitEnv,
    fuel: nat,
    acc: Seq<LitV>,
) -> Folded
    decreases fuel, 2nat, ids.len(),
{
    if ids.len() == 0 {
        Folded::Done(Some(LitV::Items(acc)))
    } else {
        match fold_node(g, ids[0].0@, pipe, env, fuel) {
            Folded::Stuck => Folded::Stuck,
            Folded::Done(None) => Folded::Done(None),
            Folded::Done(Some(v)) => fold_list(g, ids.drop_first(), pipe, env, fuel, acc.push(v)),
        }
    }
}

/// Maps items through the node `e`, each bound as `item`, after `acc`.
pub open spec fn map_items(
    g: DdRenderGraph,
    e: Seq<char>,
    vs: Seq<LitV>,
    env: LitEnv,
    fuel: nat,
    acc: Seq<LitV>,
) -> Folded
    decreases fuel, 2nat, vs.len(),
{
    if vs.len() == 0 {
        Folded::Done(Some(LitV::Items(acc)))
    } else {
        match fold_node(g, e, None, ins(env, "item"@, vs[0]), fuel) {
            Folded::Stuck => Folded::Stuck,
            Folded::Done(None) => Folded::Done(None),
            Folded::Done(Some(v)) => map_items(g, e, vs.drop_first(), env, fuel, acc.push(v)),
        }
    }
}

/// The items a predicate keeps, after `acc`.
pub open spec fn retain_items(
    g: DdRenderGraph,
    pred: Option<Seq<char>>,
    vs: Seq<LitV>,
    env: LitEnv,
    fuel: nat,
    acc: Seq<LitV>,
) -> Folded
    decreases fuel, 2nat, vs.len(),
{
    if vs.len() == 0 {
        Folded::Done(Some(LitV::Items(acc)))
    } else {
        match keep_item(g, pred, vs[0], env, fuel) {
            None => Folded::Stuck,
            Some(k) => retain_items(
                g,
                pred,
                vs.drop_first(),
                env,
                fuel,
                if k {
                    acc.push(vs[0])
                } else {
                    acc
                },
            ),
        }
    }
}

/// How many items a predicate keeps, counted on from `count`.
pub open spec fn count_items(
    g: DdRenderGraph,
    pred: Option<Seq<char>>,
    vs: Seq<LitV>,
    env: LitEnv,
    fuel: nat,
    count: i64,
) -> Folded
    decreases fuel, 2nat, vs.len(),
{
    if vs.len() == 0 {
        Folded::Done(Some(LitV::Number(count)))
    } else {
        match keep_item(g, pred, vs[0], env, fuel) {
            None => Folded::Stuck,
            Some(k) => count_items(
                g,
                pred,
                vs.drop_first(),
                env,
                fuel,
                if k {
                    saturating_inc(count)
                } else {
                    count
                },
            ),
        }
    }
}

/// Whether a call name is an element constructor.
pub open spec fn is_element_call(c: Seq<char>) -> bool {
    c.len() >= 8 && c.take(8) == "Element/"@
}

/// Folds a library call, with the piped value if there is one.
pub open spec fn fold_call(
    g: DdRenderGraph,
    callee: Seq<char>,
    pipe: Option<LitV>,
    args: Seq<DdRenderGraphArg>,
    env: LitEnv,
    fuel: nat,
) -> Folded
    decreases fuel, 3nat, 0nat,
{
    let c = canonical_call(callee);
    let first = fold_arg(g, first_arg_at(args, 0), pipe, env, fuel);
    if c == "Document/new"@ || c == "Scene/new"@ {
        or_fold(pipe, first_some(fold_arg(g, named_arg_at(args, "root"@, 0), pipe, env, fuel), first))
    } else if c == "Text/from_number"@ {
        map_fold(or_fold(pipe, first), |l: LitV| LitV::Text(i64_decimal(lit_number(l))))
    } else if c == "Text/append"@ {
        match or_fold(pipe, first) {
            Folded::Done(Some(inp)) => match fold_arg(g, first_arg_at(args, 0), None, env, fuel) {
                Folded::Stuck => Folded::Stuck,
                Folded::Done(s) => Folded::Done(
                    Some(
                        LitV::Text(
                            lit_text(inp) + match s {
                                Some(x) => lit_text(x),
                                None => Seq::empty(),
                            },
                        ),
                    ),
                ),
            },
            other => other,
        }
    } else if c == "Text/join"@ || c == "Text/join_lines"@ {
        match pipe {
            None => Folded::Done(None),
            Some(inp) => match first_some(
                fold_arg(g, named_arg_at(args, "separator"@, 0), pipe, env, fuel),
                first,
            ) {
                Folded::Stuck => Folded::Stuck,
                Folded::Done(s) => {
                    let sep = match s {
                        Some(x) => lit_text(x),
                        None => if callee == "Text/join_lines"@ {
                            "\n"@
                        } else {
                            ","@
                        },
                    };
                    Folded::Done(
                        Some(
                            LitV::Text(
                                match inp {
                                    LitV::Items(vs) => join_texts(vs, sep),
                                    l => lit_text(l),
                                },
                            ),
                        ),
                    )
                },
            },
        }
    } else if c == "Text/uppercase"@ {
        map_fold(or_fold(pipe, first), |l: LitV| LitV::Text(uppercase_text(lit_text(l))))
    } else if c == "Text/is_empty"@ {
        map_fold(or_fold(pipe, first), |l: LitV| LitV::Flag(lit_text(l).len() == 0))
    } else if c == "Bool/not"@ {
        map_fold(or_fold(pipe, first), |l: LitV| LitV::Flag(!lit_flag(l)))
    } else if c == "List/append"@ {
        match pipe {
            None => Folded::Done(None),
            Some(inp) => match first_some(
                fold_arg(g, named_arg_at(args, "item"@, 0), pipe, env, fuel),
                first,
            ) {
                Folded::Stuck => Folded::Stuck,
                Folded::Done(it) => {
                    let item = match it {
                        Some(x) => x,
                        None => LitV::Empty,
                    };
                    Folded::Done(
                        Some(
                            match inp {
                                LitV::Items(vs) => LitV::Items(vs.push(item)),
                                l => l,
                            },
                        ),
                    )
                },
            },
        }
    } else if c == "List/map"@ {
        match pipe {
            None => Folded::Done(None),
            Some(inp) => match named_arg_at(args, "new"@, 0) {
                None => Folded::Done(None),
                Some(e) => match inp {
                    LitV::Items(vs) => map_items(g, e, vs, env, fuel, Seq::empty()),
                    l => Folded::Done(Some(l)),
                },
            },
        }
    } else if c == "List/retain"@ {
        match pipe {
            None => Folded::Done(None),
            Some(inp) => match inp {
                LitV::Items(vs) => retain_items(
                    g,
                    named_arg_at(args, "if"@, 0),
                    vs,
                    env,
                    fuel,
                    Seq::empty(),
                ),
                l => Folded::Done(Some(l)),
            },
        }
    } else if c == "List/count"@ {
        match pipe {
            None => Folded::Done(None),
            Some(inp) => match inp {
                LitV::Items(vs) => count_items(g, named_arg_at(args, "if"@, 0), vs, env, fuel, 0),
                LitV::Empty => Folded::Done(Some(LitV::Number(0))),
                _ => Folded::Done(Some(LitV::Number(1))),
            },
        }
    } else if c == "List/latest"@ {
        match pipe {
            None => Folded::Done(None),
            Some(inp) => match inp {
                LitV::Items(vs) => Folded::Done(
                    Some(
                        if vs.len() == 0 {
                            LitV::Empty
                        } else {
                            vs[vs.len() - 1]
                        },
                    ),
                ),
                l => Folded::Done(Some(l)),
            },
        }
    } else if c == "Math/sum"@ {
        Folded::Done(None)
    } else if c == "Temperature/c_to_f"@ {
        match or_fold(pipe, first) {
            Folded::Done(Some(l)) => {
                let n = lit_number(l) as int;
                if i64::MIN <= n * 9 <= i64::MAX {
                    Folded::Done(Some(LitV::Number((trunc_div(n * 9, 5) + 32) as i64)))
                } else {
                    Folded::Stuck
                }
            },
            other => other,
        }
    } else if is_element_call(c) {
        or_fold(
            pipe,
            first_some(
                fold_arg(g, named_arg_at(args, "label"@, 0), pipe, env, fuel),
                first_some(fold_arg(g, named_arg_at(args, "text"@, 0), pipe, env, fuel), first),
            ),
        )
    } else {
        or_fold(pipe, first)
    }
}

/// Folds a pipe stage with the piped value `input`.
pub open spec fn fold_stage(
    g: DdRenderGraph,
    stage: Seq<char>,
    input: LitV,
    env: LitEnv,
    fuel: nat,
) -> Folded
    decreases fuel, 4nat, 0nat,
{
    match node_index(g.nodes@, stage, 0) {
        None => Folded::Done(None),
        Some(i) => match g.nodes@[i].operation {
            DdRenderGraphOperation::Call { callee, args } => fold_call(
                g,
                callee@,
                Some(input),
                args@,
                env,
                fuel,
            ),
            DdRenderGraphOperation::Match { arms, .. } => fold_arms(g, arms@, input, env, fuel),
            DdRenderGraphOperation::SourceAt { .. } => Folded::Done(Some(input)),
            DdRenderGraphOperation::Link { .. } => Folded::Done(Some(input)),
            _ => fold_node(g, stage, Some(input), env, fuel),
        },
    }
}

/// Folds an operation, with the piped value if there is one.
pub open spec fn fold_op(
    g: DdRenderGraph,
    op: DdRenderGraphOperation,
    pipe: Option<LitV>,
    env: LitEnv,
    fuel: nat,
) -> Folded
    decreases fuel, 5nat, 0nat,
{
    match op {
        DdRenderGraphOperation::Missing => Folded::Done(None),
        DdRenderGraphOperation::Source => Folded::Done(None),
        DdRenderGraphOperation::SourceAt { .. } => Folded::Done(None),
        DdRenderGraphOperation::Link { .. } => Folded::Done(None),
        DdRenderGraphOperation::Skip => Folded::Done(None),
        DdRenderGraphOperation::Path(p) => Folded::Done(path_literal(p@, pipe, env)),
        DdRenderGraphOperation::Number(t) => Folded::Done(
            match parse_i64(t@) {
                Some(n) => Some(LitV::Number(n)),
                None => None,
            },
        ),
        DdRenderGraphOperation::Text(t) => Folded::Done(Some(LitV::Text(t@))),
        DdRenderGraphOperation::Tag(t) => Folded::Done(Some(tag_literal(t@))),
        DdRenderGraphOperation::Record(fields) => fold_record(
            g,
            fields@,
            pipe,
            env,
            fuel,
            Seq::empty(),
        ),
        DdRenderGraphOperation::List(ids) => fold_list(g, ids@, pipe, env, fuel, Seq::empty()),
        DdRenderGraphOperation::Block(ids) => fold_last(g, ids@, pipe, env, fuel),
        DdRenderGraphOperation::Latest(ids) => fold_last(g, ids@, pipe, env, fuel),
        DdRenderGraphOperation::Then { body } => fold_last(g, body@, pipe, env, fuel),
        DdRenderGraphOperation::Hold { body, .. } => fold_last(g, body@, pipe, env, fuel),
        DdRenderGraphOperation::Constructor { callee, fields } => if callee@ == "Text"@
            && fields@.len() == 1 {
            fold_node(g, fields@[0].value.0@, pipe, env, fuel)
        } else {
            fold_record(g, fields@, pipe, env, fuel, Seq::empty())
        },
        DdRenderGraphOperation::FieldAccess { base, field } => match fold_node(
            g,
            base.0@,
            pipe,
            env,
            fuel,
        ) {
            Folded::Done(Some(l)) => Folded::Done(lit_member(l, field@)),
            other => other,
        },
        DdRenderGraphOperation::BinaryAdd { left, right } => match both(
            fold_node(g, left.0@, pipe, env, fuel),
            fold_node(g, right.0@, pipe, env, fuel),
        ) {
            None => Folded::Stuck,
            Some(None) => Folded::Done(None),
            Some(Some((a, b))) => number_result(lit_number(a) + lit_number(b)),
        },
        DdRenderGraphOperation::BinarySubtract { left, right } => match both(
            fold_node(g, left.0@, pipe, env, fuel),
            fold_node(g, right.0@, pipe, env, fuel),
        ) {
            None => Folded::Stuck,
            Some(None) => Folded::Done(None),
            Some(Some((a, b))) => number_result(lit_number(a) - lit_number(b)),
        },
        DdRenderGraphOperation::BinaryEqual { left, right } => match both(
            fold_node(g, left.0@, pipe, env, fuel),
            fold_node(g, right.0@, pipe, env, fuel),
        ) {
            None => Folded::Stuck,
            Some(None) => Folded::Done(None),
            Some(Some((a, b))) => Folded::Done(Some(LitV::Flag(lit_text(a) == lit_text(b)))),
        },
        DdRenderGraphOperation::Pipe { input, stage } => match fold_node(
            g,
            input.0@,
            pipe,
            env,
            fuel,
        ) {
            Folded::Done(Some(x)) => fold_stage(g, stage.0@, x, env, fuel),
            other => other,
        },
        DdRenderGraphOperation::Call { callee, args } => fold_call(
            g,
            callee@,
            pipe,
            args@,
            env,
            fuel,
        ),
        DdRenderGraphOperation::Match { arms, .. } => match pipe {
            None => Folded::Done(None),
            Some(m) => fold_arms(g, arms@, m, env, fuel),
        },
    }
}

/// Folds the last node of a body; an empty body has no constant.
pub open spec fn fold_last(
    g: DdRenderGraph,
    ids: Seq<NodeId>,
    pipe: Option<LitV>,
    env: LitEnv,
    fuel: nat,
) -> Folded
    decreases fuel, 1nat, 0nat,
{
    if ids.len() == 0 {
        Folded::Done(None)
    } else {
        fold_node(g, ids[ids.len() - 1].0@, pipe, env, fuel)
    }
}


/// A copy of an optional constant.
pub fn copy_opt(o: &Option<Literal>) -> (r: Option<Literal>)
    ensures
        opt_lv(r) == opt_lv(*o),
{
    match o {
        Some(l) => Some(copy_literal(l)),
        None => None,
    }
}

/// A copy of a set of bindings.
pub fn copy_env(m: &StrMap<Literal>) -> (r: StrMap<Literal>)
    ensures
        r.model() == m.model(),
{
    let mut entries: Vec<(String, Literal)> = Vec::new();
    let mut i: usize = 0;
    while i < m.entries.len()
        invariant
            i <= m.entries@.len(),
            lv_entries(entries@) == lv_entries(m.entries@).take(i as int),
        decreases m.entries@.len() - i,
    {
        let e = (copy_string(&m.entries[i].0), copy_literal(&m.entries[i].1));
        assert(lv_entries(entries@.push(e)) =~= lv_entries(entries@).push((e.0@, e.1@)));
        entries.push(e);
        i = i + 1;
        assert(lv_entries(m.entries@).take(i as int) =~= lv_entries(m.entries@).take(i - 1).push(
            (m.entries@[i - 1].0@, m.entries@[i - 1].1@),
        ));
    }
    assert(lv_entries(m.entries@).take(i as int) =~= lv_entries(m.entries@));
    let r = StrMap { entries };
    assert(r.model() =~= lv_entries(r.entries@));
    assert(m.model() =~= lv_entries(m.entries@));
    r
}

/// The id a node reference names.
pub open spec fn opt_id(o: Option<&NodeId>) -> Option<Seq<char>> {
    match o {
        Some(n) => Some(n.0@),
        None => None,
    }
}

/// The position of the first node with the given id.
pub fn find_node(nodes: &Vec<DdRenderGraphNode>, id: &String) -> (r: Option<usize>)
    ensures
        match r {
            Some(k) => node_index(nodes@, id@, 0) == Some(k as int),
            None => node_index(nodes@, id@, 0) is None,
        },
        r matches Some(k) ==> k < nodes@.len(),
{
    let mut i: usize = 0;
    while i < nodes.len()
        invariant
            i <= nodes@.len(),
            node_index(nodes@, id@, i as int) == node_index(nodes@, id@, 0),
        decreases nodes@.len() - i,
    {
        if string_eq_string(&nodes[i].node.0, id) {
            return Some(i);
        }
        i = i + 1;
    }
    None
}

/// The node of the first positional argument.
pub fn first_arg(args: &[DdRenderGraphArg]) -> (r: Option<&NodeId>)
    ensures
        opt_id(r) == first_arg_at(args@, 0),
{
    let mut i: usize = 0;
    while i < args.len()
        invariant
            i <= args@.len(),
            first_arg_at(args@, i as int) == first_arg_at(args@, 0),
        decreases args@.len() - i,
    {
        match &args[i] {
            DdRenderGraphArg::Positional(n) => {
                return Some(n);
            },
            DdRenderGraphArg::Named { .. } => {},
        }
        i = i + 1;
    }
    None
}

/// The node of the first argument named `requested`.
pub fn named_arg<'a>(args: &'a [DdRenderGraphArg], requested: &str) -> (r: Option<&'a NodeId>)
    ensures
        opt_id(r) == named_arg_at(args@, requested@, 0),
{
    let mut i: usize = 0;
    while i < args.len()
        invariant
            i <= args@.len(),
            named_arg_at(args@, requested@, i as int) == named_arg_at(args@, requested@, 0),
        decreases args@.len() - i,
    {
        match &args[i] {
            DdRenderGraphArg::Named { name, value } => {
                if string_eq_str(name, requested) {
                    return Some(value);
                }
            },
            DdRenderGraphArg::Positional(_) => {},
        }
        i = i + 1;
    }
    None
}

/// Whether a match arm's pattern takes a text.
pub fn text_pattern_matches(text: &str, pattern: &str) -> (r: bool)
    ensures
        r == pattern_matches(text@, pattern@),
{
    let t = chars_of(text);
    let p = chars_of(pattern);
    assert(p@.subrange(0, p@.len() as int) =~= p@);
    range_eq_str(p.as_slice(), 0, p.len(), "__") || crate::text::chars_eq(t.as_slice(), p.as_slice())
        || (t.len() == 0 && p.len() == 0)
}

/// The position of the first arm whose pattern takes the text.
fn find_arm(arms: &Vec<DdRenderGraphMatchArm>, text: &String) -> (r: Option<usize>)
    ensures
        match r {
            Some(k) => arm_at(arms@, text@, 0) == Some(k as int),
            None => arm_at(arms@, text@, 0) is None,
        },
        r matches Some(k) ==> k < arms@.len(),
{
    let mut i: usize = 0;
    while i < arms.len()
        invariant
            i <= arms@.len(),
            arm_at(arms@, text@, i as int) == arm_at(arms@, text@, 0),
        decreases arms@.len() - i,
    {
        if text_pattern_matches(text.as_str(), arms[i].pattern.as_str()) {
            return Some(i);
        }
        i = i + 1;
    }
    None
}

/// The constant of a path.
pub fn literal_path(path: &str, pipe_input: Option<Literal>, env: &StrMap<Literal>) -> (r: Option<
    Literal,
>)
    ensures
        opt_lv(r) == path_literal(path@, opt_lv(pipe_input), env.model()),
{
    let p = chars_of(path);
    assert(p@.subrange(0, p@.len() as int) =~= p@);
    if range_eq_str(p.as_slice(), 0, p.len(), "pipe_input") {
        return pipe_input;
    }
    let n = p.len();
    let d = find_char_pub(p.as_slice(), '.', 0, n);
    let root = crate::text::string_of_range(p.as_slice(), 0, d);
    assert(p@.subrange(0, d as int) =~= p@.take(d as int));
    let start = match env.get(root.as_str()) {
        None => {
            return None;
        },
        Some(l) => copy_literal(l),
    };
    if d == n {
        return Some(start);
    }
    let ghost whole = walk_fields(start@, p@, d + 1);
    let mut cur = start;
    let mut a: usize = d + 1;
    loop
        invariant
            p@ == path@,
            n == p@.len(),
            0 <= a <= n,
            walk_fields(cur@, p@, a as int) == whole,
            whole == path_literal(path@, opt_lv(pipe_input), env.model()),
        decreases n - a,
    {
        let b = find_char_pub(p.as_slice(), '.', a, n);
        let part = crate::text::string_of_range(p.as_slice(), a, b);
        match cur.member(part.as_str()) {
            None => {
                return None;
            },
            Some(m) => {
                if b < n {
                    cur = m;
                    a = b + 1;
                } else {
                    return Some(m);
                }
            },
        }
    }
}

/// A tag constant: `True` and `False` are flags.
fn tag_literal_exec(t: &String) -> (r: Literal)
    ensures
        r@ == tag_literal(t@),
{
    if string_eq_str(t, "True") {
        Literal::Flag(true)
    } else if string_eq_str(t, "False") {
        Literal::Flag(false)
    } else {
        Literal::Tag(copy_string(t))
    }
}

/// Whether the characters spell `lit`.
fn is(v: &Vec<char>, lit: &str) -> (r: bool)
    ensures
        r == (v@ == lit@),
{
    assert(v@.subrange(0, v@.len() as int) =~= v@);
    range_eq_str(v.as_slice(), 0, v.len(), lit)
}

/// Folds the node `node`, recursing at most `fuel` deep.
pub fn fold_literal_within(
    graph: &DdRenderGraph,
    node: &NodeId,
    pipe_input: Option<Literal>,
    env: &StrMap<Literal>,
    fuel: u64,
) -> (r: Option<Option<Literal>>)
    ensures
        folded_of(r) == fold_node(*graph, node.0@, opt_lv(pipe_input), env.model(), fuel as nat),
    decreases fuel, 0nat, 0nat,
{
    if fuel == 0 {
        return None;
    }
    match find_node(&graph.nodes, &node.0) {
        None => Some(None),
        Some(i) => fold_operation(graph, &graph.nodes[i].operation, pipe_input, env, fuel - 1),
    }
}

/// Folds the node an argument names, when there is one.
fn fold_arg_exec(
    graph: &DdRenderGraph,
    id: Option<&NodeId>,
    pipe_input: Option<Literal>,
    env: &StrMap<Literal>,
    fuel: u64,
) -> (r: Option<Option<Literal>>)
    ensures
        folded_of(r) == fold_arg(*graph, opt_id(id), opt_lv(pipe_input), env.model(), fuel as nat),
    decreases fuel, 1nat, 0nat,
{
    match id {
        None => Some(None),
        Some(n) => fold_literal_within(graph, n, pipe_input, env, fuel),
    }
}

/// Folds the first positional argument.
pub fn first_arg_literal(
    graph: &DdRenderGraph,
    args: &[DdRenderGraphArg],
    pipe_input: Option<Literal>,
    env: &StrMap<Literal>,
    fuel: u64,
) -> (r: Option<Option<Literal>>)
    ensures
        folded_of(r) == fold_arg(
            *graph,
            first_arg_at(args@, 0),
            opt_lv(pipe_input),
            env.model(),
            fuel as nat,
        ),
{
    fold_arg_exec(graph, first_arg(args), pipe_input, env, fuel)
}

/// Folds the argument named `name`.
pub fn named_arg_literal(
    graph: &DdRenderGraph,
    args: &[DdRenderGraphArg],
    name: &str,
    pipe_input: Option<Literal>,
    env: &StrMap<Literal>,
    fuel: u64,
) -> (r: Option<Option<Literal>>)
    ensures
        folded_of(r) == fold_arg(
            *graph,
            named_arg_at(args@, name@, 0),
            opt_lv(pipe_input),
            env.model(),
            fuel as nat,
        ),
{
    fold_arg_exec(graph, named_arg(args, name), pipe_input, env, fuel)
}

/// Folds the value of the first arm that takes the text of `m`.
fn fold_arms_exec(
    graph: &DdRenderGraph,
    arms: &Vec<DdRenderGraphMatchArm>,
    m: Literal,
    env: &StrMap<Literal>,
    fuel: u64,
) -> (r: Option<Option<Literal>>)
    ensures
        folded_of(r) == fold_arms(*graph, arms@, m@, env.model(), fuel as nat),
    decreases fuel, 1nat, 0nat,
{
    let text = m.as_text();
    match find_arm(arms, &text) {
        None => Some(None),
        Some(k) => fold_literal_within(graph, &arms[k].value, Some(m), env, fuel),
    }
}

/// Whether a predicate keeps an item; `None` when folding it gets stuck.
fn keep_item_exec(
    graph: &DdRenderGraph,
    pred: Option<&NodeId>,
    item: &Literal,
    env: &StrMap<Literal>,
    fuel: u64,
) -> (r: Option<bool>)
    ensures
        r == keep_item(*graph, opt_id(pred), item@, env.model(), fuel as nat),
    decreases fuel, 1nat, 0nat,
{
    match pred {
        None => Some(true),
        Some(p) => {
            let mut bound = copy_env(env);
            bound.insert("item".to_owned(), copy_literal(item));
            match fold_literal_within(graph, p, None, &bound, fuel) {
                None => None,
                Some(None) => Some(false),
                Some(Some(v)) => Some(v.as_flag()),
            }
        },
    }
}

/// Folds the last node of a body.
fn fold_last_exec(
    graph: &DdRenderGraph,
    ids: &Vec<NodeId>,
    pipe_input: Option<Literal>,
    env: &StrMap<Literal>,
    fuel: u64,
) -> (r: Option<Option<Literal>>)
    ensures
        folded_of(r) == fold_last(*graph, ids@, opt_lv(pipe_input), env.model(), fuel as nat),
    decreases fuel, 1nat, 0nat,
{
    if ids.len() == 0 {
        Some(None)
    } else {
        fold_literal_within(graph, &ids[ids.len() - 1], pipe_input, env, fuel)
    }
}

/// Folds record fields in order.
fn fold_record_exec(
    graph: &DdRenderGraph,
    fields: &Vec<DdRenderGraphField>,
    pipe_input: Option<Literal>,
    env: &StrMap<Literal>,
    fuel: u64,
) -> (r: Option<Option<Literal>>)
    ensures
        folded_of(r) == fold_record(
            *graph,
            fields@,
            opt_lv(pipe_input),
            env.model(),
            fuel as nat,
            Seq::empty(),
        ),
    decreases fuel, 2nat, 0nat,
{
    let ghost pv = opt_lv(pipe_input);
    let ghost whole = fold_record(*graph, fields@, pv, env.model(), fuel as nat, Seq::empty());
    let mut acc: StrMap<Literal> = StrMap::new();
    let mut i: usize = 0;
    assert(fields@.skip(0) =~= fields@);
    while i < fields.len()
        invariant
            i <= fields@.len(),
            opt_lv(pipe_input) == pv,
            whole == fold_record(*graph, fields@, pv, env.model(), fuel as nat, Seq::empty()),
            fold_record(*graph, fields@.skip(i as int), pv, env.model(), fuel as nat, acc.model())
                == whole,
        decreases fields@.len() - i,
    {
        assert(fields@.skip(i as int).drop_first() =~= fields@.skip(i + 1));
        match fold_literal_within(graph, &fields[i].value, copy_opt(&pipe_input), env, fuel) {
            None => {
                return None;
            },
            Some(None) => {
                return Some(None);
            },
            Some(Some(v)) => {
                acc.insert(copy_string(&fields[i].name), v);
            },
        }
        i = i + 1;
    }
    assert(fields@.skip(i as int) =~= Seq::<DdRenderGraphField>::empty());
    let r = Literal::Fields(acc);
    assert(acc.model() =~= lv_entries(acc.entries@));
    Some(Some(r))
}

/// Folds list items in order.
fn fold_list_exec(
    graph: &DdRenderGraph,
    ids: &Vec<NodeId>,
    pipe_input: Option<Literal>,
    env: &StrMap<Literal>,
    fuel: u64,
) -> (r: Option<Option<Literal>>)
    ensures
        folded_of(r) == fold_list(
            *graph,
            ids@,
            opt_lv(pipe_input),
            env.model(),
            fuel as nat,
            Seq::empty(),
        ),
    decreases fuel, 2nat, 0nat,
{
    let ghost pv = opt_lv(pipe_input);
    let ghost whole = fold_list(*graph, ids@, pv, env.model(), fuel as nat, Seq::empty());
    let mut acc: Vec<Literal> = Vec::new();
    let mut i: usize = 0;
    assert(ids@.skip(0) =~= ids@);
    assert(lv_items(acc@) =~= Seq::<LitV>::empty());
    while i < ids.len()
        invariant
            i <= ids@.len(),
            opt_lv(pipe_input) == pv,
            whole == fold_list(*graph, ids@, pv, env.model(), fuel as nat, Seq::empty()),
            fold_list(*graph, ids@.skip(i as int), pv, env.model(), fuel as nat, lv_items(acc@))
                == whole,
        decreases ids@.len() - i,
    {
        assert(ids@.skip(i as int).drop_first() =~= ids@.skip(i + 1));
        match fold_literal_within(graph, &ids[i], copy_opt(&pipe_input), env, fuel) {
            None => {
                return None;
            },
            Some(None) => {
                return Some(None);
            },
            Some(Some(v)) => {
                assert(lv_items(acc@.push(v)) =~= lv_items(acc@).push(v@));
                acc.push(v);
            },
        }
        i = i + 1;
    }
    assert(ids@.skip(i as int) =~= Seq::<NodeId>::empty());
    Some(Some(Literal::Items(acc)))
}

/// Maps items through the node `e`, each bound as `item`.
fn map_items_exec(
    graph: &DdRenderGraph,
    e: &NodeId,
    vs: &Vec<Literal>,
    env: &StrMap<Literal>,
    fuel: u64,
) -> (r: Option<Option<Literal>>)
    ensures
        folded_of(r) == map_items(
            *graph,
            e.0@,
            lv_items(vs@),
            env.model(),
            fuel as nat,
            Seq::empty(),
        ),
    decreases fuel, 2nat, 0nat,
{
    let ghost s = lv_items(vs@);
    let ghost whole = map_items(*graph, e.0@, s, env.model(), fuel as nat, Seq::empty());
    let mut acc: Vec<Literal> = Vec::new();
    let mut i: usize = 0;
    assert(s.skip(0) =~= s);
    assert(lv_items(acc@) =~= Seq::<LitV>::empty());
    while i < vs.len()
        invariant
            i <= vs@.len(),
            s == lv_items(vs@),
            whole == map_items(*graph, e.0@, s, env.model(), fuel as nat, Seq::empty()),
            map_items(*graph, e.0@, s.skip(i as int), env.model(), fuel as nat, lv_items(acc@))
                == whole,
        decreases vs@.len() - i,
    {
        assert(s.skip(i as int).drop_first() =~= s.skip(i + 1));
        assert(s.skip(i as int)[0] == vs@[i as int]@);
        let mut bound = copy_env(env);
        bound.insert("item".to_owned(), copy_literal(&vs[i]));
        match fold_literal_within(graph, e, None, &bound, fuel) {
            None => {
                return None;
            },
            Some(None) => {
                return Some(None);
            },
            Some(Some(v)) => {
                assert(lv_items(acc@.push(v)) =~= lv_items(acc@).push(v@));
                acc.push(v);
            },
        }
        i = i + 1;
    }
    assert(s.skip(i as int) =~= Seq::<LitV>::empty());
    Some(Some(Literal::Items(acc)))
}

/// The items a predicate keeps.
fn retain_items_exec(
    graph: &DdRenderGraph,
    pred: Option<&NodeId>,
    vs: &Vec<Literal>,
    env: &StrMap<Literal>,
    fuel: u64,
) -> (r: Option<Option<Literal>>)
    ensures
        folded_of(r) == retain_items(
            *graph,
            opt_id(pred),
            lv_items(vs@),
            env.model(),
            fuel as nat,
            Seq::empty(),
        ),
    decreases fuel, 2nat, 0nat,
{
    let ghost s = lv_items(vs@);
    let ghost whole = retain_items(*graph, opt_id(pred), s, env.model(), fuel as nat, Seq::empty());
    let mut acc: Vec<Literal> = Vec::new();
    let mut i: usize = 0;
    assert(s.skip(0) =~= s);
    assert(lv_items(acc@) =~= Seq::<LitV>::empty());
    while i < vs.len()
        invariant
            i <= vs@.len(),
            s == lv_items(vs@),
            whole == retain_items(*graph, opt_id(pred), s, env.model(), fuel as nat, Seq::empty()),
            retain_items(*graph, opt_id(pred), s.skip(i as int), env.model(), fuel as nat, lv_items(acc@))
                == whole,
        decreases vs@.len() - i,
    {
        assert(s.skip(i as int).drop_first() =~= s.skip(i + 1));
        assert(s.skip(i as int)[0] == vs@[i as int]@);
        match keep_item_exec(graph, pred, &vs[i], env, fuel) {
            None => {
                return None;
            },
            Some(k) => {
                if k {
                    let c = copy_literal(&vs[i]);
                    assert(lv_items(acc@.push(c)) =~= lv_items(acc@).push(c@));
                    acc.push(c);
                }
            },
        }
        i = i + 1;
    }
    assert(s.skip(i as int) =~= Seq::<LitV>::empty());
    Some(Some(Literal::Items(acc)))
}

/// How many items a predicate keeps.
fn count_items_exec(
    graph: &DdRenderGraph,
    pred: Option<&NodeId>,
    vs: &Vec<Literal>,
    env: &StrMap<Literal>,
    fuel: u64,
) -> (r: Option<Option<Literal>>)
    ensures
        folded_of(r) == count_items(
            *graph,
            opt_id(pred),
            lv_items(vs@),
            env.model(),
            fuel as nat,
            0,
        ),
    decreases fuel, 2nat, 0nat,
{
    let ghost s = lv_items(vs@);
    let ghost whole = count_items(*graph, opt_id(pred), s, env.model(), fuel as nat, 0);
    let mut count: i64 = 0;
    let mut i: usize = 0;
    assert(s.skip(0) =~= s);
    while i < vs.len()
        invariant
            i <= vs@.len(),
            s == lv_items(vs@),
            whole == count_items(*graph, opt_id(pred), s, env.model(), fuel as nat, 0),
            count_items(*graph, opt_id(pred), s.skip(i as int), env.model(), fuel as nat, count)
                == whole,
        decreases vs@.len() - i,
    {
        assert(s.skip(i as int).drop_first() =~= s.skip(i + 1));
        assert(s.skip(i as int)[0] == vs@[i as int]@);
        match keep_item_exec(graph, pred, &vs[i], env, fuel) {
            None => {
                return None;
            },
            Some(k) => {
                if k && count < i64::MAX {
                    count = count + 1;
                }
            },
        }
        i = i + 1;
    }
    assert(s.skip(i as int) =~= Seq::<LitV>::empty());
    Some(Some(Literal::Number(count)))
}

/// The piped value if there is one, else the first positional argument.
fn or_first(
    graph: &DdRenderGraph,
    args: &[DdRenderGraphArg],
    pipe_input: Option<Literal>,
    env: &StrMap<Literal>,
    fuel: u64,
) -> (r: Option<Option<Literal>>)
    ensures
        folded_of(r) == or_fold(
            opt_lv(pipe_input),
            fold_arg(*graph, first_arg_at(args@, 0), opt_lv(pipe_input), env.model(), fuel as nat),
        ),
    decreases fuel, 2nat, 0nat,
{
    match pipe_input {
        Some(v) => Some(Some(v)),
        None => fold_arg_exec(graph, first_arg(args), None, env, fuel),
    }
}

/// The first answer unless it found no constant, then the named argument.
fn or_named(
    graph: &DdRenderGraph,
    args: &[DdRenderGraphArg],
    name: &str,
    pipe_input: Option<Literal>,
    env: &StrMap<Literal>,
    fuel: u64,
    then_first: bool,
) -> (r: Option<Option<Literal>>)
    ensures
        folded_of(r) == (if then_first {
            first_some(
                fold_arg(*graph, named_arg_at(args@, name@, 0), opt_lv(pipe_input), env.model(), fuel as nat),
                fold_arg(*graph, first_arg_at(args@, 0), opt_lv(pipe_input), env.model(), fuel as nat),
            )
        } else {
            fold_arg(*graph, named_arg_at(args@, name@, 0), opt_lv(pipe_input), env.model(), fuel as nat)
        }),
    decreases fuel, 2nat, 0nat,
{
    let r = fold_arg_exec(graph, named_arg(args, name), copy_opt(&pipe_input), env, fuel);
    match r {
        Some(None) => if then_first {
            fold_arg_exec(graph, first_arg(args), pipe_input, env, fuel)
        } else {
            Some(None)
        },
        _ => r,
    }
}

/// Folds a library call, with the piped value if there is one.
pub fn fold_call_literal(
    graph: &DdRenderGraph,
    callee: &str,
    pipe_input: Option<Literal>,
    args: &[DdRenderGraphArg],
    env: &StrMap<Literal>,
    fuel: u64,
) -> (r: Option<Option<Literal>>)
    ensures
        folded_of(r) == fold_call(*graph, callee@, opt_lv(pipe_input), args@, env.model(), fuel as nat),
    decreases fuel, 3nat, 0nat,
{
    let ghost g = *graph;
    let ghost pv = opt_lv(pipe_input);
    let ghost em = env.model();
    let ghost f = fuel as nat;
    let ghost first = fold_arg(g, first_arg_at(args@, 0), pv, em, f);
    let c = canonical_library_call(callee);
    let cv = chars_of(c);
    if is(&cv, "Document/new") || is(&cv, "Scene/new") {
        match pipe_input {
            Some(v) => Some(Some(v)),
            None => or_named(graph, args, "root", None, env, fuel, true),
        }
    } else if is(&cv, "Text/from_number") {
        match or_first(graph, args, pipe_input, env, fuel) {
            Some(Some(l)) => Some(Some(Literal::Text(i64_text(l.as_number())))),
            other => other,
        }
    } else if is(&cv, "Text/append") {
        match or_first(graph, args, pipe_input, env, fuel) {
            Some(Some(inp)) => match fold_arg_exec(graph, first_arg(args), None, env, fuel) {
                None => None,
                Some(s) => {
                    let mut t = inp.as_text();
                    let ghost before = t@;
                    match s {
                        Some(x) => {
                            let xs = x.as_text();
                            push_str(&mut t, xs.as_str());
                        },
                        None => {
                            assert(before + Seq::<char>::empty() =~= before);
                        },
                    }
                    Some(Some(Literal::Text(t)))
                },
            },
            other => other,
        }
    } else if is(&cv, "Text/join") || is(&cv, "Text/join_lines") {
        match pipe_input {
            None => Some(None),
            Some(inp) => {
                let sep_r = or_named(
                    graph,
                    args,
                    "separator",
                    Some(copy_literal(&inp)),
                    env,
                    fuel,
                    true,
                );
                match sep_r {
                    None => None,
                    Some(s) => {
                        let sep = match s {
                            Some(x) => x.as_text(),
                            None => if is(&chars_of(callee), "Text/join_lines") {
                                "\n".to_owned()
                            } else {
                                ",".to_owned()
                            },
                        };
                        let text = match &inp {
                            Literal::Items(vs) => join_items(vs, sep.as_str()),
                            l => l.as_text(),
                        };
                        Some(Some(Literal::Text(text)))
                    },
                }
            },
        }
    } else if is(&cv, "Text/uppercase") {
        match or_first(graph, args, pipe_input, env, fuel) {
            Some(Some(l)) => {
                let t = l.as_text();
                Some(Some(Literal::Text(to_uppercase(t.as_str()))))
            },
            other => other,
        }
    } else if is(&cv, "Text/is_empty") {
        match or_first(graph, args, pipe_input, env, fuel) {
            Some(Some(l)) => {
                let t = l.as_text();
                let tv = chars_of(t.as_str());
                Some(Some(Literal::Flag(tv.len() == 0)))
            },
            other => other,
        }
    } else if is(&cv, "Bool/not") {
        match or_first(graph, args, pipe_input, env, fuel) {
            Some(Some(l)) => Some(Some(Literal::Flag(!l.as_flag()))),
            other => other,
        }
    } else if is(&cv, "List/append") {
        match pipe_input {
            None => Some(None),
            Some(inp) => {
                let item_r = or_named(graph, args, "item", Some(copy_literal(&inp)), env, fuel, true);
                match item_r {
                    None => None,
                    Some(it) => {
                        let item = match it {
                            Some(x) => x,
                            None => Literal::Empty,
                        };
                        match inp {
                            Literal::Items(vs) => {
                                let mut vs = vs;
                                proof {
                                    assert(lv_items(vs@.push(item)) =~= lv_items(vs@).push(item@));
                                }
                                vs.push(item);
                                Some(Some(Literal::Items(vs)))
                            },
                            l => Some(Some(l)),
                        }
                    },
                }
            },
        }
    } else if is(&cv, "List/map") {
        match pipe_input {
            None => Some(None),
            Some(inp) => match named_arg(args, "new") {
                None => Some(None),
                Some(e) => match &inp {
                    Literal::Items(vs) => map_items_exec(graph, e, vs, env, fuel),
                    _ => Some(Some(inp)),
                },
            },
        }
    } else if is(&cv, "List/retain") {
        match pipe_input {
            None => Some(None),
            Some(inp) => match &inp {
                Literal::Items(vs) => retain_items_exec(graph, named_arg(args, "if"), vs, env, fuel),
                _ => Some(Some(inp)),
            },
        }
    } else if is(&cv, "List/count") {
        match pipe_input {
            None => Some(None),
            Some(inp) => match &inp {
                Literal::Items(vs) => count_items_exec(graph, named_arg(args, "if"), vs, env, fuel),
                Literal::Empty => Some(Some(Literal::Number(0))),
                _ => Some(Some(Literal::Number(1))),
            },
        }
    } else if is(&cv, "List/latest") {
        match pipe_input {
            None => Some(None),
            Some(inp) => match &inp {
                Literal::Items(vs) => {
                    if vs.len() == 0 {
                        Some(Some(Literal::Empty))
                    } else {
                        Some(Some(copy_literal(&vs[vs.len() - 1])))
                    }
                },
                _ => Some(Some(inp)),
            },
        }
    } else if is(&cv, "Math/sum") {
        Some(None)
    } else if is(&cv, "Temperature/c_to_f") {
        match or_first(graph, args, pipe_input, env, fuel) {
            Some(Some(l)) => {
                let n = l.as_number() as i128;
                let x = n * 9;
                if x < i64::MIN as i128 || x > i64::MAX as i128 {
                    None
                } else {
                    let q: i128 = if x >= 0 {
                        x / 5
                    } else {
                        -((-x) / 5)
                    };
                    Some(Some(Literal::Number((q + 32) as i64)))
                }
            },
            other => other,
        }
    } else if cv.len() >= 8 && range_eq_str(cv.as_slice(), 0, 8, "Element/") {
        proof {
            assert(cv@.subrange(0, 8) =~= cv@.take(8));
        }
        match pipe_input {
            Some(v) => Some(Some(v)),
            None => {
                let r = or_named(graph, args, "label", None, env, fuel, false);
                match r {
                    Some(None) => or_named(graph, args, "text", None, env, fuel, true),
                    _ => r,
                }
            },
        }
    } else {
        proof {
            if cv@.len() >= 8 {
                assert(cv@.subrange(0, 8) =~= cv@.take(8));
            }
        }
        or_first(graph, args, pipe_input, env, fuel)
    }
}

/// Folds a pipe stage with the piped value `input`.
pub fn fold_stage_literal(
    graph: &DdRenderGraph,
    stage: &NodeId,
    input: Literal,
    env: &StrMap<Literal>,
    fuel: u64,
) -> (r: Option<Option<Literal>>)
    ensures
        folded_of(r) == fold_stage(*graph, stage.0@, input@, env.model(), fuel as nat),
    decreases fuel, 4nat, 0nat,
{
    match find_node(&graph.nodes, &stage.0) {
        None => Some(None),
        Some(i) => match &graph.nodes[i].operation {
            DdRenderGraphOperation::Call { callee, args } => fold_call_literal(
                graph,
                callee.as_str(),
                Some(input),
                args.as_slice(),
                env,
                fuel,
            ),
            DdRenderGraphOperation::Match { arms, .. } => fold_arms_exec(graph, arms, input, env, fuel),
            DdRenderGraphOperation::SourceAt { .. } => Some(Some(input)),
            DdRenderGraphOperation::Link { .. } => Some(Some(input)),
            _ => fold_literal_within(graph, stage, Some(input), env, fuel),
        },
    }
}

/// The two sides of a binary operation as numbers; `None` when a side gets
/// stuck, `Some(None)` when a side has no constant.
fn fold_both(
    graph: &DdRenderGraph,
    left: &NodeId,
    right: &NodeId,
    pipe_input: Option<Literal>,
    env: &StrMap<Literal>,
    fuel: u64,
) -> (r: Option<Option<(Literal, Literal)>>)
    ensures
        match both(
            fold_node(*graph, left.0@, opt_lv(pipe_input), env.model(), fuel as nat),
            fold_node(*graph, right.0@, opt_lv(pipe_input), env.model(), fuel as nat),
        ) {
            None => r is None,
            Some(None) => r == Some(None::<(Literal, Literal)>),
            Some(Some((a, b))) => r matches Some(Some((x, y))) && x@ == a && y@ == b,
        },
    decreases fuel, 1nat, 0nat,
{
    match fold_literal_within(graph, left, copy_opt(&pipe_input), env, fuel) {
        None => None,
        Some(None) => Some(None),
        Some(Some(a)) => match fold_literal_within(graph, right, pipe_input, env, fuel) {
            None => None,
            Some(None) => Some(None),
            Some(Some(b)) => Some(Some((a, b))),
        },
    }
}

/// Folds an operation, with the piped value if there is one.
fn fold_operation(
    graph: &DdRenderGraph,
    op: &DdRenderGraphOperation,
    pipe_input: Option<Literal>,
    env: &StrMap<Literal>,
    fuel: u64,
) -> (r: Option<Option<Literal>>)
    ensures
        folded_of(r) == fold_op(*graph, *op, opt_lv(pipe_input), env.model(), fuel as nat),
    decreases fuel, 5nat, 0nat,
{
    match op {
        DdRenderGraphOperation::Missing => Some(None),
        DdRenderGraphOperation::Source => Some(None),
        DdRenderGraphOperation::SourceAt { .. } => Some(None),
        DdRenderGraphOperation::Link { .. } => Some(None),
        DdRenderGraphOperation::Skip => Some(None),
        DdRenderGraphOperation::Path(p) => Some(literal_path(p.as_str(), pipe_input, env)),
        DdRenderGraphOperation::Number(t) => match parse_i64_text(t) {
            Some(n) => Some(Some(Literal::Number(n))),
            None => Some(None),
        },
        DdRenderGraphOperation::Text(t) => Some(Some(Literal::Text(copy_string(t)))),
        DdRenderGraphOperation::Tag(t) => Some(Some(tag_literal_exec(t))),
        DdRenderGraphOperation::Record(fields) => fold_record_exec(graph, fields, pipe_input, env, fuel),
        DdRenderGraphOperation::List(ids) => fold_list_exec(graph, ids, pipe_input, env, fuel),
        DdRenderGraphOperation::Block(ids) => fold_last_exec(graph, ids, pipe_input, env, fuel),
        DdRenderGraphOperation::Latest(ids) => fold_last_exec(graph, ids, pipe_input, env, fuel),
        DdRenderGraphOperation::Then { body } => fold_last_exec(graph, body, pipe_input, env, fuel),
        DdRenderGraphOperation::Hold { body, .. } => fold_last_exec(graph, body, pipe_input, env, fuel),
        DdRenderGraphOperation::Constructor { callee, fields } => {
            if string_eq_str(callee, "Text") && fields.len() == 1 {
                fold_literal_within(graph, &fields[0].value, pipe_input, env, fuel)
            } else {
                fold_record_exec(graph, fields, pipe_input, env, fuel)
            }
        },
        DdRenderGraphOperation::FieldAccess { base, field } => {
            match fold_literal_within(graph, base, pipe_input, env, fuel) {
                Some(Some(l)) => Some(l.member(field.as_str())),
                other => other,
            }
        },
        DdRenderGraphOperation::BinaryAdd { left, right } => {
            match fold_both(graph, left, right, pipe_input, env, fuel) {
                None => None,
                Some(None) => Some(None),
                Some(Some((a, b))) => {
                    let s = (a.as_number() as i128) + (b.as_number() as i128);
                    if s < i64::MIN as i128 || s > i64::MAX as i128 {
                        None
                    } else {
                        Some(Some(Literal::Number(s as i64)))
                    }
                },
            }
        },
        DdRenderGraphOperation::BinarySubtract { left, right } => {
            match fold_both(graph, left, right, pipe_input, env, fuel) {
                None => None,
                Some(None) => Some(None),
                Some(Some((a, b))) => {
                    let s = (a.as_number() as i128) - (b.as_number() as i128);
                    if s < i64::MIN as i128 || s > i64::MAX as i128 {
                        None
                    } else {
                        Some(Some(Literal::Number(s as i64)))
                    }
                },
            }
        },
        DdRenderGraphOperation::BinaryEqual { left, right } => {
            match fold_both(graph, left, right, pipe_input, env, fuel) {
                None => None,
                Some(None) => Some(None),
                Some(Some((a, b))) => {
                    let x = a.as_text();
                    let y = b.as_text();
                    Some(Some(Literal::Flag(string_eq_string(&x, &y))))
                },
            }
        },
        DdRenderGraphOperation::Pipe { input, stage } => {
            match fold_literal_within(graph, input, pipe_input, env, fuel) {
                Some(Some(x)) => fold_stage_literal(graph, stage, x, env, fuel),
                other => other,
            }
        },
        DdRenderGraphOperation::Call { callee, args } => fold_call_literal(
            graph,
            callee.as_str(),
            pipe_input,
            args.as_slice(),
            env,
            fuel,
        ),
        DdRenderGraphOperation::Match { arms, .. } => match pipe_input {
            None => Some(None),
            Some(m) => fold_arms_exec(graph, arms, m, env, fuel),
        },
    }
}


/// Whether folding a node finishes: the recursion through the graph ends (it
/// follows no cycle) and no arithmetic step leaves `i64`.
pub open spec fn folds(g: DdRenderGraph, id: Seq<char>, pipe: Option<LitV>, env: LitEnv) -> bool {
    !(fold_node(g, id, pipe, env, u64::MAX as nat) is Stuck)
}

/// The constant a node folds to, when folding finishes.
pub open spec fn folded_value(
    g: DdRenderGraph,
    id: Seq<char>,
    pipe: Option<LitV>,
    env: LitEnv,
) -> Option<LitV> {
    match fold_node(g, id, pipe, env, u64::MAX as nat) {
        Folded::Done(v) => v,
        Folded::Stuck => None,
    }
}

/// The constant a node folds to, if it has one.
pub fn fold_literal(
    graph: &DdRenderGraph,
    node: &NodeId,
    pipe_input: Option<Literal>,
    env: &StrMap<Literal>,
) -> (r: Option<Literal>)
    requires
        folds(*graph, node.0@, opt_lv(pipe_input), env.model()),
    ensures
        opt_lv(r) == folded_value(*graph, node.0@, opt_lv(pipe_input), env.model()),
{
    match fold_literal_within(graph, node, pipe_input, env, u64::MAX) {
        Some(v) => v,
        None => None,
    }
}

/// The depth of recursion that `try_fold_literal` allows itself.
pub const FOLD_DEPTH: u64 = 1024;

/// The constant a node folds to, or `None` when folding does not finish
/// within `FOLD_DEPTH` nested steps (as in a graph with a cycle) or leaves
/// `i64`.
pub fn try_fold_literal(
    graph: &DdRenderGraph,
    node: &NodeId,
    pipe_input: Option<Literal>,
    env: &StrMap<Literal>,
) -> (r: Option<Option<Literal>>)
    ensures
        r is None <==> fold_node(*graph, node.0@, opt_lv(pipe_input), env.model(), FOLD_DEPTH as nat)
            is Stuck,
        r matches Some(v) ==> folds(*graph, node.0@, opt_lv(pipe_input), env.model()) && opt_lv(v)
            == folded_value(*graph, node.0@, opt_lv(pipe_input), env.model()),
{
    let ghost pv = opt_lv(pipe_input);
    let probe = fold_literal_within(graph, node, pipe_input, env, FOLD_DEPTH);
    proof {
        if !(fold_node(*graph, node.0@, pv, env.model(), FOLD_DEPTH as nat) is Stuck) {
            lemma_fold_within_agrees(*graph, node.0@, pv, env.model(), FOLD_DEPTH as nat);
        }
    }
    probe
}


// ---------------------------------------------------------------------------
// More fuel never changes a finished fold
// ---------------------------------------------------------------------------

/// A fold that finishes within `f1` gives the same answer with any larger
/// fuel `f2`.
pub proof fn lemma_fold_node_fuel(
    g: DdRenderGraph,
    id: Seq<char>,
    pipe: Option<LitV>,
    env: LitEnv,
    f1: nat,
    f2: nat,
)
    requires
        f1 <= f2,
        !(fold_node(g, id, pipe, env, f1) is Stuck),
    ensures
        fold_node(g, id, pipe, env, f2) == fold_node(g, id, pipe, env, f1),
    decreases f1, 0nat, 0nat,
{
    match node_index(g.nodes@, id, 0) {
        None => {},
        Some(i) => {
            lemma_fold_op_fuel(g, g.nodes@[i].operation, pipe, env, (f1 - 1) as nat, (f2 - 1) as nat);
        },
    }
}

proof fn lemma_fold_arg_fuel(
    g: DdRenderGraph,
    id: Option<Seq<char>>,
    pipe: Option<LitV>,
    env: LitEnv,
    f1: nat,
    f2: nat,
)
    requires
        f1 <= f2,
    ensures
        !(fold_arg(g, id, pipe, env, f1) is Stuck) ==> fold_arg(g, id, pipe, env, f2) == fold_arg(
            g,
            id,
            pipe,
            env,
            f1,
        ),
    decreases f1, 1nat, 0nat,
{
    if let Some(n) = id {
        if !(fold_node(g, n, pipe, env, f1) is Stuck) {
            lemma_fold_node_fuel(g, n, pipe, env, f1, f2);
        }
    }
}

proof fn lemma_fold_arms_fuel(
    g: DdRenderGraph,
    arms: Seq<DdRenderGraphMatchArm>,
    m: LitV,
    env: LitEnv,
    f1: nat,
    f2: nat,
)
    requires
        f1 <= f2,
    ensures
        !(fold_arms(g, arms, m, env, f1) is Stuck) ==> fold_arms(g, arms, m, env, f2) == fold_arms(
            g,
            arms,
            m,
            env,
            f1,
        ),
    decreases f1, 1nat, 0nat,
{
    if let Some(k) = arm_at(arms, lit_text(m), 0) {
        if !(fold_node(g, arms[k].value.0@, Some(m), env, f1) is Stuck) {
            lemma_fold_node_fuel(g, arms[k].value.0@, Some(m), env, f1, f2);
        }
    }
}

proof fn lemma_keep_item_fuel(
    g: DdRenderGraph,
    pred: Option<Seq<char>>,
    item: LitV,
    env: LitEnv,
    f1: nat,
    f2: nat,
)
    requires
        f1 <= f2,
    ensures
        keep_item(g, pred, item, env, f1) is Some ==> keep_item(g, pred, item, env, f2)
            == keep_item(g, pred, item, env, f1),
    decreases f1, 1nat, 0nat,
{
    if let Some(p) = pred {
        if !(fold_node(g, p, None, ins(env, "item"@, item), f1) is Stuck) {
            lemma_fold_node_fuel(g, p, None, ins(env, "item"@, item), f1, f2);
        }
    }
}

proof fn lemma_fold_last_fuel(
    g: DdRenderGraph,
    ids: Seq<NodeId>,
    pipe: Option<LitV>,
    env: LitEnv,
    f1: nat,
    f2: nat,
)
    requires
        f1 <= f2,
    ensures
        !(fold_last(g, ids, pipe, env, f1) is Stuck) ==> fold_last(g, ids, pipe, env, f2)
            == fold_last(g, ids, pipe, env, f1),
    decreases f1, 1nat, 0nat,
{
    if ids.len() > 0 && !(fold_node(g, ids[ids.len() - 1].0@, pipe, env, f1) is Stuck) {
        lemma_fold_node_fuel(g, ids[ids.len() - 1].0@, pipe, env, f1, f2);
    }
}

proof fn lemma_fold_record_fuel(
    g: DdRenderGraph,
    fields: Seq<DdRenderGraphField>,
    pipe: Option<LitV>,
    env: LitEnv,
    f1: nat,
    f2: nat,
    acc: LitEnv,
)
    requires
        f1 <= f2,
    ensures
        !(fold_record(g, fields, pipe, env, f1, acc) is Stuck) ==> fold_record(
            g,
            fields,
            pipe,
            env,
            f2,
            acc,
        ) == fold_record(g, fields, pipe, env, f1, acc),
    decreases f1, 2nat, fields.len(),
{
    if fields.len() > 0 {
        let x = fold_node(g, fields[0].value.0@, pipe, env, f1);
        if !(x is Stuck) {
            lemma_fold_node_fuel(g, fields[0].value.0@, pipe, env, f1, f2);
            if let Folded::Done(Some(v)) = x {
                lemma_fold_record_fuel(
                    g,
                    fields.drop_first(),
                    pipe,
                    env,
                    f1,
                    f2,
                    ins(acc, fields[0].name@, v),
                );
            }
        }
    }
}

proof fn lemma_fold_list_fuel(
    g: DdRenderGraph,
    ids: Seq<NodeId>,
    pipe: Option<LitV>,
    env: LitEnv,
    f1: nat,
    f2: nat,
    acc: Seq<LitV>,
)
    requires
        f1 <= f2,
    ensures
        !(fold_list(g, ids, pipe, env, f1, acc) is Stuck) ==> fold_list(g, ids, pipe, env, f2, acc)
            == fold_list(g, ids, pipe, env, f1, acc),
    decreases f1, 2nat, ids.len(),
{
    if ids.len() > 0 {
        let x = fold_node(g, ids[0].0@, pipe, env, f1);
        if !(x is Stuck) {
            lemma_fold_node_fuel(g, ids[0].0@, pipe, env, f1, f2);
            if let Folded::Done(Some(v)) = x {
                lemma_fold_list_fuel(g, ids.drop_first(), pipe, env, f1, f2, acc.push(v));
            }
        }
    }
}

proof fn lemma_map_items_fuel(
    g: DdRenderGraph,
    e: Seq<char>,
    vs: Seq<LitV>,
    env: LitEnv,
    f1: nat,
    f2: nat,
    acc: Seq<LitV>,
)
    requires
        f1 <= f2,
    ensures
        !(map_items(g, e, vs, env, f1, acc) is Stuck) ==> map_items(g, e, vs, env, f2, acc)
            == map_items(g, e, vs, env, f1, acc),
    decreases f1, 2nat, vs.len(),
{
    if vs.len() > 0 {
        let x = fold_node(g, e, None, ins(env, "item"@, vs[0]), f1);
        if !(x is Stuck) {
            lemma_fold_node_fuel(g, e, None, ins(env, "item"@, vs[0]), f1, f2);
            if let Folded::Done(Some(v)) = x {
                lemma_map_items_fuel(g, e, vs.drop_first(), env, f1, f2, acc.push(v));
            }
        }
    }
}

proof fn lemma_retain_items_fuel(
    g: DdRenderGraph,
    pred: Option<Seq<char>>,
    vs: Seq<LitV>,
    env: LitEnv,
    f1: nat,
    f2: nat,
    acc: Seq<LitV>,
)
    requires
        f1 <= f2,
    ensures
        !(retain_items(g, pred, vs, env, f1, acc) is Stuck) ==> retain_items(
            g,
            pred,
            vs,
            env,
            f2,
            acc,
        ) == retain_items(g, pred, vs, env, f1, acc),
    decreases f1, 2nat, vs.len(),
{
    if vs.len() > 0 {
        lemma_keep_item_fuel(g, pred, vs[0], env, f1, f2);
        if let Some(k) = keep_item(g, pred, vs[0], env, f1) {
            lemma_retain_items_fuel(
                g,
                pred,
                vs.drop_first(),
                env,
                f1,
                f2,
                if k {
                    acc.push(vs[0])
                } else {
                    acc
                },
            );
        }
    }
}

proof fn lemma_count_items_fuel(
    g: DdRenderGraph,
    pred: Option<Seq<char>>,
    vs: Seq<LitV>,
    env: LitEnv,
    f1: nat,
    f2: nat,
    count: i64,
)
    requires
        f1 <= f2,
    ensures
        !(count_items(g, pred, vs, env, f1, count) is Stuck) ==> count_items(
            g,
            pred,
            vs,
            env,
            f2,
            count,
        ) == count_items(g, pred, vs, env, f1, count),
    decreases f1, 2nat, vs.len(),
{
    if vs.len() > 0 {
        lemma_keep_item_fuel(g, pred, vs[0], env, f1, f2);
        if let Some(k) = keep_item(g, pred, vs[0], env, f1) {
            lemma_count_items_fuel(
                g,
                pred,
                vs.drop_first(),
                env,
                f1,
                f2,
                if k {
                    saturating_inc(count)
                } else {
                    count
                },
            );
        }
    }
}

proof fn lemma_fold_call_fuel(
    g: DdRenderGraph,
    callee: Seq<char>,
    pipe: Option<LitV>,
    args: Seq<DdRenderGraphArg>,
    env: LitEnv,
    f1: nat,
    f2: nat,
)
    requires
        f1 <= f2,
    ensures
        !(fold_call(g, callee, pipe, args, env, f1) is Stuck) ==> fold_call(
            g,
            callee,
            pipe,
            args,
            env,
            f2,
        ) == fold_call(g, callee, pipe, args, env, f1),
    decreases f1, 3nat, 0nat,
{
    lemma_fold_arg_fuel(g, first_arg_at(args, 0), pipe, env, f1, f2);
    lemma_fold_arg_fuel(g, first_arg_at(args, 0), None, env, f1, f2);
    lemma_fold_arg_fuel(g, named_arg_at(args, "root"@, 0), pipe, env, f1, f2);
    lemma_fold_arg_fuel(g, named_arg_at(args, "separator"@, 0), pipe, env, f1, f2);
    lemma_fold_arg_fuel(g, named_arg_at(args, "item"@, 0), pipe, env, f1, f2);
    lemma_fold_arg_fuel(g, named_arg_at(args, "label"@, 0), pipe, env, f1, f2);
    lemma_fold_arg_fuel(g, named_arg_at(args, "text"@, 0), pipe, env, f1, f2);
    if let Some(LitV::Items(vs)) = pipe {
        if let Some(e) = named_arg_at(args, "new"@, 0) {
            lemma_map_items_fuel(g, e, vs, env, f1, f2, Seq::empty());
        }
        lemma_retain_items_fuel(g, named_arg_at(args, "if"@, 0), vs, env, f1, f2, Seq::empty());
        lemma_count_items_fuel(g, named_arg_at(args, "if"@, 0), vs, env, f1, f2, 0);
    }
}

proof fn lemma_fold_stage_fuel(
    g: DdRenderGraph,
    stage: Seq<char>,
    input: LitV,
    env: LitEnv,
    f1: nat,
    f2: nat,
)
    requires
        f1 <= f2,
    ensures
        !(fold_stage(g, stage, input, env, f1) is Stuck) ==> fold_stage(g, stage, input, env, f2)
            == fold_stage(g, stage, input, env, f1),
    decreases f1, 4nat, 0nat,
{
    if let Some(i) = node_index(g.nodes@, stage, 0) {
        match g.nodes@[i].operation {
            DdRenderGraphOperation::Call { callee, args } => {
                lemma_fold_call_fuel(g, callee@, Some(input), args@, env, f1, f2);
            },
            DdRenderGraphOperation::Match { arms, .. } => {
                lemma_fold_arms_fuel(g, arms@, input, env, f1, f2);
            },
            _ => {
                if !(fold_node(g, stage, Some(input), env, f1) is Stuck) {
                    lemma_fold_node_fuel(g, stage, Some(input), env, f1, f2);
                }
            },
        }
    }
}

proof fn lemma_fold_op_fuel(
    g: DdRenderGraph,
    op: DdRenderGraphOperation,
    pipe: Option<LitV>,
    env: LitEnv,
    f1: nat,
    f2: nat,
)
    requires
        f1 <= f2,
        !(fold_op(g, op, pipe, env, f1) is Stuck),
    ensures
        fold_op(g, op, pipe, env, f2) == fold_op(g, op, pipe, env, f1),
    decreases f1, 5nat, 0nat,
{
    match op {
        DdRenderGraphOperation::Record(fields) => {
            lemma_fold_record_fuel(g, fields@, pipe, env, f1, f2, Seq::empty());
        },
        DdRenderGraphOperation::List(ids) => {
            lemma_fold_list_fuel(g, ids@, pipe, env, f1, f2, Seq::empty());
        },
        DdRenderGraphOperation::Block(ids) => {
            lemma_fold_last_fuel(g, ids@, pipe, env, f1, f2);
        },
        DdRenderGraphOperation::Latest(ids) => {
            lemma_fold_last_fuel(g, ids@, pipe, env, f1, f2);
        },
        DdRenderGraphOperation::Then { body } => {
            lemma_fold_last_fuel(g, body@, pipe, env, f1, f2);
        },
        DdRenderGraphOperation::Hold { body, .. } => {
            lemma_fold_last_fuel(g, body@, pipe, env, f1, f2);
        },
        DdRenderGraphOperation::Constructor { callee, fields } => {
            if callee@ == "Text"@ && fields@.len() == 1 {
                lemma_fold_node_fuel(g, fields@[0].value.0@, pipe, env, f1, f2);
            } else {
                lemma_fold_record_fuel(g, fields@, pipe, env, f1, f2, Seq::empty());
            }
        },
        DdRenderGraphOperation::FieldAccess { base, .. } => {
            lemma_fold_node_fuel(g, base.0@, pipe, env, f1, f2);
        },
        DdRenderGraphOperation::BinaryAdd { left, right } => {
            lemma_both_fuel(g, left.0@, right.0@, pipe, env, f1, f2);
        },
        DdRenderGraphOperation::BinarySubtract { left, right } => {
            lemma_both_fuel(g, left.0@, right.0@, pipe, env, f1, f2);
        },
        DdRenderGraphOperation::BinaryEqual { left, right } => {
            lemma_both_fuel(g, left.0@, right.0@, pipe, env, f1, f2);
        },
        DdRenderGraphOperation::Pipe { input, stage } => {
            let x = fold_node(g, input.0@, pipe, env, f1);
            lemma_fold_node_fuel(g, input.0@, pipe, env, f1, f2);
            if let Folded::Done(Some(v)) = x {
                lemma_fold_stage_fuel(g, stage.0@, v, env, f1, f2);
            }
        },
        DdRenderGraphOperation::Call { callee, args } => {
            lemma_fold_call_fuel(g, callee@, pipe, args@, env, f1, f2);
        },
        DdRenderGraphOperation::Match { arms, .. } => {
            if let Some(m) = pipe {
                lemma_fold_arms_fuel(g, arms@, m, env, f1, f2);
            }
        },
        _ => {},
    }
}

proof fn lemma_both_fuel(
    g: DdRenderGraph,
    left: Seq<char>,
    right: Seq<char>,
    pipe: Option<LitV>,
    env: LitEnv,
    f1: nat,
    f2: nat,
)
    requires
        f1 <= f2,
        both(fold_node(g, left, pipe, env, f1), fold_node(g, right, pipe, env, f1)) is Some,
    ensures
        both(fold_node(g, left, pipe, env, f2), fold_node(g, right, pipe, env, f2)) == both(
            fold_node(g, left, pipe, env, f1),
            fold_node(g, right, pipe, env, f1),
        ),
    decreases f1, 1nat, 0nat,
{
    lemma_fold_node_fuel(g, left, pipe, env, f1, f2);
    if fold_node(g, left, pipe, env, f1) matches Folded::Done(Some(_)) {
        lemma_fold_node_fuel(g, right, pipe, env, f1, f2);
    }
}

/// Any fuel within which a fold finishes gives the constant `fold_literal`
/// answers.
pub proof fn lemma_fold_within_agrees(
    g: DdRenderGraph,
    id: Seq<char>,
    pipe: Option<LitV>,
    env: LitEnv,
    f: nat,
)
    requires
        f <= u64::MAX,
        !(fold_node(g, id, pipe, env, f) is Stuck),
    ensures
        folds(g, id, pipe, env),
        fold_node(g, id, pipe, env, f) == Folded::Done(folded_value(g, id, pipe, env)),
{
    lemma_fold_node_fuel(g, id, pipe, env, f, u64::MAX as nat);
}


/// Folding `List/latest` on a list gives its last item, whatever the
/// arguments, environment and fuel; on an empty list it gives the empty
/// literal.
pub proof fn lemma_list_latest(
    g: DdRenderGraph,
    args: Seq<DdRenderGraphArg>,
    vs: Seq<LitV>,
    env: LitEnv,
    fuel: nat,
)
    ensures
        vs.len() > 0 ==> fold_call(g, "List/latest"@, Some(LitV::Items(vs)), args, env, fuel)
            == Folded::Done(Some(vs[vs.len() - 1])),
        vs.len() == 0 ==> fold_call(g, "List/latest"@, Some(LitV::Items(vs)), args, env, fuel)
            == Folded::Done(Some(LitV::Empty)),
{
    reveal_strlit("Document/new");
    reveal_strlit("Scene/new");
    reveal_strlit("Text/from_number");
    reveal_strlit("Text/append");
    reveal_strlit("Text/join");
    reveal_strlit("Text/join_lines");
    reveal_strlit("Text/uppercase");
    reveal_strlit("Text/is_empty");
    reveal_strlit("Bool/not");
    reveal_strlit("List/append");
    reveal_strlit("List/map");
    reveal_strlit("List/retain");
    reveal_strlit("List/count");
    reveal_strlit("List/latest");
    reveal_strlit("Scene/Element/block");
    reveal_strlit("Scene/Element/button");
    reveal_strlit("Scene/Element/checkbox");
    reveal_strlit("Scene/Element/container");
    reveal_strlit("Scene/Element/grid");
    reveal_strlit("Scene/Element/label");
    reveal_strlit("Scene/Element/link");
    reveal_strlit("Scene/Element/panel");
    reveal_strlit("Scene/Element/paragraph");
    reveal_strlit("Scene/Element/rect");
    reveal_strlit("Scene/Element/select");
    reveal_strlit("Scene/Element/slider");
    reveal_strlit("Scene/Element/stack");
    reveal_strlit("Scene/Element/stripe");
    reveal_strlit("Scene/Element/svg");
    reveal_strlit("Scene/Element/svg_circle");
    reveal_strlit("Scene/Element/text");
    reveal_strlit("Scene/Element/text_input");
    assert("Document/new"@.len() == 12);
    assert("Scene/new"@.len() == 9);
    assert("Text/from_number"@.len() == 16);
    assert("Text/append"@[0] == 'T');
    assert("Text/join"@.len() == 9);
    assert("Text/join_lines"@.len() == 15);
    assert("Text/uppercase"@.len() == 14);
    assert("Text/is_empty"@.len() == 13);
    assert("Bool/not"@.len() == 8);
    assert("List/append"@[5] == 'a');
    assert("List/map"@.len() == 8);
    assert("List/retain"@[5] == 'r');
    assert("List/count"@.len() == 10);
    assert("Scene/Element/block"@.len() == 19);
    assert("Scene/Element/button"@.len() == 20);
    assert("Scene/Element/checkbox"@.len() == 22);
    assert("Scene/Element/container"@.len() == 23);
    assert("Scene/Element/grid"@.len() == 18);
    assert("Scene/Element/label"@.len() == 19);
    assert("Scene/Element/link"@.len() == 18);
    assert("Scene/Element/panel"@.len() == 19);
    assert("Scene/Element/paragraph"@.len() == 23);
    assert("Scene/Element/rect"@.len() == 18);
    assert("Scene/Element/select"@.len() == 20);
    assert("Scene/Element/slider"@.len() == 20);
    assert("Scene/Element/stack"@.len() == 19);
    assert("Scene/Element/stripe"@.len() == 20);
    assert("Scene/Element/svg"@.len() == 17);
    assert("Scene/Element/svg_circle"@.len() == 24);
    assert("Scene/Element/text"@.len() == 18);
    assert("Scene/Element/text_input"@.len() == 24);
    assert("List/latest"@.len() == 11);
    assert("List/latest"@[0] == 'L' && "List/latest"@[5] == 'l');
    assert(canonical_call("List/latest"@) == "List/latest"@);
}

} // verus!
