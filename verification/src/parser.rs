//! Recursive-descent parser over the tokens of one expression text.
use vstd::prelude::*;
use crate::syntax::{
    avs, dv, dvs, ev, evs, fvs, mvs, lemma_avs_push, lemma_dvs_push, lemma_evs_push,
    lemma_fvs_push, lemma_mvs_push, tokens_wf, ArgV, ArmV, BinaryOp, CallArg, DiagV, Expr,
    ExprV, FieldV, MatchArm, MatchKind, RecordField, SourceSpan, SyntaxDiagnostic, Token,
    TokenKind,
};
use crate::text::{debug_str, debug_text, push_char, push_str, string_of_range, range_eq_str};

verus! {

/// Where a sub-expression has to stop.
#[derive(Clone, Copy, PartialEq, Eq, Structural)]
pub enum TokenStop {
    RBracket,
    RParen,
    RBrace,
    Comma,
    FieldStart,
    ArmStart,
}

/// What the parser reads: the tokens and the characters they point into.
pub struct PCtx {
    pub toks: Seq<Token>,
    pub src: Seq<char>,
}

/// A parse result: the value, the position after it, and the diagnostics
/// that parsing it reported.
pub struct PRes<T> {
    pub v: T,
    pub i: int,
    pub d: Seq<DiagV>,
}

pub open spec fn ntok(p: PCtx) -> int {
    p.toks.len() as int
}

pub open spec fn check(p: PCtx, k: TokenKind, i: int) -> bool {
    0 <= i < p.toks.len() && p.toks[i].kind == k
}

/// The characters that token `i` spells.
pub open spec fn tok_text(p: PCtx, i: int) -> Seq<char> {
    p.src.subrange(p.toks[i].cs as int, p.toks[i].ce as int)
}

pub open spec fn matches_stop(p: PCtx, s: TokenStop, i: int) -> bool {
    match s {
        TokenStop::RBracket => check(p, TokenKind::RBracket, i),
        TokenStop::RParen => check(p, TokenKind::RParen, i),
        TokenStop::RBrace => check(p, TokenKind::RBrace, i),
        TokenStop::Comma => check(p, TokenKind::Comma, i),
        TokenStop::FieldStart => check(p, TokenKind::Word, i) && check(p, TokenKind::Colon, i + 1),
        TokenStop::ArmStart => check(p, TokenKind::Word, i) && check(p, TokenKind::FatArrow, i + 1),
    }
}

pub open spec fn at_stop(p: PCtx, stops: Seq<TokenStop>, i: int) -> bool {
    exists|k: int| 0 <= k < stops.len() && #[trigger] matches_stop(p, stops[k], i)
}

pub open spec fn span_of(t: Token) -> SourceSpan {
    SourceSpan { start: t.start, end: t.end }
}

pub open spec fn diag(m: Seq<char>, span: SourceSpan) -> DiagV {
    DiagV { message: m, span }
}

/// `expect`: consume a token of kind `k`, or report `m` at the current token.
pub open spec fn expect(p: PCtx, k: TokenKind, m: Seq<char>, i: int) -> PRes<()> {
    if check(p, k, i) {
        PRes { v: (), i: i + 1, d: Seq::empty() }
    } else {
        let span = if 0 <= i < p.toks.len() {
            span_of(p.toks[i])
        } else {
            SourceSpan { start: 0, end: 0 }
        };
        PRes { v: (), i, d: seq![diag(m, span)] }
    }
}

pub open spec fn stop_kind(s: TokenStop) -> Option<TokenKind> {
    match s {
        TokenStop::RBracket => Some(TokenKind::RBracket),
        TokenStop::RParen => Some(TokenKind::RParen),
        TokenStop::RBrace => Some(TokenKind::RBrace),
        _ => None,
    }
}

pub open spec fn expect_stop(p: PCtx, s: TokenStop, m: Seq<char>, i: int) -> PRes<()> {
    match stop_kind(s) {
        Some(k) => expect(p, k, m, i),
        None => PRes { v: (), i, d: Seq::empty() },
    }
}

/// `Debug` rendering of a token kind, as diagnostics show it.
pub open spec fn kind_debug(p: PCtx, i: int) -> Seq<char> {
    match p.toks[i].kind {
        TokenKind::Word => "Word("@ + debug_text(tok_text(p, i)) + ")"@,
        TokenKind::Number => "Number("@ + debug_text(tok_text(p, i)) + ")"@,
        TokenKind::Colon => "Colon"@,
        TokenKind::Comma => "Comma"@,
        TokenKind::Plus => "Plus"@,
        TokenKind::Minus => "Minus"@,
        TokenKind::Dot => "Dot"@,
        TokenKind::Equals => "Equals"@,
        TokenKind::DoubleEquals => "DoubleEquals"@,
        TokenKind::Pipe => "Pipe"@,
        TokenKind::FatArrow => "FatArrow"@,
        TokenKind::LBracket => "LBracket"@,
        TokenKind::RBracket => "RBracket"@,
        TokenKind::LParen => "LParen"@,
        TokenKind::RParen => "RParen"@,
        TokenKind::LBrace => "LBrace"@,
        TokenKind::RBrace => "RBrace"@,
    }
}

pub open spec fn opt_comma(p: PCtx, i: int) -> int {
    if check(p, TokenKind::Comma, i) {
        i + 1
    } else {
        i
    }
}

pub open spec fn missing_at(i: int) -> PRes<ExprV> {
    PRes { v: ExprV::Missing, i, d: Seq::empty() }
}

// ----- expressions -----
pub open spec fn p_expr_until(p: PCtx, stops: Seq<TokenStop>, i: int) -> PRes<ExprV>
    decreases ntok(p) - i, 7int,
{
    if 0 <= i <= ntok(p) {
        let r = p_equality(p, stops, i);
        if i <= r.i <= ntok(p) {
            let l = p_pipe_loop(p, stops, r.v, r.i);
            PRes { v: l.v, i: l.i, d: r.d + l.d }
        } else {
            r
        }
    } else {
        missing_at(i)
    }
}

pub open spec fn p_pipe_loop(p: PCtx, stops: Seq<TokenStop>, acc: ExprV, i: int) -> PRes<ExprV>
    decreases ntok(p) - i, 6int,
{
    if 0 <= i < ntok(p) && !at_stop(p, stops, i) && check(p, TokenKind::Pipe, i) {
        let r = p_equality(p, stops, i + 1);
        if i + 1 <= r.i <= ntok(p) {
            let l = p_pipe_loop(p, stops, ExprV::Pipe(Box::new(acc), Box::new(r.v)), r.i);
            PRes { v: l.v, i: l.i, d: r.d + l.d }
        } else {
            r
        }
    } else {
        PRes { v: acc, i, d: Seq::empty() }
    }
}

pub open spec fn p_equality(p: PCtx, stops: Seq<TokenStop>, i: int) -> PRes<ExprV>
    decreases ntok(p) - i, 5int,
{
    if 0 <= i <= ntok(p) {
        let r = p_add(p, stops, i);
        if i <= r.i <= ntok(p) {
            let l = p_eq_loop(p, stops, r.v, r.i);
            PRes { v: l.v, i: l.i, d: r.d + l.d }
        } else {
            r
        }
    } else {
        missing_at(i)
    }
}

pub open spec fn p_eq_loop(p: PCtx, stops: Seq<TokenStop>, acc: ExprV, i: int) -> PRes<ExprV>
    decreases ntok(p) - i, 4int,
{
    if 0 <= i < ntok(p) && !at_stop(p, stops, i) && check(p, TokenKind::DoubleEquals, i) {
        let r = p_add(p, stops, i + 1);
        if i + 1 <= r.i <= ntok(p) {
            let l = p_eq_loop(
                p,
                stops,
                ExprV::Binary(BinaryOp::Equal, Box::new(acc), Box::new(r.v)),
                r.i,
            );
            PRes { v: l.v, i: l.i, d: r.d + l.d }
        } else {
            r
        }
    } else {
        PRes { v: acc, i, d: Seq::empty() }
    }
}

pub open spec fn p_add(p: PCtx, stops: Seq<TokenStop>, i: int) -> PRes<ExprV>
    decreases ntok(p) - i, 3int,
{
    if 0 <= i <= ntok(p) {
        let r = p_primary(p, stops, i);
        if i <= r.i <= ntok(p) {
            let l = p_add_loop(p, stops, r.v, r.i);
            PRes { v: l.v, i: l.i, d: r.d + l.d }
        } else {
            r
        }
    } else {
        missing_at(i)
    }
}

pub open spec fn p_add_loop(p: PCtx, stops: Seq<TokenStop>, acc: ExprV, i: int) -> PRes<ExprV>
    decreases ntok(p) - i, 2int,
{
    if 0 <= i < ntok(p) && !at_stop(p, stops, i) && (check(p, TokenKind::Plus, i) || check(
        p,
        TokenKind::Minus,
        i,
    )) {
        let op = if check(p, TokenKind::Plus, i) {
            BinaryOp::Add
        } else {
            BinaryOp::Subtract
        };
        let r = p_primary(p, stops, i + 1);
        if i + 1 <= r.i <= ntok(p) {
            let l = p_add_loop(p, stops, ExprV::Binary(op, Box::new(acc), Box::new(r.v)), r.i);
            PRes { v: l.v, i: l.i, d: r.d + l.d }
        } else {
            r
        }
    } else {
        PRes { v: acc, i, d: Seq::empty() }
    }
}

/// The expression that starts at the first token of a primary expression,
/// before any `.field` suffix. `i` is the position of that first token.
pub open spec fn p_head(p: PCtx, stops: Seq<TokenStop>, i: int) -> PRes<ExprV>
    decreases ntok(p) - i, 0int,
{
    if 0 <= i < ntok(p) {
        let tok = p.toks[i];
        let j = i + 1;
        match tok.kind {
            TokenKind::Number => PRes { v: ExprV::Number(tok_text(p, i)), i: j, d: Seq::empty() },
            TokenKind::Minus => if j < ntok(p) {
                if p.toks[j].kind == TokenKind::Number {
                    PRes {
                        v: ExprV::Number(seq!['-'] + tok_text(p, j)),
                        i: j + 1,
                        d: Seq::empty(),
                    }
                } else {
                    PRes {
                        v: ExprV::Missing,
                        i: j + 1,
                        d: seq![
                            diag(
                                "expected number after unary `-`, found "@ + kind_debug(p, j),
                                SourceSpan { start: tok.start, end: p.toks[j].end },
                            ),
                        ],
                    }
                }
            } else {
                PRes {
                    v: ExprV::Missing,
                    i: j,
                    d: seq![diag("expected number after unary `-`"@, span_of(tok))],
                }
            },
            TokenKind::Word => p_word(p, i, j),
            TokenKind::LBracket => {
                let r = p_record_fields(p, TokenStop::RBracket, j);
                PRes { v: ExprV::Record(r.v), i: r.i, d: r.d }
            },
            TokenKind::LParen => {
                let r = p_expr_until(p, seq![TokenStop::RParen], j);
                if j <= r.i <= ntok(p) {
                    let x = expect(p, TokenKind::RParen, "expected `)` after expression"@, r.i);
                    PRes { v: r.v, i: x.i, d: r.d + x.d }
                } else {
                    r
                }
            },
            _ => PRes {
                v: ExprV::Missing,
                i: j,
                d: seq![diag("expected expression, found "@ + kind_debug(p, i), span_of(tok))],
            },
        }
    } else {
        missing_at(i)
    }
}

/// `.field` suffixes after a primary expression; `first` is the position of
/// the primary's first token.
pub open spec fn p_dot_loop(
    p: PCtx,
    stops: Seq<TokenStop>,
    acc: ExprV,
    first: int,
    i: int,
) -> PRes<ExprV>
    decreases ntok(p) - i,
{
    if 0 <= i < ntok(p) && !at_stop(p, stops, i) && check(p, TokenKind::Dot, i) {
        if check(p, TokenKind::Word, i + 1) {
            p_dot_loop(
                p,
                stops,
                ExprV::FieldAccess(Box::new(acc), tok_text(p, i + 1)),
                first,
                i + 2,
            )
        } else {
            let end = if i + 1 < ntok(p) {
                p.toks[i + 1].end
            } else {
                p.toks[first].end
            };
            PRes {
                v: acc,
                i: i + 1,
                d: seq![
                    diag(
                        "expected field name after `.`"@,
                        SourceSpan { start: p.toks[i].start, end },
                    ),
                ],
            }
        }
    } else {
        PRes { v: acc, i, d: Seq::empty() }
    }
}

pub open spec fn p_primary(p: PCtx, stops: Seq<TokenStop>, i: int) -> PRes<ExprV>
    decreases ntok(p) - i, 1int,
{
    if 0 <= i < ntok(p) && !at_stop(p, stops, i) {
        let h = p_head(p, stops, i);
        if i < h.i <= ntok(p) {
            let l = p_dot_loop(p, stops, h.v, i, h.i);
            PRes { v: l.v, i: l.i, d: h.d + l.d }
        } else {
            h
        }
    } else {
        missing_at(i)
    }
}

pub open spec fn is_kw(p: PCtx, w: int, s: Seq<char>) -> bool {
    tok_text(p, w) == s
}

/// A word at position `w`; parsing goes on from `i`, the position after it.
pub open spec fn p_word(p: PCtx, w: int, i: int) -> PRes<ExprV>
    decreases ntok(p) - i, 10int,
{
    if 0 <= w < i <= ntok(p) {
        let lb = check(p, TokenKind::LBrace, i);
        let text = tok_text(p, w);
        if is_kw(p, w, "SOURCE"@) && lb {
            let r = p_braced(p, i + 1);
            PRes { v: ExprV::SourceAt(Box::new(r.v)), i: r.i, d: r.d }
        } else if is_kw(p, w, "SOURCE"@) {
            PRes { v: ExprV::Source, i, d: Seq::empty() }
        } else if is_kw(p, w, "LINK"@) && lb {
            let r = p_braced(p, i + 1);
            PRes { v: ExprV::Link(Some(Box::new(r.v))), i: r.i, d: r.d }
        } else if is_kw(p, w, "LINK"@) {
            PRes { v: ExprV::Link(None), i, d: Seq::empty() }
        } else if is_kw(p, w, "SKIP"@) {
            PRes { v: ExprV::Skip, i, d: Seq::empty() }
        } else if is_kw(p, w, "True"@) || is_kw(p, w, "False"@) {
            PRes { v: ExprV::Tag(text), i, d: Seq::empty() }
        } else if is_kw(p, w, "TEXT"@) && lb {
            let r = p_collect_text(p, w, i + 1);
            PRes { v: ExprV::Text(r.v), i: r.i, d: r.d }
        } else if is_kw(p, w, "LIST"@) && lb {
            let r = p_list(p, TokenStop::RBrace, i + 1);
            PRes { v: ExprV::List(r.v), i: r.i, d: r.d }
        } else if is_kw(p, w, "BLOCK"@) && lb {
            let r = p_list(p, TokenStop::RBrace, i + 1);
            PRes { v: ExprV::Block(r.v), i: r.i, d: r.d }
        } else if is_kw(p, w, "LATEST"@) && lb {
            let r = p_list(p, TokenStop::RBrace, i + 1);
            PRes { v: ExprV::Latest(r.v), i: r.i, d: r.d }
        } else if is_kw(p, w, "THEN"@) && lb {
            let r = p_list(p, TokenStop::RBrace, i + 1);
            PRes { v: ExprV::Then(r.v), i: r.i, d: r.d }
        } else if is_kw(p, w, "HOLD"@) {
            let has_binder = check(p, TokenKind::Word, i);
            let binder = if has_binder {
                tok_text(p, i)
            } else {
                "state"@
            };
            let k = if has_binder {
                i + 1
            } else {
                i
            };
            let d0: Seq<DiagV> = if has_binder {
                Seq::empty()
            } else {
                seq![diag("expected HOLD binder"@, span_of(p.toks[w]))]
            };
            let x = expect(p, TokenKind::LBrace, "expected `{` after HOLD binder"@, k);
            let r = p_list(p, TokenStop::RBrace, x.i);
            PRes { v: ExprV::Hold(binder, r.v), i: r.i, d: d0 + x.d + r.d }
        } else if is_kw(p, w, "WHEN"@) && lb {
            let r = p_arms(p, i + 1);
            PRes { v: ExprV::Match(MatchKind::When, r.v), i: r.i, d: r.d }
        } else if is_kw(p, w, "WHILE"@) && lb {
            let r = p_arms(p, i + 1);
            PRes { v: ExprV::Match(MatchKind::While, r.v), i: r.i, d: r.d }
        } else if check(p, TokenKind::LParen, i) {
            let r = p_args(p, i + 1);
            PRes { v: ExprV::Call(text, r.v), i: r.i, d: r.d }
        } else if check(p, TokenKind::LBracket, i) {
            let r = p_record_fields(p, TokenStop::RBracket, i + 1);
            PRes { v: ExprV::Constructor(text, r.v), i: r.i, d: r.d }
        } else {
            PRes { v: ExprV::Path(text), i, d: Seq::empty() }
        }
    } else {
        missing_at(i)
    }
}

pub open spec fn p_braced(p: PCtx, i: int) -> PRes<ExprV>
    decreases ntok(p) - i, 8int,
{
    if 0 <= i <= ntok(p) {
        let r = p_expr_until(p, seq![TokenStop::RBrace], i);
        if i <= r.i <= ntok(p) {
            let x = expect(p, TokenKind::RBrace, "expected `}` after expression"@, r.i);
            PRes { v: r.v, i: x.i, d: r.d + x.d }
        } else {
            r
        }
    } else {
        missing_at(i)
    }
}

// ----- record fields -----
pub open spec fn p_fields_loop(p: PCtx, end: TokenStop, acc: Seq<FieldV>, i: int) -> PRes<
    Seq<FieldV>,
>
    decreases ntok(p) - i, 8int,
{
    if 0 <= i < ntok(p) && !at_stop(p, seq![end], i) {
        if check(p, TokenKind::Comma, i) {
            p_fields_loop(p, end, acc, i + 1)
        } else if check(p, TokenKind::Word, i) {
            let name = tok_text(p, i);
            let x = expect(p, TokenKind::Colon, "expected `:` after record field name"@, i + 1);
            let r = p_expr_until(p, seq![end, TokenStop::Comma, TokenStop::FieldStart], x.i);
            if x.i <= r.i <= ntok(p) {
                let m = opt_comma(p, r.i);
                let l = p_fields_loop(p, end, acc.push(FieldV { name, value: r.v }), m);
                PRes { v: l.v, i: l.i, d: x.d + r.d + l.d }
            } else {
                PRes { v: acc, i: r.i, d: x.d + r.d }
            }
        } else {
            let l = p_fields_loop(p, end, acc, i + 1);
            PRes {
                v: l.v,
                i: l.i,
                d: seq![diag("expected record field name"@, span_of(p.toks[i]))] + l.d,
            }
        }
    } else {
        PRes { v: acc, i, d: Seq::empty() }
    }
}

pub open spec fn p_record_fields(p: PCtx, end: TokenStop, i: int) -> PRes<Seq<FieldV>>
    decreases ntok(p) - i, 9int,
{
    if 0 <= i <= ntok(p) {
        let l = p_fields_loop(p, end, Seq::empty(), i);
        let x = expect_stop(p, end, "expected record closing delimiter"@, l.i);
        PRes { v: l.v, i: x.i, d: l.d + x.d }
    } else {
        PRes { v: Seq::empty(), i, d: Seq::empty() }
    }
}

// ----- call arguments -----
pub open spec fn p_args_loop(p: PCtx, acc: Seq<ArgV>, i: int) -> PRes<Seq<ArgV>>
    decreases ntok(p) - i, 8int,
{
    if 0 <= i < ntok(p) && !at_stop(p, seq![TokenStop::RParen], i) {
        if check(p, TokenKind::Comma, i) {
            p_args_loop(p, acc, i + 1)
        } else if check(p, TokenKind::Word, i) && check(p, TokenKind::Colon, i + 1) {
            let name = tok_text(p, i);
            let x = expect(p, TokenKind::Colon, "expected `:` after argument name"@, i + 1);
            let r = p_expr_until(
                p,
                seq![TokenStop::RParen, TokenStop::Comma, TokenStop::FieldStart],
                x.i,
            );
            if x.i <= r.i <= ntok(p) {
                let m = opt_comma(p, r.i);
                let l = p_args_loop(p, acc.push(ArgV::Named(name, r.v)), m);
                PRes { v: l.v, i: l.i, d: x.d + r.d + l.d }
            } else {
                PRes { v: acc, i: r.i, d: x.d + r.d }
            }
        } else {
            let r = p_expr_until(p, seq![TokenStop::RParen, TokenStop::Comma], i);
            if i < r.i <= ntok(p) {
                let m = opt_comma(p, r.i);
                let l = p_args_loop(p, acc.push(ArgV::Positional(r.v)), m);
                PRes { v: l.v, i: l.i, d: r.d + l.d }
            } else {
                PRes { v: acc, i: r.i, d: r.d }
            }
        }
    } else {
        PRes { v: acc, i, d: Seq::empty() }
    }
}

pub open spec fn p_args(p: PCtx, i: int) -> PRes<Seq<ArgV>>
    decreases ntok(p) - i, 9int,
{
    if 0 <= i <= ntok(p) {
        let l = p_args_loop(p, Seq::empty(), i);
        let x = expect(p, TokenKind::RParen, "expected `)` after call arguments"@, l.i);
        PRes { v: l.v, i: x.i, d: l.d + x.d }
    } else {
        PRes { v: Seq::empty(), i, d: Seq::empty() }
    }
}

// ----- expression lists -----
pub open spec fn p_list_loop(p: PCtx, end: TokenStop, acc: Seq<ExprV>, i: int) -> PRes<
    Seq<ExprV>,
>
    decreases ntok(p) - i, 8int,
{
    if 0 <= i < ntok(p) && !at_stop(p, seq![end], i) {
        if check(p, TokenKind::Comma, i) {
            p_list_loop(p, end, acc, i + 1)
        } else {
            let r = p_expr_until(p, seq![end, TokenStop::Comma], i);
            if i < r.i <= ntok(p) {
                let m = opt_comma(p, r.i);
                let l = p_list_loop(p, end, acc.push(r.v), m);
                PRes { v: l.v, i: l.i, d: r.d + l.d }
            } else {
                PRes { v: acc, i: r.i, d: r.d }
            }
        }
    } else {
        PRes { v: acc, i, d: Seq::empty() }
    }
}

pub open spec fn p_list(p: PCtx, end: TokenStop, i: int) -> PRes<Seq<ExprV>>
    decreases ntok(p) - i, 9int,
{
    if 0 <= i <= ntok(p) {
        let l = p_list_loop(p, end, Seq::empty(), i);
        let x = expect_stop(p, end, "expected closing delimiter"@, l.i);
        PRes { v: l.v, i: x.i, d: l.d + x.d }
    } else {
        PRes { v: Seq::empty(), i, d: Seq::empty() }
    }
}

// ----- match arms -----
pub open spec fn p_arms_loop(p: PCtx, acc: Seq<ArmV>, i: int) -> PRes<Seq<ArmV>>
    decreases ntok(p) - i, 8int,
{
    if 0 <= i < ntok(p) && !at_stop(p, seq![TokenStop::RBrace], i) {
        if check(p, TokenKind::Word, i) {
            let pattern = tok_text(p, i);
            let x = expect(p, TokenKind::FatArrow, "expected `=>` after match pattern"@, i + 1);
            let r = p_expr_until(p, seq![TokenStop::RBrace, TokenStop::ArmStart], x.i);
            if x.i <= r.i <= ntok(p) {
                let l = p_arms_loop(p, acc.push(ArmV { pattern, value: r.v }), r.i);
                PRes { v: l.v, i: l.i, d: x.d + r.d + l.d }
            } else {
                PRes { v: acc, i: r.i, d: x.d + r.d }
            }
        } else {
            let l = p_arms_loop(p, acc, i + 1);
            PRes {
                v: l.v,
                i: l.i,
                d: seq![diag("expected match pattern"@, span_of(p.toks[i]))] + l.d,
            }
        }
    } else {
        PRes { v: acc, i, d: Seq::empty() }
    }
}

pub open spec fn p_arms(p: PCtx, i: int) -> PRes<Seq<ArmV>>
    decreases ntok(p) - i, 9int,
{
    if 0 <= i <= ntok(p) {
        let l = p_arms_loop(p, Seq::empty(), i);
        let x = expect(p, TokenKind::RBrace, "expected `}` after match arms"@, l.i);
        PRes { v: l.v, i: x.i, d: l.d + x.d }
    } else {
        PRes { v: Seq::empty(), i, d: Seq::empty() }
    }
}

// ----- TEXT literals -----
/// Scanning a TEXT body: the position after the scan, the brace depth left
/// open, and the character position where the content ends.
pub struct TextScan {
    pub i: int,
    pub depth: int,
    pub content_end: int,
}

pub open spec fn text_scan(p: PCtx, i: int, depth: int, content_end: int) -> TextScan
    decreases ntok(p) - i,
{
    if 0 <= i < ntok(p) {
        let tok = p.toks[i];
        if tok.kind == TokenKind::LBrace {
            text_scan(p, i + 1, depth + 1, tok.ce as int)
        } else if tok.kind == TokenKind::RBrace {
            if depth - 1 == 0 {
                TextScan { i: i + 1, depth: 0, content_end: tok.cs as int }
            } else {
                text_scan(p, i + 1, depth - 1, tok.ce as int)
            }
        } else {
            text_scan(p, i + 1, depth, tok.ce as int)
        }
    } else {
        TextScan { i, depth, content_end }
    }
}

/// A text with one leading and one trailing space removed when both are there.
pub open spec fn strip_spaces(s: Seq<char>) -> Seq<char> {
    if s.len() >= 2 && s[0] == ' ' && s[s.len() - 1] == ' ' {
        s.subrange(1, s.len() - 1)
    } else {
        s
    }
}

pub open spec fn src_range(p: PCtx, a: int, b: int) -> Seq<char> {
    if 0 <= a <= b <= p.src.len() {
        p.src.subrange(a, b)
    } else {
        Seq::empty()
    }
}

/// The body of `TEXT { ... }`; `w` is the TEXT word, `i` the position after the `{`.
pub open spec fn p_collect_text(p: PCtx, w: int, i: int) -> PRes<Seq<char>> {
    let open = p.toks[i - 1];
    let sc = text_scan(p, i, 1, open.ce as int);
    let d = if sc.depth != 0 {
        seq![diag("unterminated TEXT literal"@, span_of(p.toks[w]))]
    } else {
        Seq::empty()
    };
    PRes { v: strip_spaces(src_range(p, open.ce as int, sc.content_end)), i: sc.i, d }
}

} // verus!

verus! {

/// The parser's state: the tokens of one expression text, the position of the
/// next token, and the diagnostics reported so far.
pub struct Parser {
    pub source: Vec<char>,
    pub tokens: Vec<Token>,
    pub index: usize,
    pub diagnostics: Vec<SyntaxDiagnostic>,
}

pub open spec fn ctx(s: &Parser) -> PCtx {
    PCtx { toks: s.tokens@, src: s.source@ }
}

pub open spec fn pwf(s: &Parser) -> bool {
    &&& tokens_wf(s.tokens@, s.source@.len() as int)
    &&& s.index <= s.tokens@.len()
    &&& s.tokens@.len() < usize::MAX
}

pub open spec fn same_input(a: &Parser, b: &Parser) -> bool {
    a.tokens@ == b.tokens@ && a.source@ == b.source@
}

/// The new state is the old one advanced as `r` says.
pub open spec fn outcome<T>(a: &Parser, b: &Parser, r: PRes<T>) -> bool {
    &&& same_input(a, b)
    &&& pwf(b)
    &&& b.index == r.i
    &&& dvs(b.diagnostics@) == dvs(a.diagnostics@) + r.d
}

proof fn lemma_dvs_assoc(a: Seq<DiagV>, b: Seq<DiagV>, c: Seq<DiagV>)
    ensures
        (a + b) + c == a + (b + c),
{
    assert((a + b) + c =~= a + (b + c));
}

pub proof fn lemma_dvs_assoc_pub(a: Seq<DiagV>, b: Seq<DiagV>, c: Seq<DiagV>)
    ensures
        (a + b) + c == a + (b + c),
{
    assert((a + b) + c =~= a + (b + c));
}

proof fn lemma_empty_right(a: Seq<DiagV>)
    ensures
        a + Seq::<DiagV>::empty() == a,
{
    assert(a + Seq::<DiagV>::empty() =~= a);
}

impl Parser {
    fn is_at_end(&self) -> (r: bool)
        ensures
            r == (self.index >= self.tokens@.len()),
    {
        self.index >= self.tokens.len()
    }

    fn check_at(&self, k: TokenKind, i: usize) -> (r: bool)
        ensures
            r == check(ctx(self), k, i as int),
    {
        i < self.tokens.len() && self.tokens[i].kind == k
    }

    fn check(&self, k: TokenKind) -> (r: bool)
        ensures
            r == check(ctx(self), k, self.index as int),
    {
        self.check_at(k, self.index)
    }

    fn matches_stop(&self, s: TokenStop) -> (r: bool)
        requires
            pwf(self),
        ensures
            r == matches_stop(ctx(self), s, self.index as int),
    {
        match s {
            TokenStop::RBracket => self.check(TokenKind::RBracket),
            TokenStop::RParen => self.check(TokenKind::RParen),
            TokenStop::RBrace => self.check(TokenKind::RBrace),
            TokenStop::Comma => self.check(TokenKind::Comma),
            TokenStop::FieldStart => self.check(TokenKind::Word) && self.check_at(
                TokenKind::Colon,
                self.index + 1,
            ),
            TokenStop::ArmStart => self.check(TokenKind::Word) && self.check_at(
                TokenKind::FatArrow,
                self.index + 1,
            ),
        }
    }

    fn at_stop(&self, stops: &[TokenStop]) -> (r: bool)
        requires
            pwf(self),
        ensures
            r == at_stop(ctx(self), stops@, self.index as int),
    {
        let mut k: usize = 0;
        while k < stops.len()
            invariant
                pwf(self),
                0 <= k <= stops@.len(),
                forall|j: int| 0 <= j < k ==> !matches_stop(ctx(self), #[trigger] stops@[j], self.index as int),
            decreases stops.len() - k,
        {
            if self.matches_stop(stops[k]) {
                return true;
            }
            k = k + 1;
        }
        false
    }

    /// The characters of token `i` as a string.
    fn token_text(&self, i: usize) -> (r: String)
        requires
            pwf(self),
            i < self.tokens@.len(),
        ensures
            r@ == tok_text(ctx(self), i as int),
    {
        let t = self.tokens[i];
        assert(t == self.tokens@[i as int]);
        string_of_range(self.source.as_slice(), t.cs, t.ce)
    }

    fn word_is(&self, i: usize, lit: &str) -> (r: bool)
        requires
            pwf(self),
            i < self.tokens@.len(),
        ensures
            r == is_kw(ctx(self), i as int, lit@),
    {
        let t = self.tokens[i];
        assert(t == self.tokens@[i as int]);
        range_eq_str(self.source.as_slice(), t.cs, t.ce, lit)
    }

    fn kind_debug(&self, i: usize) -> (r: String)
        requires
            pwf(self),
            i < self.tokens@.len(),
        ensures
            r@ == kind_debug(ctx(self), i as int),
    {
        match self.tokens[i].kind {
            TokenKind::Word => {
                let text = self.token_text(i);
                let mut s = "Word(".to_owned();
                let d = debug_str(text.as_str());
                push_str(&mut s, d.as_str());
                push_str(&mut s, ")");
                s
            },
            TokenKind::Number => {
                let text = self.token_text(i);
                let mut s = "Number(".to_owned();
                let d = debug_str(text.as_str());
                push_str(&mut s, d.as_str());
                push_str(&mut s, ")");
                s
            },
            TokenKind::Colon => "Colon".to_owned(),
            TokenKind::Comma => "Comma".to_owned(),
            TokenKind::Plus => "Plus".to_owned(),
            TokenKind::Minus => "Minus".to_owned(),
            TokenKind::Dot => "Dot".to_owned(),
            TokenKind::Equals => "Equals".to_owned(),
            TokenKind::DoubleEquals => "DoubleEquals".to_owned(),
            TokenKind::Pipe => "Pipe".to_owned(),
            TokenKind::FatArrow => "FatArrow".to_owned(),
            TokenKind::LBracket => "LBracket".to_owned(),
            TokenKind::RBracket => "RBracket".to_owned(),
            TokenKind::LParen => "LParen".to_owned(),
            TokenKind::RParen => "RParen".to_owned(),
            TokenKind::LBrace => "LBrace".to_owned(),
            TokenKind::RBrace => "RBrace".to_owned(),
        }
    }

    fn report(&mut self, message: String, span: SourceSpan)
        ensures
            same_input(old(self), final(self)),
            final(self).index == old(self).index,
            dvs(final(self).diagnostics@) == dvs(old(self).diagnostics@) + seq![
                diag(message@, span),
            ],
    {
        let d = SyntaxDiagnostic { message, span };
        proof {
            lemma_dvs_push(self.diagnostics@, d);
            assert(dvs(self.diagnostics@).push(dv(d)) =~= dvs(self.diagnostics@) + seq![
                diag(d.message@, span),
            ]);
        }
        self.diagnostics.push(d);
    }

    fn expect(&mut self, k: TokenKind, message: &str)
        requires
            pwf(old(self)),
        ensures
            outcome(old(self), final(self), expect(ctx(old(self)), k, message@, old(self).index as int)),
    {
        if self.check(k) {
            self.index = self.index + 1;
            proof {
                lemma_empty_right(dvs(self.diagnostics@));
            }
            return ;
        }
        let span = if self.index < self.tokens.len() {
            let t = self.tokens[self.index];
            SourceSpan { start: t.start, end: t.end }
        } else {
            SourceSpan { start: 0, end: 0 }
        };
        self.report(message.to_owned(), span);
    }

    fn expect_stop(&mut self, s: TokenStop, message: &str)
        requires
            pwf(old(self)),
        ensures
            outcome(
                old(self),
                final(self),
                expect_stop(ctx(old(self)), s, message@, old(self).index as int),
            ),
    {
        match s {
            TokenStop::RBracket => self.expect(TokenKind::RBracket, message),
            TokenStop::RParen => self.expect(TokenKind::RParen, message),
            TokenStop::RBrace => self.expect(TokenKind::RBrace, message),
            _ => {
                proof {
                    lemma_empty_right(dvs(self.diagnostics@));
                }
            },
        }
    }
}

} // verus!

verus! {

proof fn lemma_at_stop_one(p: PCtx, a: TokenStop, i: int)
    ensures
        at_stop(p, seq![a], i) == matches_stop(p, a, i),
{
    if matches_stop(p, a, i) {
        assert(matches_stop(p, seq![a][0], i));
    }
}

proof fn lemma_at_stop_two(p: PCtx, a: TokenStop, b: TokenStop, i: int)
    ensures
        at_stop(p, seq![a, b], i) == (matches_stop(p, a, i) || matches_stop(p, b, i)),
{
    let s = seq![a, b];
    if matches_stop(p, a, i) {
        assert(matches_stop(p, s[0], i));
    }
    if matches_stop(p, b, i) {
        assert(matches_stop(p, s[1], i));
    }
}

impl Parser {
    fn parse_expr_until(&mut self, stops: &[TokenStop]) -> (e: Expr)
        requires
            pwf(old(self)),
        ensures
            outcome(
                old(self),
                final(self),
                p_expr_until(ctx(old(self)), stops@, old(self).index as int),
            ),
            e@ == p_expr_until(ctx(old(self)), stops@, old(self).index as int).v,
            old(self).index <= final(self).index,
            old(self).index < old(self).tokens@.len() && !at_stop(
                ctx(old(self)),
                stops@,
                old(self).index as int,
            ) ==> old(self).index < final(self).index,
        decreases old(self).tokens@.len() - old(self).index, 7int,
    {
        let ghost p = ctx(self);
        let ghost i0 = self.index as int;
        let ghost d0 = dvs(self.diagnostics@);
        let first = self.parse_equality(stops);
        let ghost r = p_equality(p, stops@, i0);
        let ghost target = p_pipe_loop(p, stops@, r.v, r.i);
        let mut expr = first;
        while !self.is_at_end() && !self.at_stop(stops) && self.check(TokenKind::Pipe)
            invariant
                pwf(self),
                ctx(self) == p,
                p == ctx(old(self)),
                i0 == old(self).index as int,
                i0 <= r.i <= self.index,
                p_pipe_loop(p, stops@, expr@, self.index as int).v == target.v,
                p_pipe_loop(p, stops@, expr@, self.index as int).i == target.i,
                dvs(self.diagnostics@) + p_pipe_loop(p, stops@, expr@, self.index as int).d == d0
                    + r.d + target.d,
            decreases p.toks.len() - self.index,
        {
            let ghost li = self.index as int;
            let ghost acc = expr@;
            let ghost dl = dvs(self.diagnostics@);
            self.index = self.index + 1;
            let stage = self.parse_equality(stops);
            let ghost r2 = p_equality(p, stops@, li + 1);
            expr = Expr::Pipe { input: Box::new(expr), stage: Box::new(stage) };
            proof {
                let l = p_pipe_loop(p, stops@, expr@, self.index as int);
                assert(p_pipe_loop(p, stops@, acc, li) == PRes { v: l.v, i: l.i, d: r2.d + l.d });
                lemma_dvs_assoc(dl, r2.d, l.d);
            }
        }
        proof {
            lemma_empty_right(dvs(self.diagnostics@));
            lemma_dvs_assoc(d0, r.d, target.d);
        }
        expr
    }

    fn parse_equality(&mut self, stops: &[TokenStop]) -> (e: Expr)
        requires
            pwf(old(self)),
        ensures
            outcome(
                old(self),
                final(self),
                p_equality(ctx(old(self)), stops@, old(self).index as int),
            ),
            e@ == p_equality(ctx(old(self)), stops@, old(self).index as int).v,
            old(self).index <= final(self).index,
            old(self).index < old(self).tokens@.len() && !at_stop(
                ctx(old(self)),
                stops@,
                old(self).index as int,
            ) ==> old(self).index < final(self).index,
        decreases old(self).tokens@.len() - old(self).index, 5int,
    {
        let ghost p = ctx(self);
        let ghost i0 = self.index as int;
        let ghost d0 = dvs(self.diagnostics@);
        let first = self.parse_add(stops);
        let ghost r = p_add(p, stops@, i0);
        let ghost target = p_eq_loop(p, stops@, r.v, r.i);
        let mut expr = first;
        while !self.is_at_end() && !self.at_stop(stops) && self.check(TokenKind::DoubleEquals)
            invariant
                pwf(self),
                ctx(self) == p,
                p == ctx(old(self)),
                i0 == old(self).index as int,
                i0 <= r.i <= self.index,
                p_eq_loop(p, stops@, expr@, self.index as int).v == target.v,
                p_eq_loop(p, stops@, expr@, self.index as int).i == target.i,
                dvs(self.diagnostics@) + p_eq_loop(p, stops@, expr@, self.index as int).d == d0
                    + r.d + target.d,
            decreases p.toks.len() - self.index,
        {
            let ghost li = self.index as int;
            let ghost acc = expr@;
            let ghost dl = dvs(self.diagnostics@);
            self.index = self.index + 1;
            let right = self.parse_add(stops);
            let ghost r2 = p_add(p, stops@, li + 1);
            expr = Expr::Binary { op: BinaryOp::Equal, left: Box::new(expr), right: Box::new(right) };
            proof {
                let l = p_eq_loop(p, stops@, expr@, self.index as int);
                assert(p_eq_loop(p, stops@, acc, li) == PRes { v: l.v, i: l.i, d: r2.d + l.d });
                lemma_dvs_assoc(dl, r2.d, l.d);
            }
        }
        proof {
            lemma_empty_right(dvs(self.diagnostics@));
            lemma_dvs_assoc(d0, r.d, target.d);
        }
        expr
    }

    fn parse_add(&mut self, stops: &[TokenStop]) -> (e: Expr)
        requires
            pwf(old(self)),
        ensures
            outcome(old(self), final(self), p_add(ctx(old(self)), stops@, old(self).index as int)),
            e@ == p_add(ctx(old(self)), stops@, old(self).index as int).v,
            old(self).index <= final(self).index,
            old(self).index < old(self).tokens@.len() && !at_stop(
                ctx(old(self)),
                stops@,
                old(self).index as int,
            ) ==> old(self).index < final(self).index,
        decreases old(self).tokens@.len() - old(self).index, 3int,
    {
        let ghost p = ctx(self);
        let ghost i0 = self.index as int;
        let ghost d0 = dvs(self.diagnostics@);
        let first = self.parse_primary(stops);
        let ghost r = p_primary(p, stops@, i0);
        let ghost target = p_add_loop(p, stops@, r.v, r.i);
        let mut expr = first;
        while !self.is_at_end() && !self.at_stop(stops) && (self.check(TokenKind::Plus)
            || self.check(TokenKind::Minus))
            invariant
                pwf(self),
                ctx(self) == p,
                p == ctx(old(self)),
                i0 == old(self).index as int,
                i0 <= r.i <= self.index,
                p_add_loop(p, stops@, expr@, self.index as int).v == target.v,
                p_add_loop(p, stops@, expr@, self.index as int).i == target.i,
                dvs(self.diagnostics@) + p_add_loop(p, stops@, expr@, self.index as int).d == d0
                    + r.d + target.d,
            decreases p.toks.len() - self.index,
        {
            let ghost li = self.index as int;
            let ghost acc = expr@;
            let ghost dl = dvs(self.diagnostics@);
            let op = if self.check(TokenKind::Plus) {
                BinaryOp::Add
            } else {
                BinaryOp::Subtract
            };
            self.index = self.index + 1;
            let right = self.parse_primary(stops);
            let ghost r2 = p_primary(p, stops@, li + 1);
            expr = Expr::Binary { op, left: Box::new(expr), right: Box::new(right) };
            proof {
                let l = p_add_loop(p, stops@, expr@, self.index as int);
                assert(p_add_loop(p, stops@, acc, li) == PRes { v: l.v, i: l.i, d: r2.d + l.d });
                lemma_dvs_assoc(dl, r2.d, l.d);
            }
        }
        proof {
            lemma_empty_right(dvs(self.diagnostics@));
            lemma_dvs_assoc(d0, r.d, target.d);
        }
        expr
    }

    fn parse_primary(&mut self, stops: &[TokenStop]) -> (e: Expr)
        requires
            pwf(old(self)),
        ensures
            outcome(
                old(self),
                final(self),
                p_primary(ctx(old(self)), stops@, old(self).index as int),
            ),
            e@ == p_primary(ctx(old(self)), stops@, old(self).index as int).v,
            old(self).index <= final(self).index,
            old(self).index < old(self).tokens@.len() && !at_stop(
                ctx(old(self)),
                stops@,
                old(self).index as int,
            ) ==> old(self).index < final(self).index,
        decreases old(self).tokens@.len() - old(self).index, 1int,
    {
        let ghost p = ctx(self);
        let ghost i0 = self.index as int;
        let ghost d0 = dvs(self.diagnostics@);
        if self.is_at_end() || self.at_stop(stops) {
            proof {
                lemma_empty_right(d0);
            }
            return Expr::Missing;
        }
        let first = self.index;
        let head = self.parse_head(stops);
        let ghost h = p_head(p, stops@, i0);
        let ghost target = p_dot_loop(p, stops@, h.v, i0, h.i);
        let mut expr = head;
        let mut done = false;
        while !done && !self.is_at_end() && !self.at_stop(stops) && self.check(TokenKind::Dot)
            invariant
                pwf(self),
                ctx(self) == p,
                p == ctx(old(self)),
                i0 == old(self).index as int,
                first == i0,
                0 <= i0 < p.toks.len(),
                h.i <= self.index,
                !done ==> p_dot_loop(p, stops@, expr@, i0, self.index as int).v == target.v,
                !done ==> p_dot_loop(p, stops@, expr@, i0, self.index as int).i == target.i,
                !done ==> dvs(self.diagnostics@) + p_dot_loop(
                    p,
                    stops@,
                    expr@,
                    i0,
                    self.index as int,
                ).d == d0 + h.d + target.d,
                done ==> expr@ == target.v && self.index == target.i && dvs(self.diagnostics@)
                    == d0 + h.d + target.d,
            decreases p.toks.len() - self.index, if done {
                0int
            } else {
                1int
            },
        {
            let ghost li = self.index as int;
            let ghost acc = expr@;
            let ghost dl = dvs(self.diagnostics@);
            let dot_index = self.index;
            self.index = self.index + 1;
            if self.check(TokenKind::Word) {
                let field = self.token_text(self.index);
                self.index = self.index + 1;
                expr = Expr::FieldAccess { base: Box::new(expr), field };
            } else {
                let dot = self.tokens[dot_index];
                let end = if self.index < self.tokens.len() {
                    self.tokens[self.index].end
                } else {
                    self.tokens[first].end
                };
                self.report(
                    "expected field name after `.`".to_owned(),
                    SourceSpan { start: dot.start, end },
                );
                done = true;
                proof {
                    lemma_dvs_assoc(d0, h.d, target.d);
                }
            }
        }
        proof {
            if !done {
                lemma_empty_right(dvs(self.diagnostics@));
            }
            lemma_dvs_assoc(d0, h.d, target.d);
        }
        expr
    }

    fn parse_head(&mut self, stops: &[TokenStop]) -> (e: Expr)
        requires
            pwf(old(self)),
            old(self).index < old(self).tokens@.len(),
        ensures
            outcome(old(self), final(self), p_head(ctx(old(self)), stops@, old(self).index as int)),
            e@ == p_head(ctx(old(self)), stops@, old(self).index as int).v,
            old(self).index < final(self).index,
        decreases old(self).tokens@.len() - old(self).index, 0int,
    {
        let ghost p = ctx(self);
        let ghost d0 = dvs(self.diagnostics@);
        let i = self.index;
        let tok = self.tokens[i];
        self.index = self.index + 1;
        match tok.kind {
            TokenKind::Number => {
                proof {
                    lemma_empty_right(d0);
                }
                Expr::Number(self.token_text(i))
            },
            TokenKind::Minus => {
                if self.index < self.tokens.len() {
                    let next = self.tokens[self.index];
                    if next.kind == TokenKind::Number {
                        let t = self.token_text(self.index);
                        self.index = self.index + 1;
                        let mut s = String::new();
                        push_char(&mut s, '-');
                        push_str(&mut s, t.as_str());
                        proof {
                            assert(s@ =~= seq!['-'] + t@);
                            lemma_empty_right(d0);
                        }
                        Expr::Number(s)
                    } else {
                        let mut m = "expected number after unary `-`, found ".to_owned();
                        let kd = self.kind_debug(self.index);
                        push_str(&mut m, kd.as_str());
                        self.index = self.index + 1;
                        self.report(m, SourceSpan { start: tok.start, end: next.end });
                        Expr::Missing
                    }
                } else {
                    self.report(
                        "expected number after unary `-`".to_owned(),
                        SourceSpan { start: tok.start, end: tok.end },
                    );
                    Expr::Missing
                }
            },
            TokenKind::Word => self.parse_word(i),
            TokenKind::LBracket => {
                let fields = self.parse_record_fields(TokenStop::RBracket);
                Expr::Record(fields)
            },
            TokenKind::LParen => {
                let st = [TokenStop::RParen];
                assert(st@ == seq![TokenStop::RParen]);
                let e = self.parse_expr_until(&st);
                self.expect(TokenKind::RParen, "expected `)` after expression");
                proof {
                    lemma_dvs_assoc(
                        d0,
                        p_expr_until(p, seq![TokenStop::RParen], i + 1).d,
                        expect(
                            p,
                            TokenKind::RParen,
                            "expected `)` after expression"@,
                            p_expr_until(p, seq![TokenStop::RParen], i + 1).i,
                        ).d,
                    );
                }
                e
            },
            _ => {
                let mut m = "expected expression, found ".to_owned();
                let kd = self.kind_debug(i);
                push_str(&mut m, kd.as_str());
                self.report(m, SourceSpan { start: tok.start, end: tok.end });
                Expr::Missing
            },
        }
    }
}

} // verus!

verus! {

impl Parser {
    /// A word token at `w`; the parser stands just after it.
    #[verifier::rlimit(60)]
    fn parse_word(&mut self, w: usize) -> (e: Expr)
        requires
            pwf(old(self)),
            w < old(self).index,
        ensures
            outcome(old(self), final(self), p_word(ctx(old(self)), w as int, old(self).index as int)),
            e@ == p_word(ctx(old(self)), w as int, old(self).index as int).v,
            old(self).index <= final(self).index,
        decreases old(self).tokens@.len() - old(self).index, 10int,
    {
        let ghost p = ctx(self);
        let ghost i0 = self.index as int;
        let ghost d0 = dvs(self.diagnostics@);
        let lb = self.check(TokenKind::LBrace);
        if self.word_is(w, "SOURCE") && lb {
            self.index = self.index + 1;
            let e = self.parse_braced();
            Expr::SourceAt { target: Box::new(e) }
        } else if self.word_is(w, "SOURCE") {
            proof {
                lemma_empty_right(d0);
            }
            Expr::Source
        } else if self.word_is(w, "LINK") && lb {
            self.index = self.index + 1;
            let e = self.parse_braced();
            Expr::Link { target: Some(Box::new(e)) }
        } else if self.word_is(w, "LINK") {
            proof {
                lemma_empty_right(d0);
            }
            Expr::Link { target: None }
        } else if self.word_is(w, "SKIP") {
            proof {
                lemma_empty_right(d0);
            }
            Expr::Skip
        } else if self.word_is(w, "True") || self.word_is(w, "False") {
            proof {
                lemma_empty_right(d0);
            }
            Expr::Tag(self.token_text(w))
        } else if self.word_is(w, "TEXT") && lb {
            self.index = self.index + 1;
            Expr::Text(self.collect_text(w))
        } else if self.word_is(w, "LIST") && lb {
            self.index = self.index + 1;
            Expr::List(self.parse_expr_list(TokenStop::RBrace))
        } else if self.word_is(w, "BLOCK") && lb {
            self.index = self.index + 1;
            Expr::Block(self.parse_expr_list(TokenStop::RBrace))
        } else if self.word_is(w, "LATEST") && lb {
            self.index = self.index + 1;
            Expr::Latest(self.parse_expr_list(TokenStop::RBrace))
        } else if self.word_is(w, "THEN") && lb {
            self.index = self.index + 1;
            Expr::Then { body: self.parse_expr_list(TokenStop::RBrace) }
        } else if self.word_is(w, "HOLD") {
            let binder = if self.check(TokenKind::Word) {
                let b = self.token_text(self.index);
                self.index = self.index + 1;
                b
            } else {
                let t = self.tokens[w];
                self.report(
                    "expected HOLD binder".to_owned(),
                    SourceSpan { start: t.start, end: t.end },
                );
                let mut s = "state".to_owned();
                s
            };
            let ghost d1 = dvs(self.diagnostics@);
            let ghost k = self.index as int;
            self.expect(TokenKind::LBrace, "expected `{` after HOLD binder");
            let ghost x = expect(p, TokenKind::LBrace, "expected `{` after HOLD binder"@, k);
            let body = self.parse_expr_list(TokenStop::RBrace);
            proof {
                let r = p_list(p, TokenStop::RBrace, x.i);
                let d_hb: Seq<DiagV> = if check(p, TokenKind::Word, i0) {
                    Seq::empty()
                } else {
                    seq![diag("expected HOLD binder"@, span_of(p.toks[w as int]))]
                };
                assert(d1 == d0 + d_hb);
                lemma_dvs_assoc(d0, d_hb, x.d);
                lemma_dvs_assoc(d0 + d_hb, x.d, r.d);
                lemma_dvs_assoc(d0, d_hb + x.d, r.d);
                lemma_dvs_assoc(d_hb, x.d, r.d);
            }
            Expr::Hold { binder, body }
        } else if self.word_is(w, "WHEN") && lb {
            self.index = self.index + 1;
            Expr::Match { kind: MatchKind::When, arms: self.parse_match_arms() }
        } else if self.word_is(w, "WHILE") && lb {
            self.index = self.index + 1;
            Expr::Match { kind: MatchKind::While, arms: self.parse_match_arms() }
        } else if self.check(TokenKind::LParen) {
            self.index = self.index + 1;
            let callee = self.token_text(w);
            Expr::Call { callee, args: self.parse_call_args() }
        } else if self.check(TokenKind::LBracket) {
            self.index = self.index + 1;
            let callee = self.token_text(w);
            Expr::Constructor { callee, fields: self.parse_record_fields(TokenStop::RBracket) }
        } else {
            proof {
                lemma_empty_right(d0);
            }
            Expr::Path(self.token_text(w))
        }
    }

    fn parse_braced(&mut self) -> (e: Expr)
        requires
            pwf(old(self)),
        ensures
            outcome(old(self), final(self), p_braced(ctx(old(self)), old(self).index as int)),
            e@ == p_braced(ctx(old(self)), old(self).index as int).v,
            old(self).index <= final(self).index,
        decreases old(self).tokens@.len() - old(self).index, 8int,
    {
        let ghost p = ctx(self);
        let ghost i0 = self.index as int;
        let ghost d0 = dvs(self.diagnostics@);
        let st = [TokenStop::RBrace];
        assert(st@ == seq![TokenStop::RBrace]);
        let e = self.parse_expr_until(&st);
        let ghost r = p_expr_until(p, seq![TokenStop::RBrace], i0);
        self.expect(TokenKind::RBrace, "expected `}` after expression");
        proof {
            lemma_dvs_assoc(
                d0,
                r.d,
                expect(p, TokenKind::RBrace, "expected `}` after expression"@, r.i).d,
            );
        }
        e
    }

    fn parse_record_fields(&mut self, end: TokenStop) -> (fields: Vec<RecordField>)
        requires
            pwf(old(self)),
        ensures
            outcome(
                old(self),
                final(self),
                p_record_fields(ctx(old(self)), end, old(self).index as int),
            ),
            fvs(fields@) == p_record_fields(ctx(old(self)), end, old(self).index as int).v,
            old(self).index <= final(self).index,
        decreases old(self).tokens@.len() - old(self).index, 9int,
    {
        let ghost p = ctx(self);
        let ghost i0 = self.index as int;
        let ghost d0 = dvs(self.diagnostics@);
        let ghost target = p_fields_loop(p, end, Seq::empty(), i0);
        let mut fields: Vec<RecordField> = Vec::new();
        let ends = [end];
        assert(ends@ == seq![end]);
        let inner = [end, TokenStop::Comma, TokenStop::FieldStart];
        assert(inner@ == seq![end, TokenStop::Comma, TokenStop::FieldStart]);
        proof {
            assert(fvs(fields@) =~= Seq::<FieldV>::empty());
        }
        while !self.is_at_end() && !self.at_stop(&ends)
            invariant
                pwf(self),
                ctx(self) == p,
                p == ctx(old(self)),
                i0 == old(self).index as int,
                i0 <= self.index,
                ends@ == seq![end],
                inner@ == seq![end, TokenStop::Comma, TokenStop::FieldStart],
                p_fields_loop(p, end, fvs(fields@), self.index as int).v == target.v,
                p_fields_loop(p, end, fvs(fields@), self.index as int).i == target.i,
                dvs(self.diagnostics@) + p_fields_loop(p, end, fvs(fields@), self.index as int).d
                    == d0 + target.d,
            decreases p.toks.len() - self.index,
        {
            let ghost li = self.index as int;
            let ghost acc = fvs(fields@);
            let ghost dl = dvs(self.diagnostics@);
            if self.check(TokenKind::Comma) {
                self.index = self.index + 1;
                continue ;
            }
            if self.check(TokenKind::Word) {
                let name = self.token_text(self.index);
                self.index = self.index + 1;
                self.expect(TokenKind::Colon, "expected `:` after record field name");
                let ghost x = expect(
                    p,
                    TokenKind::Colon,
                    "expected `:` after record field name"@,
                    li + 1,
                );
                let value = self.parse_expr_until(&inner);
                let ghost r = p_expr_until(p, inner@, x.i);
                if self.check(TokenKind::Comma) {
                    self.index = self.index + 1;
                }
                let f = RecordField { name, value };
                proof {
                    lemma_fvs_push(fields@, f);
                }
                fields.push(f);
                proof {
                    let l = p_fields_loop(p, end, fvs(fields@), self.index as int);
                    assert(p_fields_loop(p, end, acc, li) == PRes {
                        v: l.v,
                        i: l.i,
                        d: x.d + r.d + l.d,
                    });
                    lemma_dvs_assoc(dl, x.d, r.d);
                    lemma_dvs_assoc(dl + x.d, r.d, l.d);
                    lemma_dvs_assoc(x.d, r.d, l.d);
                    lemma_dvs_assoc(dl, x.d + r.d, l.d);
                }
            } else {
                let t = self.tokens[self.index];
                self.index = self.index + 1;
                self.report(
                    "expected record field name".to_owned(),
                    SourceSpan { start: t.start, end: t.end },
                );
                proof {
                    let l = p_fields_loop(p, end, acc, self.index as int);
                    let dd = seq![diag("expected record field name"@, span_of(p.toks[li]))];
                    assert(p_fields_loop(p, end, acc, li) == PRes { v: l.v, i: l.i, d: dd + l.d });
                    lemma_dvs_assoc(dl, dd, l.d);
                }
            }
        }
        let ghost li = self.index as int;
        proof {
            lemma_empty_right(dvs(self.diagnostics@));
        }
        self.expect_stop(end, "expected record closing delimiter");
        proof {
            lemma_dvs_assoc(
                d0,
                target.d,
                expect_stop(p, end, "expected record closing delimiter"@, target.i).d,
            );
        }
        fields
    }

    fn parse_call_args(&mut self) -> (args: Vec<CallArg>)
        requires
            pwf(old(self)),
        ensures
            outcome(old(self), final(self), p_args(ctx(old(self)), old(self).index as int)),
            avs(args@) == p_args(ctx(old(self)), old(self).index as int).v,
            old(self).index <= final(self).index,
        decreases old(self).tokens@.len() - old(self).index, 9int,
    {
        let ghost p = ctx(self);
        let ghost i0 = self.index as int;
        let ghost d0 = dvs(self.diagnostics@);
        let ghost target = p_args_loop(p, Seq::empty(), i0);
        let mut args: Vec<CallArg> = Vec::new();
        let ends = [TokenStop::RParen];
        assert(ends@ == seq![TokenStop::RParen]);
        let named = [TokenStop::RParen, TokenStop::Comma, TokenStop::FieldStart];
        assert(named@ == seq![TokenStop::RParen, TokenStop::Comma, TokenStop::FieldStart]);
        let positional = [TokenStop::RParen, TokenStop::Comma];
        assert(positional@ == seq![TokenStop::RParen, TokenStop::Comma]);
        proof {
            assert(avs(args@) =~= Seq::<ArgV>::empty());
        }
        while !self.is_at_end() && !self.at_stop(&ends)
            invariant
                pwf(self),
                ctx(self) == p,
                p == ctx(old(self)),
                i0 == old(self).index as int,
                i0 <= self.index,
                ends@ == seq![TokenStop::RParen],
                named@ == seq![TokenStop::RParen, TokenStop::Comma, TokenStop::FieldStart],
                positional@ == seq![TokenStop::RParen, TokenStop::Comma],
                p_args_loop(p, avs(args@), self.index as int).v == target.v,
                p_args_loop(p, avs(args@), self.index as int).i == target.i,
                dvs(self.diagnostics@) + p_args_loop(p, avs(args@), self.index as int).d == d0
                    + target.d,
            decreases p.toks.len() - self.index,
        {
            let ghost li = self.index as int;
            let ghost acc = avs(args@);
            let ghost dl = dvs(self.diagnostics@);
            if self.check(TokenKind::Comma) {
                self.index = self.index + 1;
                continue ;
            }
            if self.check(TokenKind::Word) && self.check_at(TokenKind::Colon, self.index + 1) {
                let name = self.token_text(self.index);
                self.index = self.index + 1;
                self.expect(TokenKind::Colon, "expected `:` after argument name");
                let ghost x = expect(p, TokenKind::Colon, "expected `:` after argument name"@, li + 1);
                let value = self.parse_expr_until(&named);
                let ghost r = p_expr_until(p, named@, x.i);
                if self.check(TokenKind::Comma) {
                    self.index = self.index + 1;
                }
                let a = CallArg::Named { name, value };
                proof {
                    lemma_avs_push(args@, a);
                }
                args.push(a);
                proof {
                    let l = p_args_loop(p, avs(args@), self.index as int);
                    assert(p_args_loop(p, acc, li) == PRes { v: l.v, i: l.i, d: x.d + r.d + l.d });
                    lemma_dvs_assoc(dl, x.d, r.d);
                    lemma_dvs_assoc(dl + x.d, r.d, l.d);
                    lemma_dvs_assoc(x.d, r.d, l.d);
                    lemma_dvs_assoc(dl, x.d + r.d, l.d);
                }
            } else {
                proof {
                    lemma_at_stop_two(p, TokenStop::RParen, TokenStop::Comma, li);
                    lemma_at_stop_one(p, TokenStop::RParen, li);
                }
                let value = self.parse_expr_until(&positional);
                let ghost r = p_expr_until(p, positional@, li);
                if self.check(TokenKind::Comma) {
                    self.index = self.index + 1;
                }
                let a = CallArg::Positional(value);
                proof {
                    lemma_avs_push(args@, a);
                }
                args.push(a);
                proof {
                    let l = p_args_loop(p, avs(args@), self.index as int);
                    assert(p_args_loop(p, acc, li) == PRes { v: l.v, i: l.i, d: r.d + l.d });
                    lemma_dvs_assoc(dl, r.d, l.d);
                }
            }
        }
        proof {
            lemma_empty_right(dvs(self.diagnostics@));
        }
        self.expect(TokenKind::RParen, "expected `)` after call arguments");
        proof {
            lemma_dvs_assoc(
                d0,
                target.d,
                expect(p, TokenKind::RParen, "expected `)` after call arguments"@, target.i).d,
            );
        }
        args
    }

    fn parse_expr_list(&mut self, end: TokenStop) -> (values: Vec<Expr>)
        requires
            pwf(old(self)),
        ensures
            outcome(old(self), final(self), p_list(ctx(old(self)), end, old(self).index as int)),
            evs(values@) == p_list(ctx(old(self)), end, old(self).index as int).v,
            old(self).index <= final(self).index,
        decreases old(self).tokens@.len() - old(self).index, 9int,
    {
        let ghost p = ctx(self);
        let ghost i0 = self.index as int;
        let ghost d0 = dvs(self.diagnostics@);
        let ghost target = p_list_loop(p, end, Seq::empty(), i0);
        let mut values: Vec<Expr> = Vec::new();
        let ends = [end];
        assert(ends@ == seq![end]);
        let inner = [end, TokenStop::Comma];
        assert(inner@ == seq![end, TokenStop::Comma]);
        proof {
            assert(evs(values@) =~= Seq::<ExprV>::empty());
        }
        while !self.is_at_end() && !self.at_stop(&ends)
            invariant
                pwf(self),
                ctx(self) == p,
                p == ctx(old(self)),
                i0 == old(self).index as int,
                i0 <= self.index,
                ends@ == seq![end],
                inner@ == seq![end, TokenStop::Comma],
                p_list_loop(p, end, evs(values@), self.index as int).v == target.v,
                p_list_loop(p, end, evs(values@), self.index as int).i == target.i,
                dvs(self.diagnostics@) + p_list_loop(p, end, evs(values@), self.index as int).d
                    == d0 + target.d,
            decreases p.toks.len() - self.index,
        {
            let ghost li = self.index as int;
            let ghost acc = evs(values@);
            let ghost dl = dvs(self.diagnostics@);
            if self.check(TokenKind::Comma) {
                self.index = self.index + 1;
                continue ;
            }
            proof {
                lemma_at_stop_two(p, end, TokenStop::Comma, li);
                lemma_at_stop_one(p, end, li);
            }
            let value = self.parse_expr_until(&inner);
            let ghost r = p_expr_until(p, inner@, li);
            if self.check(TokenKind::Comma) {
                self.index = self.index + 1;
            }
            proof {
                lemma_evs_push(values@, value);
            }
            values.push(value);
            proof {
                let l = p_list_loop(p, end, evs(values@), self.index as int);
                assert(p_list_loop(p, end, acc, li) == PRes { v: l.v, i: l.i, d: r.d + l.d });
                lemma_dvs_assoc(dl, r.d, l.d);
            }
        }
        proof {
            lemma_empty_right(dvs(self.diagnostics@));
        }
        self.expect_stop(end, "expected closing delimiter");
        proof {
            lemma_dvs_assoc(
                d0,
                target.d,
                expect_stop(p, end, "expected closing delimiter"@, target.i).d,
            );
        }
        values
    }

    fn parse_match_arms(&mut self) -> (arms: Vec<MatchArm>)
        requires
            pwf(old(self)),
        ensures
            outcome(old(self), final(self), p_arms(ctx(old(self)), old(self).index as int)),
            mvs(arms@) == p_arms(ctx(old(self)), old(self).index as int).v,
            old(self).index <= final(self).index,
        decreases old(self).tokens@.len() - old(self).index, 9int,
    {
        let ghost p = ctx(self);
        let ghost i0 = self.index as int;
        let ghost d0 = dvs(self.diagnostics@);
        let ghost target = p_arms_loop(p, Seq::empty(), i0);
        let mut arms: Vec<MatchArm> = Vec::new();
        let ends = [TokenStop::RBrace];
        assert(ends@ == seq![TokenStop::RBrace]);
        let inner = [TokenStop::RBrace, TokenStop::ArmStart];
        assert(inner@ == seq![TokenStop::RBrace, TokenStop::ArmStart]);
        proof {
            assert(mvs(arms@) =~= Seq::<ArmV>::empty());
        }
        while !self.is_at_end() && !self.at_stop(&ends)
            invariant
                pwf(self),
                ctx(self) == p,
                p == ctx(old(self)),
                i0 == old(self).index as int,
                i0 <= self.index,
                ends@ == seq![TokenStop::RBrace],
                inner@ == seq![TokenStop::RBrace, TokenStop::ArmStart],
                p_arms_loop(p, mvs(arms@), self.index as int).v == target.v,
                p_arms_loop(p, mvs(arms@), self.index as int).i == target.i,
                dvs(self.diagnostics@) + p_arms_loop(p, mvs(arms@), self.index as int).d == d0
                    + target.d,
            decreases p.toks.len() - self.index,
        {
            let ghost li = self.index as int;
            let ghost acc = mvs(arms@);
            let ghost dl = dvs(self.diagnostics@);
            if self.check(TokenKind::Word) {
                let pattern = self.token_text(self.index);
                self.index = self.index + 1;
                self.expect(TokenKind::FatArrow, "expected `=>` after match pattern");
                let ghost x = expect(
                    p,
                    TokenKind::FatArrow,
                    "expected `=>` after match pattern"@,
                    li + 1,
                );
                let value = self.parse_expr_until(&inner);
                let ghost r = p_expr_until(p, inner@, x.i);
                let a = MatchArm { pattern, value };
                proof {
                    lemma_mvs_push(arms@, a);
                }
                arms.push(a);
                proof {
                    let l = p_arms_loop(p, mvs(arms@), self.index as int);
                    assert(p_arms_loop(p, acc, li) == PRes { v: l.v, i: l.i, d: x.d + r.d + l.d });
                    lemma_dvs_assoc(dl, x.d, r.d);
                    lemma_dvs_assoc(dl + x.d, r.d, l.d);
                    lemma_dvs_assoc(x.d, r.d, l.d);
                    lemma_dvs_assoc(dl, x.d + r.d, l.d);
                }
            } else {
                let t = self.tokens[self.index];
                self.index = self.index + 1;
                self.report(
                    "expected match pattern".to_owned(),
                    SourceSpan { start: t.start, end: t.end },
                );
                proof {
                    let l = p_arms_loop(p, acc, self.index as int);
                    let dd = seq![diag("expected match pattern"@, span_of(p.toks[li]))];
                    assert(p_arms_loop(p, acc, li) == PRes { v: l.v, i: l.i, d: dd + l.d });
                    lemma_dvs_assoc(dl, dd, l.d);
                }
            }
        }
        proof {
            lemma_empty_right(dvs(self.diagnostics@));
        }
        self.expect(TokenKind::RBrace, "expected `}` after match arms");
        proof {
            lemma_dvs_assoc(
                d0,
                target.d,
                expect(p, TokenKind::RBrace, "expected `}` after match arms"@, target.i).d,
            );
        }
        arms
    }

    /// The body of a TEXT literal; the parser stands just after its `{`.
    fn collect_text(&mut self, w: usize) -> (s: String)
        requires
            pwf(old(self)),
            w < old(self).index,
            1 <= old(self).index,
        ensures
            outcome(
                old(self),
                final(self),
                p_collect_text(ctx(old(self)), w as int, old(self).index as int),
            ),
            s@ == p_collect_text(ctx(old(self)), w as int, old(self).index as int).v,
            old(self).index <= final(self).index,
    {
        let ghost p = ctx(self);
        let ghost i0 = self.index as int;
        let ghost d0 = dvs(self.diagnostics@);
        let open = self.tokens[self.index - 1];
        let ghost target = text_scan(p, i0, 1, open.ce as int);
        let mut opens: usize = 1;
        let mut closes: usize = 0;
        let mut content_end: usize = open.ce;
        let mut finished = false;
        while !finished && self.index < self.tokens.len()
            invariant
                pwf(self),
                ctx(self) == p,
                p == ctx(old(self)),
                i0 == old(self).index as int,
                i0 <= self.index,
                closes <= opens <= self.index - i0 + 1,
                !finished ==> closes < opens,
                !finished ==> text_scan(p, self.index as int, opens - closes, content_end as int)
                    == target,
                finished ==> target == (TextScan {
                    i: self.index as int,
                    depth: 0,
                    content_end: content_end as int,
                }),
                dvs(self.diagnostics@) == d0,
            decreases p.toks.len() - self.index, if finished {
                0int
            } else {
                1int
            },
        {
            let t = self.tokens[self.index];
            self.index = self.index + 1;
            if t.kind == TokenKind::LBrace {
                opens = opens + 1;
                content_end = t.ce;
            } else if t.kind == TokenKind::RBrace {
                if opens - closes == 1 {
                    content_end = t.cs;
                    finished = true;
                    closes = closes + 1;
                } else {
                    closes = closes + 1;
                    content_end = t.ce;
                }
            } else {
                content_end = t.ce;
            }
        }
        if !finished {
            let t = self.tokens[w];
            self.report(
                "unterminated TEXT literal".to_owned(),
                SourceSpan { start: t.start, end: t.end },
            );
        } else {
            proof {
                lemma_empty_right(d0);
            }
        }
        let a = open.ce;
        let b = content_end;
        if a <= b && b <= self.source.len() {
            if b - a >= 2 && self.source[a] == ' ' && self.source[b - 1] == ' ' {
                let s = string_of_range(self.source.as_slice(), a + 1, b - 1);
                proof {
                    assert(self.source@.subrange(a as int, b as int).subrange(1, b - a - 1)
                        =~= self.source@.subrange(a + 1, b - 1));
                }
                s
            } else {
                string_of_range(self.source.as_slice(), a, b)
            }
        } else {
            String::new()
        }
    }
}

} // verus!

verus! {

/// The expression that a text spells, and what lexing and parsing it reports.
/// The text starts at byte `base` of the file.
pub open spec fn expr_text_spec(t: Seq<char>, base: nat) -> (ExprV, Seq<DiagV>) {
    let lx = crate::syntax::lex_spec(t, base);
    let r = p_expr_until(PCtx { toks: lx.0, src: t }, Seq::empty(), 0);
    (r.v, lx.1 + r.d)
}

/// Parses one expression text that starts at byte `base` of the file.
pub fn parse_expr_text(t: Vec<char>, base: usize, diagnostics: Vec<SyntaxDiagnostic>) -> (r: (
    Expr,
    Vec<SyntaxDiagnostic>,
))
    requires
        1 <= base,
        base + crate::text::byte_len(t@) <= usize::MAX,
    ensures
        r.0@ == expr_text_spec(t@, base as nat).0,
        dvs(r.1@) == dvs(diagnostics@) + expr_text_spec(t@, base as nat).1,
{
    let mut diags = diagnostics;
    let tokens = crate::syntax::lex(&t, base, &mut diags);
    proof {
        crate::text::lemma_byte_len_ge_len(t@);
        crate::syntax::lemma_lex_from_wf(t@, base as nat, 0);
        crate::syntax::lemma_lex_len(t@, base as nat, 0);
    }
    let ghost d1 = dvs(diags@);
    let mut parser = Parser { source: t, tokens, index: 0, diagnostics: diags };
    let stops: [TokenStop; 0] = [];
    assert(stops@ =~= Seq::<TokenStop>::empty());
    let e = parser.parse_expr_until(&stops);
    proof {
        let lx = crate::syntax::lex_spec(parser.source@, base as nat);
        let pr = p_expr_until(PCtx { toks: lx.0, src: parser.source@ }, Seq::empty(), 0);
        lemma_dvs_assoc(dvs(diagnostics@), lx.1, pr.d);
    }
    (e, parser.diagnostics)
}


/// Where the additive loop stops: at the end, at a stop, or at a token that
/// is neither `+` nor `-`.
pub open spec fn add_ends(p: PCtx, stops: Seq<TokenStop>, i: int) -> bool {
    !(0 <= i < ntok(p)) || at_stop(p, stops, i) || !(check(p, TokenKind::Plus, i) || check(
        p,
        TokenKind::Minus,
        i,
    ))
}

/// An additive operator joins what was parsed before it, as the left
/// operand, with the primary after it, as the right operand: `+` adds and
/// `-` subtracts, and the chain goes on from after that primary, so `a - b - c`
/// is `(a - b) - c`.
pub proof fn lemma_add_step(p: PCtx, stops: Seq<TokenStop>, acc: ExprV, i: int)
    requires
        0 <= i < ntok(p),
        !at_stop(p, stops, i),
        check(p, TokenKind::Plus, i) || check(p, TokenKind::Minus, i),
        i + 1 <= p_primary(p, stops, i + 1).i <= ntok(p),
    ensures
        ({
            let r = p_primary(p, stops, i + 1);
            let op = if check(p, TokenKind::Minus, i) {
                BinaryOp::Subtract
            } else {
                BinaryOp::Add
            };
            p_add_loop(p, stops, acc, i).v == p_add_loop(
                p,
                stops,
                ExprV::Binary(op, Box::new(acc), Box::new(r.v)),
                r.i,
            ).v
        }),
{
}

/// Two primaries joined by `-` parse as their difference, the first on the
/// left and the second on the right; joined by `+`, as their sum.
pub proof fn lemma_two_operands(p: PCtx, stops: Seq<TokenStop>, i: int)
    requires
        0 <= i <= ntok(p),
        i <= p_primary(p, stops, i).i < ntok(p),
        !at_stop(p, stops, p_primary(p, stops, i).i),
        check(p, TokenKind::Plus, p_primary(p, stops, i).i) || check(
            p,
            TokenKind::Minus,
            p_primary(p, stops, i).i,
        ),
        p_primary(p, stops, i).i + 1 <= p_primary(p, stops, p_primary(p, stops, i).i + 1).i <= ntok(p),
        add_ends(p, stops, p_primary(p, stops, p_primary(p, stops, i).i + 1).i),
    ensures
        ({
            let a = p_primary(p, stops, i);
            let b = p_primary(p, stops, a.i + 1);
            &&& check(p, TokenKind::Minus, a.i) ==> p_add(p, stops, i).v == ExprV::Binary(
                BinaryOp::Subtract,
                Box::new(a.v),
                Box::new(b.v),
            )
            &&& check(p, TokenKind::Plus, a.i) ==> p_add(p, stops, i).v == ExprV::Binary(
                BinaryOp::Add,
                Box::new(a.v),
                Box::new(b.v),
            )
        }),
{
    let a = p_primary(p, stops, i);
    let b = p_primary(p, stops, a.i + 1);
    if check(p, TokenKind::Minus, a.i) {
        assert(!check(p, TokenKind::Plus, a.i));
    }
}

} // verus!
