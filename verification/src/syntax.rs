//! Lexer and parser of Boon source text.
use vstd::prelude::*;
pub use crate::toplevel::parse_source;
use crate::text::{
    byte_len, char_is_alnum, char_is_alpha, char_is_digit, char_is_whitespace, char_len_utf8,
    chars_of, is_alnum, is_alpha, is_digit, is_name_char, is_ws, lemma_byte_len_concat,
    lemma_byte_len_take_mono, lemma_byte_len_take_step, push_char, push_chars, push_str,
    string_of, string_of_range, range_eq_str, debug_str, debug_text, usize_text, decimal,
};

verus! {

/// A source file as it was handed to the parser.
#[derive(Clone, Debug, PartialEq, Eq)]
pub struct SourceFile {
    pub path: String,
    pub text: String,
}

/// The result of parsing one file.
#[derive(Debug, PartialEq, Eq)]
pub struct ParsedModule {
    pub source: SourceFile,
    pub definitions: Vec<Definition>,
    pub diagnostics: Vec<SyntaxDiagnostic>,
}

/// A top-level value or function definition.
#[derive(Debug, PartialEq, Eq)]
pub struct Definition {
    pub name: String,
    pub parameters: Vec<String>,
    pub is_function: bool,
    pub expression: Expr,
    pub span: SourceSpan,
}

/// A byte range of the source text.
#[derive(Clone, Copy, Debug, PartialEq, Eq, Structural)]
pub struct SourceSpan {
    pub start: usize,
    pub end: usize,
}

/// A problem found while parsing.
#[derive(Clone, Debug, PartialEq, Eq)]
pub struct SyntaxDiagnostic {
    pub message: String,
    pub span: SourceSpan,
}

/// An expression of the language.
#[derive(Debug, PartialEq, Eq)]
pub enum Expr {
    Missing,
    Path(String),
    Number(String),
    Source,
    SourceAt { target: Box<Expr> },
    Link { target: Option<Box<Expr>> },
    Skip,
    Tag(String),
    Text(String),
    Record(Vec<RecordField>),
    List(Vec<Expr>),
    Block(Vec<Expr>),
    Latest(Vec<Expr>),
    Call { callee: String, args: Vec<CallArg> },
    Constructor { callee: String, fields: Vec<RecordField> },
    FieldAccess { base: Box<Expr>, field: String },
    Pipe { input: Box<Expr>, stage: Box<Expr> },
    Binary { op: BinaryOp, left: Box<Expr>, right: Box<Expr> },
    Then { body: Vec<Expr> },
    Hold { binder: String, body: Vec<Expr> },
    Match { kind: MatchKind, arms: Vec<MatchArm> },
}

#[derive(Debug, PartialEq, Eq)]
pub struct RecordField {
    pub name: String,
    pub value: Expr,
}

#[derive(Debug, PartialEq, Eq)]
pub enum CallArg {
    Positional(Expr),
    Named { name: String, value: Expr },
}

#[derive(Clone, Copy, Debug, PartialEq, Eq, Structural)]
pub enum BinaryOp {
    Add,
    Subtract,
    Equal,
}

#[derive(Clone, Copy, Debug, PartialEq, Eq, Structural)]
pub enum MatchKind {
    When,
    While,
}

#[derive(Debug, PartialEq, Eq)]
pub struct MatchArm {
    pub pattern: String,
    pub value: Expr,
}

// ---------------------------------------------------------------------------
// Mathematical model of expressions
// ---------------------------------------------------------------------------

/// An expression with its strings taken as character sequences.
pub enum ExprV {
    Missing,
    Path(Seq<char>),
    Number(Seq<char>),
    Source,
    SourceAt(Box<ExprV>),
    Link(Option<Box<ExprV>>),
    Skip,
    Tag(Seq<char>),
    Text(Seq<char>),
    Record(Seq<FieldV>),
    List(Seq<ExprV>),
    Block(Seq<ExprV>),
    Latest(Seq<ExprV>),
    Call(Seq<char>, Seq<ArgV>),
    Constructor(Seq<char>, Seq<FieldV>),
    FieldAccess(Box<ExprV>, Seq<char>),
    Pipe(Box<ExprV>, Box<ExprV>),
    Binary(BinaryOp, Box<ExprV>, Box<ExprV>),
    Then(Seq<ExprV>),
    Hold(Seq<char>, Seq<ExprV>),
    Match(MatchKind, Seq<ArmV>),
}

pub struct FieldV {
    pub name: Seq<char>,
    pub value: ExprV,
}

pub enum ArgV {
    Positional(ExprV),
    Named(Seq<char>, ExprV),
}

pub struct ArmV {
    pub pattern: Seq<char>,
    pub value: ExprV,
}

pub open spec fn ev(e: Expr) -> ExprV
    decreases e,
{
    match e {
        Expr::Missing => ExprV::Missing,
        Expr::Path(p) => ExprV::Path(p@),
        Expr::Number(n) => ExprV::Number(n@),
        Expr::Source => ExprV::Source,
        Expr::SourceAt { target } => ExprV::SourceAt(Box::new(ev(*target))),
        Expr::Link { target } => ExprV::Link(
            match target {
                Some(t) => Some(Box::new(ev(*t))),
                None => None,
            },
        ),
        Expr::Skip => ExprV::Skip,
        Expr::Tag(t) => ExprV::Tag(t@),
        Expr::Text(t) => ExprV::Text(t@),
        Expr::Record(fs) => ExprV::Record(fvs(fs@)),
        Expr::List(vs) => ExprV::List(evs(vs@)),
        Expr::Block(vs) => ExprV::Block(evs(vs@)),
        Expr::Latest(vs) => ExprV::Latest(evs(vs@)),
        Expr::Call { callee, args } => ExprV::Call(callee@, avs(args@)),
        Expr::Constructor { callee, fields } => ExprV::Constructor(callee@, fvs(fields@)),
        Expr::FieldAccess { base, field } => ExprV::FieldAccess(Box::new(ev(*base)), field@),
        Expr::Pipe { input, stage } => ExprV::Pipe(Box::new(ev(*input)), Box::new(ev(*stage))),
        Expr::Binary { op, left, right } => ExprV::Binary(
            op,
            Box::new(ev(*left)),
            Box::new(ev(*right)),
        ),
        Expr::Then { body } => ExprV::Then(evs(body@)),
        Expr::Hold { binder, body } => ExprV::Hold(binder@, evs(body@)),
        Expr::Match { kind, arms } => ExprV::Match(kind, mvs(arms@)),
    }
}

pub open spec fn evs(vs: Seq<Expr>) -> Seq<ExprV>
    decreases vs,
{
    Seq::new(
        vs.len(),
        |i: int|
            if 0 <= i < vs.len() {
                ev(vs[i])
            } else {
                ExprV::Missing
            },
    )
}

pub open spec fn fvs(fs: Seq<RecordField>) -> Seq<FieldV>
    decreases fs,
{
    Seq::new(
        fs.len(),
        |i: int|
            if 0 <= i < fs.len() {
                FieldV { name: fs[i].name@, value: ev(fs[i].value) }
            } else {
                FieldV { name: Seq::empty(), value: ExprV::Missing }
            },
    )
}

pub open spec fn avs(args: Seq<CallArg>) -> Seq<ArgV>
    decreases args,
{
    Seq::new(
        args.len(),
        |i: int|
            if 0 <= i < args.len() {
                match args[i] {
                    CallArg::Positional(v) => ArgV::Positional(ev(v)),
                    CallArg::Named { name, value } => ArgV::Named(name@, ev(value)),
                }
            } else {
                ArgV::Positional(ExprV::Missing)
            },
    )
}

pub open spec fn mvs(arms: Seq<MatchArm>) -> Seq<ArmV>
    decreases arms,
{
    Seq::new(
        arms.len(),
        |i: int|
            if 0 <= i < arms.len() {
                ArmV { pattern: arms[i].pattern@, value: ev(arms[i].value) }
            } else {
                ArmV { pattern: Seq::empty(), value: ExprV::Missing }
            },
    )
}

pub proof fn lemma_evs_push(vs: Seq<Expr>, x: Expr)
    ensures
        evs(vs.push(x)) == evs(vs).push(ev(x)),
{
    assert(evs(vs.push(x)) =~= evs(vs).push(ev(x)));
}

pub proof fn lemma_fvs_push(fs: Seq<RecordField>, x: RecordField)
    ensures
        fvs(fs.push(x)) == fvs(fs).push(FieldV { name: x.name@, value: ev(x.value) }),
{
    assert(fvs(fs.push(x)) =~= fvs(fs).push(FieldV { name: x.name@, value: ev(x.value) }));
}

pub proof fn lemma_avs_push(args: Seq<CallArg>, x: CallArg)
    ensures
        avs(args.push(x)) == avs(args).push(
            match x {
                CallArg::Positional(v) => ArgV::Positional(ev(v)),
                CallArg::Named { name, value } => ArgV::Named(name@, ev(value)),
            },
        ),
{
    assert(avs(args.push(x)) =~= avs(args).push(
        match x {
            CallArg::Positional(v) => ArgV::Positional(ev(v)),
            CallArg::Named { name, value } => ArgV::Named(name@, ev(value)),
        },
    ));
}

pub proof fn lemma_mvs_push(arms: Seq<MatchArm>, x: MatchArm)
    ensures
        mvs(arms.push(x)) == mvs(arms).push(ArmV { pattern: x.pattern@, value: ev(x.value) }),
{
    assert(mvs(arms.push(x)) =~= mvs(arms).push(ArmV { pattern: x.pattern@, value: ev(x.value) }));
}

impl View for Expr {
    type V = ExprV;

    open spec fn view(&self) -> ExprV {
        ev(*self)
    }
}

/// A diagnostic with its message taken as characters.
pub struct DiagV {
    pub message: Seq<char>,
    pub span: SourceSpan,
}

pub open spec fn dv(d: SyntaxDiagnostic) -> DiagV {
    DiagV { message: d.message@, span: d.span }
}

pub open spec fn dvs(s: Seq<SyntaxDiagnostic>) -> Seq<DiagV> {
    s.map_values(|d: SyntaxDiagnostic| dv(d))
}

pub proof fn lemma_dvs_push(s: Seq<SyntaxDiagnostic>, d: SyntaxDiagnostic)
    ensures
        dvs(s.push(d)) == dvs(s).push(dv(d)),
{
    assert(dvs(s.push(d)) =~= dvs(s).push(dv(d)));
}

fn push_diag(
    diagnostics: &mut Vec<SyntaxDiagnostic>,
    message: String,
    start: usize,
    end: usize,
)
    ensures
        dvs(final(diagnostics)@) == dvs(old(diagnostics)@).push(
            DiagV { message: message@, span: SourceSpan { start, end } },
        ),
{
    let d = SyntaxDiagnostic { message, span: SourceSpan { start, end } };
    proof {
        lemma_dvs_push(diagnostics@, d);
    }
    diagnostics.push(d);
}

pub(crate) fn push_diag_pub(
    diagnostics: &mut Vec<SyntaxDiagnostic>,
    message: String,
    start: usize,
    end: usize,
)
    ensures
        dvs(final(diagnostics)@) == dvs(old(diagnostics)@) + seq![
            DiagV { message: message@, span: SourceSpan { start, end } },
        ],
{
    push_diag(diagnostics, message, start, end);
    proof {
        assert(dvs(old(diagnostics)@).push(
            DiagV { message: message@, span: SourceSpan { start, end } },
        ) =~= dvs(old(diagnostics)@) + seq![
            DiagV { message: message@, span: SourceSpan { start, end } },
        ]);
    }
}

// ---------------------------------------------------------------------------
// Lexer
// ---------------------------------------------------------------------------

#[derive(Clone, Copy, PartialEq, Eq, Structural)]
pub enum TokenKind {
    Word,
    Number,
    Colon,
    Comma,
    Plus,
    Minus,
    Dot,
    Equals,
    DoubleEquals,
    Pipe,
    FatArrow,
    LBracket,
    RBracket,
    LParen,
    RParen,
    LBrace,
    RBrace,
}

/// A token: its kind, its byte range in the file and its character range in
/// the lexed text. A word or number token spells the characters of its range.
#[derive(Clone, Copy)]
pub struct Token {
    pub kind: TokenKind,
    pub start: usize,
    pub end: usize,
    pub cs: usize,
    pub ce: usize,
}

pub open spec fn is_word_start(c: char) -> bool {
    is_alpha(c) || c == '_'
}

pub open spec fn is_word_continue(c: char) -> bool {
    is_alnum(c) || c == '_' || c == '/' || c == '.'
}

pub open spec fn is_number_continue(c: char) -> bool {
    is_digit(c) || c == '.'
}

/// The end of the run of word characters that starts at `j`.
pub open spec fn word_end(t: Seq<char>, j: int) -> int
    decreases t.len() - j,
{
    if 0 <= j < t.len() && is_word_continue(t[j]) {
        word_end(t, j + 1)
    } else {
        j
    }
}

/// The end of the run of digits and dots that starts at `j`.
pub open spec fn number_end(t: Seq<char>, j: int) -> int
    decreases t.len() - j,
{
    if 0 <= j < t.len() && is_number_continue(t[j]) {
        number_end(t, j + 1)
    } else {
        j
    }
}

/// The position of the next line feed at or after `j`, or the end.
pub open spec fn line_end(t: Seq<char>, j: int) -> int
    decreases t.len() - j,
{
    if 0 <= j < t.len() && t[j] != '\n' {
        line_end(t, j + 1)
    } else {
        j
    }
}

pub proof fn lemma_word_end_bounds(t: Seq<char>, j: int)
    requires
        0 <= j <= t.len(),
    ensures
        j <= word_end(t, j) <= t.len(),
    decreases t.len() - j,
{
    if 0 <= j < t.len() && is_word_continue(t[j]) {
        lemma_word_end_bounds(t, j + 1);
    }
}

pub proof fn lemma_number_end_bounds(t: Seq<char>, j: int)
    requires
        0 <= j <= t.len(),
    ensures
        j <= number_end(t, j) <= t.len(),
    decreases t.len() - j,
{
    if 0 <= j < t.len() && is_number_continue(t[j]) {
        lemma_number_end_bounds(t, j + 1);
    }
}

pub proof fn lemma_line_end_bounds(t: Seq<char>, j: int)
    requires
        0 <= j <= t.len(),
    ensures
        j <= line_end(t, j) <= t.len(),
    decreases t.len() - j,
{
    if 0 <= j < t.len() && t[j] != '\n' {
        lemma_line_end_bounds(t, j + 1);
    }
}

/// What one step of the lexer does at position `i`: where it continues,
/// and the token or diagnostic it produces there.
pub struct LexStep {
    pub next: int,
    pub token: Option<TokenKind>,
    pub unexpected: bool,
}

pub open spec fn punct_kind(c: char) -> Option<TokenKind> {
    if c == ':' {
        Some(TokenKind::Colon)
    } else if c == ',' {
        Some(TokenKind::Comma)
    } else if c == '+' {
        Some(TokenKind::Plus)
    } else if c == '-' {
        Some(TokenKind::Minus)
    } else if c == '.' {
        Some(TokenKind::Dot)
    } else if c == '[' {
        Some(TokenKind::LBracket)
    } else if c == ']' {
        Some(TokenKind::RBracket)
    } else if c == '(' {
        Some(TokenKind::LParen)
    } else if c == ')' {
        Some(TokenKind::RParen)
    } else if c == '{' {
        Some(TokenKind::LBrace)
    } else if c == '}' {
        Some(TokenKind::RBrace)
    } else {
        None
    }
}

pub open spec fn lex_step(t: Seq<char>, i: int) -> LexStep
    recommends
        0 <= i < t.len(),
{
    let c = t[i];
    let next_is = |d: char| i + 1 < t.len() && t[i + 1] == d;
    if is_ws(c) {
        LexStep { next: i + 1, token: None, unexpected: false }
    } else if c == '#' || (c == '-' && next_is('-')) {
        LexStep { next: line_end(t, i), token: None, unexpected: false }
    } else if punct_kind(c) is Some {
        LexStep { next: i + 1, token: punct_kind(c), unexpected: false }
    } else if c == '|' && next_is('>') {
        LexStep { next: i + 2, token: Some(TokenKind::Pipe), unexpected: false }
    } else if c == '=' && next_is('>') {
        LexStep { next: i + 2, token: Some(TokenKind::FatArrow), unexpected: false }
    } else if c == '=' && next_is('=') {
        LexStep { next: i + 2, token: Some(TokenKind::DoubleEquals), unexpected: false }
    } else if c == '=' {
        LexStep { next: i + 1, token: Some(TokenKind::Equals), unexpected: false }
    } else if is_digit(c) {
        LexStep { next: number_end(t, i + 1), token: Some(TokenKind::Number), unexpected: false }
    } else if is_word_start(c) {
        LexStep { next: word_end(t, i + 1), token: Some(TokenKind::Word), unexpected: false }
    } else {
        LexStep { next: i + 1, token: None, unexpected: true }
    }
}

pub proof fn lemma_lex_step_advances(t: Seq<char>, i: int)
    requires
        0 <= i < t.len(),
    ensures
        i < lex_step(t, i).next <= t.len(),
{
    lemma_line_end_bounds(t, i + 1);
    if t[i] != '\n' {
        assert(line_end(t, i) == line_end(t, i + 1));
    }
    lemma_number_end_bounds(t, i + 1);
    lemma_word_end_bounds(t, i + 1);
}

/// Byte offset of character position `i` of `t`, for text that starts at byte `base`.
pub open spec fn bpos(t: Seq<char>, base: nat, i: int) -> nat {
    base + byte_len(t.take(i))
}

pub open spec fn unexpected_message(c: char) -> Seq<char> {
    "unexpected character `"@ + seq![c] + "`"@
}

/// The tokens and diagnostics that lexing `t` from position `i` on yields.
pub open spec fn lex_from(t: Seq<char>, base: nat, i: int) -> (Seq<Token>, Seq<DiagV>)
    decreases t.len() - i,
{
    if 0 <= i < t.len() {
        let st = lex_step(t, i);
        if i < st.next <= t.len() {
            let rest = lex_from(t, base, st.next);
            let toks = match st.token {
                Some(k) => seq![
                    Token {
                        kind: k,
                        start: bpos(t, base, i) as usize,
                        end: bpos(t, base, st.next) as usize,
                        cs: i as usize,
                        ce: st.next as usize,
                    },
                ],
                None => Seq::empty(),
            };
            let diags = if st.unexpected {
                seq![
                    DiagV {
                        message: unexpected_message(t[i]),
                        span: SourceSpan {
                            start: bpos(t, base, i) as usize,
                            end: bpos(t, base, i + 1) as usize,
                        },
                    },
                ]
            } else {
                Seq::empty()
            };
            (toks + rest.0, diags + rest.1)
        } else {
            (Seq::empty(), Seq::empty())
        }
    } else {
        (Seq::empty(), Seq::empty())
    }
}

/// The tokens of `t`, a text that starts at byte `base` of the file.
pub open spec fn lex_spec(t: Seq<char>, base: nat) -> (Seq<Token>, Seq<DiagV>) {
    lex_from(t, base, 0)
}

fn punct_token(c: char) -> (r: Option<TokenKind>)
    ensures
        r == punct_kind(c),
{
    if c == ':' {
        Some(TokenKind::Colon)
    } else if c == ',' {
        Some(TokenKind::Comma)
    } else if c == '+' {
        Some(TokenKind::Plus)
    } else if c == '-' {
        Some(TokenKind::Minus)
    } else if c == '.' {
        Some(TokenKind::Dot)
    } else if c == '[' {
        Some(TokenKind::LBracket)
    } else if c == ']' {
        Some(TokenKind::RBracket)
    } else if c == '(' {
        Some(TokenKind::LParen)
    } else if c == ')' {
        Some(TokenKind::RParen)
    } else if c == '{' {
        Some(TokenKind::LBrace)
    } else if c == '}' {
        Some(TokenKind::RBrace)
    } else {
        None
    }
}

/// The kinds of character runs that the lexer skips over.
pub open spec fn run_end(t: Seq<char>, j: int, mode: u8) -> int {
    if mode == 0 {
        word_end(t, j)
    } else if mode == 1 {
        number_end(t, j)
    } else {
        line_end(t, j)
    }
}

pub open spec fn in_run(c: char, mode: u8) -> bool {
    if mode == 0 {
        is_word_continue(c)
    } else if mode == 1 {
        is_number_continue(c)
    } else {
        c != '\n'
    }
}

fn run_char(c: char, mode: u8) -> (r: bool)
    ensures
        r == in_run(c, mode),
{
    if mode == 0 {
        char_is_alnum(c) || c == '_' || c == '/' || c == '.'
    } else if mode == 1 {
        char_is_digit(c) || c == '.'
    } else {
        c != '\n'
    }
}

/// Advances over a run of characters, adding up their bytes; `word` picks
/// word characters, otherwise digits and dots.
fn scan_run(t: &Vec<char>, j0: usize, b0: usize, mode: u8, Ghost(base): Ghost<nat>) -> (r: (
    usize,
    usize,
))
    requires
        0 <= j0 <= t@.len(),
        b0 == bpos(t@, base, j0 as int),
        base + byte_len(t@) <= usize::MAX,
    ensures
        r.0 == run_end(t@, j0 as int, mode),
        j0 <= r.0 <= t@.len(),
        r.1 == bpos(t@, base, r.0 as int),
{
    let mut j = j0;
    let mut b = b0;
    while j < t.len() && run_char(t[j], mode)
        invariant
            j0 <= j <= t@.len(),
            b == bpos(t@, base, j as int),
            base + byte_len(t@) <= usize::MAX,
            run_end(t@, j as int, mode) == run_end(t@, j0 as int, mode),
        decreases t@.len() - j,
    {
        proof {
            lemma_byte_len_take_step(t@, j as int);
            lemma_byte_len_take_mono(t@, j + 1, t@.len() as int);
        }
        b = b + char_len_utf8(t[j]);
        j = j + 1;
    }
    (j, b)
}

/// Splits text into tokens. `t` starts at byte `base` of the file; unexpected
/// characters are reported in `diagnostics`.
pub(crate) fn lex(t: &Vec<char>, base: usize, diagnostics: &mut Vec<SyntaxDiagnostic>) -> (tokens: Vec<Token>)
    requires
        base + byte_len(t@) <= usize::MAX,
    ensures
        tokens@ == lex_spec(t@, base as nat).0,
        dvs(final(diagnostics)@) == dvs(old(diagnostics)@) + lex_spec(t@, base as nat).1,
{
    let ghost full = lex_from(t@, base as nat, 0);
    let mut tokens: Vec<Token> = Vec::new();
    let mut i: usize = 0;
    let mut b: usize = base;
    proof {
        assert(t@.take(0) =~= Seq::<char>::empty());
    }
    while i < t.len()
        invariant
            0 <= i <= t@.len(),
            b == bpos(t@, base as nat, i as int),
            base + byte_len(t@) <= usize::MAX,
            tokens@ + lex_from(t@, base as nat, i as int).0 == full.0,
            dvs(diagnostics@) + lex_from(t@, base as nat, i as int).1 == dvs(old(diagnostics)@)
                + full.1,
        decreases t@.len() - i,
    {
        let ghost gi = i as int;
        let ghost rest_before = lex_from(t@, base as nat, gi);
        let ghost st = lex_step(t@, gi);
        proof {
            lemma_lex_step_advances(t@, gi);
            lemma_byte_len_take_step(t@, gi);
            lemma_byte_len_take_mono(t@, gi + 1, t@.len() as int);
        }
        let c = t[i];
        let w = char_len_utf8(c);
        let next_is_dash = i + 1 < t.len() && t[i + 1] == '-';
        let next_is_gt = i + 1 < t.len() && t[i + 1] == '>';
        let next_is_eq = i + 1 < t.len() && t[i + 1] == '=';
        if char_is_whitespace(c) {
            i = i + 1;
            b = b + w;
            proof {
                assert(tokens@ + lex_from(t@, base as nat, i as int).0 =~= full.0);
                assert(dvs(diagnostics@) + lex_from(t@, base as nat, i as int).1 =~= dvs(
                    old(diagnostics)@,
                ) + full.1);
            }
            continue ;
        }
        if c == '#' || (c == '-' && next_is_dash) {
            let (j, bj) = scan_run(t, i, b, 2, Ghost(base as nat));
            i = j;
            b = bj;
            proof {
                assert(tokens@ + lex_from(t@, base as nat, i as int).0 =~= full.0);
                assert(dvs(diagnostics@) + lex_from(t@, base as nat, i as int).1 =~= dvs(
                    old(diagnostics)@,
                ) + full.1);
            }
            continue ;
        }
        let mut kind: Option<TokenKind> = punct_token(c);
        let mut two = false;
        let mut next: usize = i + 1;
        let mut bnext: usize = b + w;
        if kind.is_none() {
            if c == '|' && next_is_gt {
                kind = Some(TokenKind::Pipe);
                two = true;
                next = i + 2;
            } else if c == '=' && next_is_gt {
                kind = Some(TokenKind::FatArrow);
                two = true;
                next = i + 2;
            } else if c == '=' && next_is_eq {
                kind = Some(TokenKind::DoubleEquals);
                two = true;
                next = i + 2;
            } else if c == '=' {
                kind = Some(TokenKind::Equals);
            } else if char_is_digit(c) {
                let (j, bj) = scan_run(t, i + 1, b + w, 1, Ghost(base as nat));
                kind = Some(TokenKind::Number);
                next = j;
                bnext = bj;
            } else if char_is_alpha(c) || c == '_' {
                let (j, bj) = scan_run(t, i + 1, b + w, 0, Ghost(base as nat));
                kind = Some(TokenKind::Word);
                next = j;
                bnext = bj;
            }
            if two {
                proof {
                    lemma_byte_len_take_step(t@, gi + 1);
                    lemma_byte_len_take_mono(t@, gi + 2, t@.len() as int);
                }
                bnext = bnext + char_len_utf8(t[i + 1]);
            }
        }
        assert(next == st.next);
        assert(kind == st.token);
        assert(bnext == bpos(t@, base as nat, next as int));
        assert(rest_before.0 == (match st.token {
            Some(k) => seq![
                Token {
                    kind: k,
                    start: b,
                    end: bnext,
                    cs: i,
                    ce: next,
                },
            ],
            None => Seq::empty(),
        }) + lex_from(t@, base as nat, next as int).0);
        match kind {
            Some(k) => {
                assert(!st.unexpected);
                tokens.push(Token { kind: k, start: b, end: bnext, cs: i, ce: next });
            },
            None => {
                let mut m = "unexpected character `".to_owned();
                push_char(&mut m, c);
                push_str(&mut m, "`");
                assert(m@ =~= unexpected_message(c));
                assert(st.unexpected);
                push_diag(diagnostics, m, b, b + w);
            },
        }
        i = next;
        b = bnext;
        proof {
            assert(tokens@ + lex_from(t@, base as nat, i as int).0 =~= full.0);
            assert(dvs(diagnostics@) + lex_from(t@, base as nat, i as int).1 =~= dvs(
                old(diagnostics)@,
            ) + full.1);
        }
    }
    proof {
        assert(tokens@ =~= full.0);
        assert(dvs(diagnostics@) =~= dvs(old(diagnostics)@) + full.1);
    }
    tokens
}

} // verus!

verus! {

/// Every token lies inside the text, in a nonempty range.
pub open spec fn tokens_wf(toks: Seq<Token>, len: int) -> bool {
    forall|k: int| 0 <= k < toks.len() ==> (#[trigger] toks[k]).cs < toks[k].ce <= len
}

pub proof fn lemma_lex_from_wf(t: Seq<char>, base: nat, i: int)
    requires
        t.len() <= usize::MAX,
    ensures
        tokens_wf(lex_from(t, base, i).0, t.len() as int),
    decreases t.len() - i,
{
    if 0 <= i < t.len() {
        let st = lex_step(t, i);
        lemma_lex_step_advances(t, i);
        lemma_lex_from_wf(t, base, st.next);
        let rest = lex_from(t, base, st.next);
        let r = lex_from(t, base, i);
        assert forall|k: int| 0 <= k < r.0.len() implies (#[trigger] r.0[k]).cs < r.0[k].ce <= t.len() by {
            if st.token is Some {
                assert(r.0.len() == rest.0.len() + 1);
                if k > 0 {
                    assert(r.0[k] == rest.0[k - 1]);
                } else {
                    assert(r.0[k].cs == i && r.0[k].ce == st.next);
                }
            } else {
                assert(r.0[k] == rest.0[k]);
            }
        }
    }
}

/// Lexing never yields more tokens than characters.
pub proof fn lemma_lex_len(t: Seq<char>, base: nat, i: int)
    requires
        0 <= i <= t.len(),
    ensures
        lex_from(t, base, i).0.len() <= t.len() - i,
    decreases t.len() - i,
{
    if 0 <= i < t.len() {
        let st = lex_step(t, i);
        lemma_lex_step_advances(t, i);
        lemma_lex_len(t, base, st.next);
    }
}

} // verus!

verus! {

/// A copy of an expression.
pub fn copy_expr(e: &Expr) -> (r: Expr)
    ensures
        ev(r) == ev(*e),
    decreases e,
{
    match e {
        Expr::Missing => Expr::Missing,
        Expr::Path(p) => Expr::Path(p.clone()),
        Expr::Number(n) => Expr::Number(n.clone()),
        Expr::Source => Expr::Source,
        Expr::SourceAt { target } => Expr::SourceAt { target: Box::new(copy_expr(target)) },
        Expr::Link { target } => match target {
            Some(t) => Expr::Link { target: Some(Box::new(copy_expr(t))) },
            None => Expr::Link { target: None },
        },
        Expr::Skip => Expr::Skip,
        Expr::Tag(t) => Expr::Tag(t.clone()),
        Expr::Text(t) => Expr::Text(t.clone()),
        Expr::Record(fs) => Expr::Record(copy_fields(e, fs)),
        Expr::List(vs) => Expr::List(copy_exprs(e, vs)),
        Expr::Block(vs) => Expr::Block(copy_exprs(e, vs)),
        Expr::Latest(vs) => Expr::Latest(copy_exprs(e, vs)),
        Expr::Call { callee, args } => Expr::Call { callee: callee.clone(), args: copy_args(e, args) },
        Expr::Constructor { callee, fields } => Expr::Constructor {
            callee: callee.clone(),
            fields: copy_fields(e, fields),
        },
        Expr::FieldAccess { base, field } => Expr::FieldAccess {
            base: Box::new(copy_expr(base)),
            field: field.clone(),
        },
        Expr::Pipe { input, stage } => Expr::Pipe {
            input: Box::new(copy_expr(input)),
            stage: Box::new(copy_expr(stage)),
        },
        Expr::Binary { op, left, right } => Expr::Binary {
            op: *op,
            left: Box::new(copy_expr(left)),
            right: Box::new(copy_expr(right)),
        },
        Expr::Then { body } => Expr::Then { body: copy_exprs(e, body) },
        Expr::Hold { binder, body } => Expr::Hold {
            binder: binder.clone(),
            body: copy_exprs(e, body),
        },
        Expr::Match { kind, arms } => Expr::Match { kind: *kind, arms: copy_arms(e, arms) },
    }
}

/// Copies the expressions `vs`, which lie inside `parent`.
fn copy_exprs(parent: &Expr, vs: &Vec<Expr>) -> (r: Vec<Expr>)
    requires
        decreases_to!(*parent => *vs),
    ensures
        evs(r@) == evs(vs@),
    decreases parent, 0int,
{
    let mut out: Vec<Expr> = Vec::new();
    let mut i: usize = 0;
    while i < vs.len()
        invariant
            decreases_to!(*parent => *vs),
            i <= vs@.len(),
            out@.len() == i,
            forall|j: int| 0 <= j < i ==> ev(#[trigger] out@[j]) == ev(vs@[j]),
        decreases vs@.len() - i,
    {
        proof {
            assert(decreases_to!(vs@ => vs@[i as int]));
            assert(decreases_to!(*vs => vs@));
        }
        out.push(copy_expr(&vs[i]));
        i = i + 1;
    }
    proof {
        assert(evs(out@) =~= evs(vs@));
    }
    out
}

fn copy_fields(parent: &Expr, fs: &Vec<RecordField>) -> (r: Vec<RecordField>)
    requires
        decreases_to!(*parent => *fs),
    ensures
        fvs(r@) == fvs(fs@),
    decreases parent, 0int,
{
    let mut out: Vec<RecordField> = Vec::new();
    let mut i: usize = 0;
    while i < fs.len()
        invariant
            decreases_to!(*parent => *fs),
            i <= fs@.len(),
            out@.len() == i,
            forall|j: int|
                0 <= j < i ==> (#[trigger] out@[j]).name@ == fs@[j].name@ && ev(out@[j].value)
                    == ev(fs@[j].value),
        decreases fs@.len() - i,
    {
        proof {
            assert(decreases_to!(fs@[i as int] => fs@[i as int].value));
            assert(decreases_to!(fs@ => fs@[i as int]));
            assert(decreases_to!(*fs => fs@));
        }
        let f = &fs[i];
        out.push(RecordField { name: f.name.clone(), value: copy_expr(&f.value) });
        i = i + 1;
    }
    proof {
        assert(fvs(out@) =~= fvs(fs@));
    }
    out
}

fn copy_args(parent: &Expr, args: &Vec<CallArg>) -> (r: Vec<CallArg>)
    requires
        decreases_to!(*parent => *args),
    ensures
        avs(r@) == avs(args@),
    decreases parent, 0int,
{
    let mut out: Vec<CallArg> = Vec::new();
    let mut i: usize = 0;
    while i < args.len()
        invariant
            decreases_to!(*parent => *args),
            i <= args@.len(),
            out@.len() == i,
            forall|j: int|
                0 <= j < i ==> match (#[trigger] out@[j], args@[j]) {
                    (CallArg::Positional(a), CallArg::Positional(b)) => ev(a) == ev(b),
                    (CallArg::Named { name: n1, value: a }, CallArg::Named { name: n2, value: b }) =>
                        n1@ == n2@ && ev(a) == ev(b),
                    _ => false,
                },
        decreases args@.len() - i,
    {
        proof {
            assert(decreases_to!(args@ => args@[i as int]));
            assert(decreases_to!(*args => args@));
        }
        let a = match &args[i] {
            CallArg::Positional(v) => {
                proof {
                    assert(decreases_to!(args@[i as int] => *v));
                }
                CallArg::Positional(copy_expr(v))
            },
            CallArg::Named { name, value } => {
                proof {
                    assert(decreases_to!(args@[i as int] => *value));
                }
                CallArg::Named { name: name.clone(), value: copy_expr(value) }
            },
        };
        out.push(a);
        i = i + 1;
    }
    proof {
        assert(avs(out@) =~= avs(args@));
    }
    out
}

fn copy_arms(parent: &Expr, arms: &Vec<MatchArm>) -> (r: Vec<MatchArm>)
    requires
        decreases_to!(*parent => *arms),
    ensures
        mvs(r@) == mvs(arms@),
    decreases parent, 0int,
{
    let mut out: Vec<MatchArm> = Vec::new();
    let mut i: usize = 0;
    while i < arms.len()
        invariant
            decreases_to!(*parent => *arms),
            i <= arms@.len(),
            out@.len() == i,
            forall|j: int|
                0 <= j < i ==> (#[trigger] out@[j]).pattern@ == arms@[j].pattern@ && ev(
                    out@[j].value,
                ) == ev(arms@[j].value),
        decreases arms@.len() - i,
    {
        proof {
            assert(decreases_to!(arms@[i as int] => arms@[i as int].value));
            assert(decreases_to!(arms@ => arms@[i as int]));
            assert(decreases_to!(*arms => arms@));
        }
        let a = &arms[i];
        out.push(MatchArm { pattern: a.pattern.clone(), value: copy_expr(&a.value) });
        i = i + 1;
    }
    proof {
        assert(mvs(out@) =~= mvs(arms@));
    }
    out
}

} // verus!
