//! Splitting a source file into top-level definitions.
use vstd::prelude::*;
use crate::parser::{diag, expr_text_spec, lemma_dvs_assoc_pub, parse_expr_text};
use crate::syntax::{
    dv, dvs, ev, line_end, lemma_line_end_bounds, DiagV, Definition, Expr, ExprV, ParsedModule,
    SourceFile, SourceSpan, SyntaxDiagnostic,
};
use crate::text::{
    byte_len, char_is_alnum, char_is_whitespace, char_len_utf8, chars_of, is_name_char, is_ws,
    lemma_byte_len_concat, lemma_byte_len_take_mono, lemma_byte_len_take_step, range_eq_str,
    string_of_range,
};

verus! {

// ---------------------------------------------------------------------------
// Character-range helpers
// ---------------------------------------------------------------------------

/// The first position in `[i, j)` that holds `c`, or `j`.
pub open spec fn find_from(s: Seq<char>, c: char, i: int, j: int) -> int
    decreases j - i,
{
    if i < j && s[i] != c {
        find_from(s, c, i + 1, j)
    } else {
        i
    }
}

/// The first position in `[i, j)` that is not whitespace, or `j`.
pub open spec fn trim_start_at(s: Seq<char>, i: int, j: int) -> int
    decreases j - i,
{
    if i < j && is_ws(s[i]) {
        trim_start_at(s, i + 1, j)
    } else {
        i
    }
}

/// The end of `[i, j)` once trailing whitespace is removed.
pub open spec fn trim_end_at(s: Seq<char>, i: int, j: int) -> int
    decreases j - i,
{
    if i < j && is_ws(s[j - 1]) {
        trim_end_at(s, i, j - 1)
    } else {
        j
    }
}

pub open spec fn all_name_chars(s: Seq<char>, i: int, j: int) -> bool {
    forall|k: int| i <= k < j ==> is_name_char(#[trigger] s[k])
}

/// Bytes of the characters in `[i, j)`.
pub open spec fn bl(s: Seq<char>, i: int, j: int) -> nat {
    byte_len(s.subrange(i, j))
}

pub proof fn lemma_find_from(s: Seq<char>, c: char, i: int, j: int)
    requires
        0 <= i <= j <= s.len(),
    ensures
        i <= find_from(s, c, i, j) <= j,
        find_from(s, c, i, j) < j ==> s[find_from(s, c, i, j)] == c,
    decreases j - i,
{
    if i < j && s[i] != c {
        lemma_find_from(s, c, i + 1, j);
    }
}

pub proof fn lemma_trim_start(s: Seq<char>, i: int, j: int)
    requires
        0 <= i <= j <= s.len(),
    ensures
        i <= trim_start_at(s, i, j) <= j,
    decreases j - i,
{
    if i < j && is_ws(s[i]) {
        lemma_trim_start(s, i + 1, j);
    }
}

pub proof fn lemma_trim_end(s: Seq<char>, i: int, j: int)
    requires
        0 <= i <= j <= s.len(),
    ensures
        i <= trim_end_at(s, i, j) <= j,
    decreases j - i,
{
    if i < j && is_ws(s[j - 1]) {
        lemma_trim_end(s, i, j - 1);
    }
}

/// Bytes of `[i, j)` split at `k`.
pub proof fn lemma_bl_split(s: Seq<char>, i: int, k: int, j: int)
    requires
        0 <= i <= k <= j <= s.len(),
    ensures
        bl(s, i, j) == bl(s, i, k) + bl(s, k, j),
{
    assert(s.subrange(i, j) =~= s.subrange(i, k) + s.subrange(k, j));
    lemma_byte_len_concat(s.subrange(i, k), s.subrange(k, j));
}

pub proof fn lemma_bl_bound(s: Seq<char>, i: int, j: int)
    requires
        0 <= i <= j <= s.len(),
    ensures
        bl(s, i, j) <= byte_len(s),
        bl(s, 0, j) == byte_len(s.take(j)),
{
    lemma_bl_split(s, 0, i, j);
    lemma_bl_split(s, 0, j, s.len() as int);
    assert(s.subrange(0, s.len() as int) =~= s);
    assert(s.subrange(0, j) =~= s.take(j));
}

fn find_char(s: &[char], c: char, i: usize, j: usize) -> (r: usize)
    requires
        i <= j <= s@.len(),
    ensures
        r == find_from(s@, c, i as int, j as int),
        i <= r <= j,
{
    let mut k = i;
    while k < j && s[k] != c
        invariant
            i <= k <= j <= s@.len(),
            find_from(s@, c, k as int, j as int) == find_from(s@, c, i as int, j as int),
        decreases j - k,
    {
        k = k + 1;
    }
    k
}

pub(crate) fn find_char_pub(s: &[char], c: char, i: usize, j: usize) -> (r: usize)
    requires
        i <= j <= s@.len(),
    ensures
        r == find_from(s@, c, i as int, j as int),
        i <= r <= j,
{
    find_char(s, c, i, j)
}

pub(crate) fn trim_start(s: &[char], i: usize, j: usize) -> (r: usize)
    requires
        i <= j <= s@.len(),
    ensures
        r == trim_start_at(s@, i as int, j as int),
        i <= r <= j,
{
    let mut k = i;
    while k < j && char_is_whitespace(s[k])
        invariant
            i <= k <= j <= s@.len(),
            trim_start_at(s@, k as int, j as int) == trim_start_at(s@, i as int, j as int),
        decreases j - k,
    {
        k = k + 1;
    }
    k
}

pub(crate) fn trim_end(s: &[char], i: usize, j: usize) -> (r: usize)
    requires
        i <= j <= s@.len(),
    ensures
        r == trim_end_at(s@, i as int, j as int),
        i <= r <= j,
{
    let mut k = j;
    while i < k && char_is_whitespace(s[k - 1])
        invariant
            i <= k <= j <= s@.len(),
            trim_end_at(s@, i as int, k as int) == trim_end_at(s@, i as int, j as int),
        decreases k - i,
    {
        k = k - 1;
    }
    k
}

fn all_names(s: &[char], i: usize, j: usize) -> (r: bool)
    requires
        i <= j <= s@.len(),
    ensures
        r == all_name_chars(s@, i as int, j as int),
{
    let mut k = i;
    while k < j
        invariant
            i <= k <= j <= s@.len(),
            all_name_chars(s@, i as int, k as int),
        decreases j - k,
    {
        if !(char_is_alnum(s[k]) || s[k] == '_') {
            return false;
        }
        k = k + 1;
    }
    true
}

/// Bytes of `s[i..j]`.
fn bytes_between(s: &[char], i: usize, j: usize) -> (r: usize)
    requires
        i <= j <= s@.len(),
        byte_len(s@) <= usize::MAX,
    ensures
        r == bl(s@, i as int, j as int),
{
    let mut k = i;
    let mut b: usize = 0;
    proof {
        assert(s@.subrange(i as int, i as int) =~= Seq::<char>::empty());
    }
    while k < j
        invariant
            i <= k <= j <= s@.len(),
            byte_len(s@) <= usize::MAX,
            b == bl(s@, i as int, k as int),
        decreases j - k,
    {
        proof {
            lemma_bl_split(s@, i as int, k as int, k + 1);
            assert(s@.subrange(k as int, k + 1) =~= seq![s@[k as int]]);
            crate::text::lemma_byte_len_push(Seq::<char>::empty(), s@[k as int]);
            assert(Seq::<char>::empty().push(s@[k as int]) =~= seq![s@[k as int]]);
            lemma_bl_split(s@, i as int, k + 1, j as int);
            lemma_bl_bound(s@, i as int, j as int);
        }
        b = b + char_len_utf8(s[k]);
        k = k + 1;
    }
    b
}

// ---------------------------------------------------------------------------
// Definition starts
// ---------------------------------------------------------------------------

/// `name:` at the start of a trimmed line: a nonempty name of ASCII letters,
/// digits and underscores before the first colon.
pub open spec fn value_label_ok(s: Seq<char>, a: int, b: int) -> bool {
    let colon = find_from(s, ':', a, b);
    colon < b && {
        let ns = trim_start_at(s, a, colon);
        let ne = trim_end_at(s, ns, colon);
        ns < ne && all_name_chars(s, ns, ne)
    }
}

/// `FUNCTION name(` at the start of `[a, b)`: the range of the name and the
/// position of the parenthesis.
pub open spec fn fn_name_at(s: Seq<char>, a: int, b: int) -> Option<(int, int, int)> {
    if b - a >= 9 && s.subrange(a, a + 9) == "FUNCTION "@ {
        let open = find_from(s, '(', a + 9, b);
        if open < b {
            let ns = trim_start_at(s, a + 9, open);
            let ne = trim_end_at(s, ns, open);
            if ns < ne && all_name_chars(s, ns, ne) {
                Some((ns, ne, open))
            } else {
                None
            }
        } else {
            None
        }
    } else {
        None
    }
}

/// Whether the line `[a, b)` starts a definition: it is not indented by a
/// space and its trimmed text starts with a label or a function header.
pub open spec fn line_qualifies(t: Seq<char>, a: int, b: int) -> bool {
    let ts = trim_start_at(t, a, b);
    let te = trim_end_at(t, ts, b);
    ts < te && t[a] != ' ' && (value_label_ok(t, ts, te) || fn_name_at(t, ts, te) is Some)
}

/// End of the content of the line that starts at `i` and ends at the line feed
/// (or text end) `k`: a carriage return before a line feed is not content.
pub open spec fn content_end(t: Seq<char>, i: int, k: int) -> int {
    if k < t.len() && i < k && t[k - 1] == '\r' {
        k - 1
    } else {
        k
    }
}

/// Byte offsets of the definition starts from line position `i` on; `off` is
/// the offset counted for that line (each line counts its content and one byte).
pub open spec fn starts_from(t: Seq<char>, i: int, off: nat) -> Seq<nat>
    decreases t.len() - i,
{
    if 0 <= i < t.len() {
        let k = find_from(t, '\n', i, t.len() as int);
        let ce = content_end(t, i, k);
        let rest = if i <= k < t.len() {
            starts_from(t, k + 1, off + bl(t, i, ce) + 1)
        } else {
            Seq::empty()
        };
        if line_qualifies(t, i, ce) {
            seq![off] + rest
        } else {
            rest
        }
    } else {
        Seq::empty()
    }
}

pub open spec fn def_starts(t: Seq<char>) -> Seq<nat> {
    starts_from(t, 0, 0)
}

pub open spec fn nats(s: Seq<usize>) -> Seq<nat> {
    s.map_values(|x: usize| x as nat)
}

fn value_label_exec(s: &[char], a: usize, b: usize) -> (r: bool)
    requires
        a <= b <= s@.len(),
    ensures
        r == value_label_ok(s@, a as int, b as int),
{
    let colon = find_char(s, ':', a, b);
    if colon >= b {
        return false;
    }
    let ns = trim_start(s, a, colon);
    let ne = trim_end(s, ns, colon);
    ns < ne && all_names(s, ns, ne)
}

fn fn_name_exec(s: &[char], a: usize, b: usize) -> (r: Option<(usize, usize, usize)>)
    requires
        a <= b <= s@.len(),
    ensures
        match fn_name_at(s@, a as int, b as int) {
            Some(x) => r matches Some(y) && y.0 == x.0 && y.1 == x.1 && y.2 == x.2,
            None => r is None,
        },
        r matches Some(x) ==> a + 9 <= x.0 < x.1 <= x.2 < b,
{
    if b - a < 9 || !range_eq_str(s, a, a + 9, "FUNCTION ") {
        return None;
    }
    let open = find_char(s, '(', a + 9, b);
    if open >= b {
        return None;
    }
    let ns = trim_start(s, a + 9, open);
    let ne = trim_end(s, ns, open);
    if ns < ne && all_names(s, ns, ne) {
        Some((ns, ne, open))
    } else {
        None
    }
}

fn line_qualifies_exec(t: &[char], a: usize, b: usize) -> (r: bool)
    requires
        a <= b <= t@.len(),
    ensures
        r == line_qualifies(t@, a as int, b as int),
{
    let ts = trim_start(t, a, b);
    let te = trim_end(t, ts, b);
    ts < te && t[a] != ' ' && (value_label_exec(t, ts, te) || fn_name_exec(t, ts, te).is_some())
}

proof fn lemma_nats_push(s: Seq<usize>, x: usize)
    ensures
        nats(s.push(x)) == nats(s).push(x as nat),
{
    assert(nats(s.push(x)) =~= nats(s).push(x as nat));
}

/// Byte offsets of the lines that start a definition.
fn definition_starts(t: &[char]) -> (starts: Vec<usize>)
    requires
        byte_len(t@) <= usize::MAX,
    ensures
        nats(starts@) == def_starts(t@),
{
    let mut starts: Vec<usize> = Vec::new();
    let mut i: usize = 0;
    let mut off: usize = 0;
    proof {
        assert(nats(starts@) =~= Seq::<nat>::empty());
        assert(t@.subrange(0, 0) =~= Seq::<char>::empty());
    }
    while i < t.len()
        invariant
            0 <= i <= t@.len(),
            byte_len(t@) <= usize::MAX,
            off <= bl(t@, 0, i as int),
            nats(starts@) + starts_from(t@, i as int, off as nat) == def_starts(t@),
        decreases t@.len() - i,
    {
        let ghost gi = i as int;
        let ghost acc = nats(starts@);
        let k = find_char(t, '\n', i, t.len());
        proof {
            lemma_find_from(t@, '\n', gi, t@.len() as int);
        }
        let ce = if k < t.len() && i < k && t[k - 1] == '\r' {
            k - 1
        } else {
            k
        };
        let q = line_qualifies_exec(t, i, ce);
        if q {
            proof {
                lemma_nats_push(starts@, off);
            }
            starts.push(off);
        }
        if k < t.len() {
            proof {
                lemma_bl_split(t@, gi, ce as int, k as int);
                lemma_bl_split(t@, 0, gi, k as int);
                lemma_bl_split(t@, 0, k as int, k + 1);
                assert(t@.subrange(k as int, k + 1) =~= seq!['\n']);
                crate::text::lemma_byte_len_push(Seq::<char>::empty(), '\n');
                assert(Seq::<char>::empty().push('\n') =~= seq!['\n']);
                crate::text::lemma_byte_len_empty();
                assert(crate::text::char_width('\n') == 1);
                assert(bl(t@, k as int, k + 1) == 1);
                lemma_bl_bound(t@, 0, k + 1);
            }
            let w = bytes_between(t, i, ce);
            let ghost old_off = off;
            off = off + w + 1;
            i = k + 1;
            proof {
                let rest = starts_from(t@, i as int, off as nat);
                if q {
                    assert(nats(starts@) + rest =~= acc + (seq![old_off as nat] + rest));
                } else {
                    assert(nats(starts@) + rest =~= acc + rest);
                }
            }
        } else {
            proof {
                lemma_bl_split(t@, 0, gi, t@.len() as int);
                if q {
                    assert(nats(starts@) + Seq::<nat>::empty() =~= acc + (seq![off as nat]
                        + Seq::<nat>::empty()));
                } else {
                    assert(nats(starts@) + Seq::<nat>::empty() =~= acc + Seq::<nat>::empty());
                }
            }
            i = t.len();
        }
    }
    proof {
        assert(nats(starts@) + Seq::<nat>::empty() =~= nats(starts@));
    }
    starts
}

// ---------------------------------------------------------------------------
// Definition headers
// ---------------------------------------------------------------------------

/// The comma-separated, trimmed, nonempty parameter names in `[a, b)`.
pub open spec fn split_params(s: Seq<char>, a: int, b: int) -> Seq<Seq<char>>
    decreases b - a,
{
    if a <= b {
        let c = find_from(s, ',', a, b);
        let ps = trim_start_at(s, a, c);
        let pe = trim_end_at(s, ps, c);
        let piece = if ps < pe {
            seq![s.subrange(ps, pe)]
        } else {
            Seq::empty()
        };
        if a <= c < b {
            piece + split_params(s, c + 1, b)
        } else {
            piece
        }
    } else {
        Seq::empty()
    }
}

/// The position of the last `}` that closes the outermost brace level in `[k, j)`.
pub open spec fn last_closing(s: Seq<char>, k: int, j: int, depth: int, last: Option<int>) -> Option<
    int,
>
    decreases j - k,
{
    if k < j {
        if s[k] == '{' {
            last_closing(s, k + 1, j, depth + 1, last)
        } else if s[k] == '}' {
            let d = depth - 1;
            last_closing(
                s,
                k + 1,
                j,
                d,
                if d == 0 {
                    Some(k)
                } else {
                    last
                },
            )
        } else {
            last_closing(s, k + 1, j, depth, last)
        }
    } else {
        last
    }
}

/// A definition header: name, parameters, kind, and where its expression text lies.
pub struct Header {
    pub name: Seq<char>,
    pub params: Seq<Seq<char>>,
    pub is_function: bool,
    pub es: int,
    pub ee: int,
    pub eoff: nat,
}

/// What reading a header yields; `panics` marks a body range that runs backwards.
pub struct HeaderOut {
    pub h: Option<Header>,
    pub d: Seq<DiagV>,
    pub panics: bool,
}

pub open spec fn span(a: nat, b: nat) -> SourceSpan {
    SourceSpan { start: a as usize, end: b as usize }
}

/// A `FUNCTION name(params) { body }` header in `[tl, be)`, where `tl` is at
/// byte `toff`.
pub open spec fn fn_header(s: Seq<char>, tl: int, be: int, toff: nat) -> HeaderOut {
    match fn_name_at(s, tl, be) {
        None => HeaderOut { h: None, d: Seq::empty(), panics: false },
        Some(x) => {
            let open = x.2;
            let close = find_from(s, ')', open + 1, be);
            if close >= be {
                HeaderOut { h: None, d: Seq::empty(), panics: false }
            } else {
                let ob = find_from(s, '{', close + 1, be);
                if ob >= be {
                    HeaderOut {
                        h: None,
                        d: seq![
                            diag(
                                "expected `{` after FUNCTION header"@,
                                span(toff, toff + bl(s, tl, close + 1)),
                            ),
                        ],
                        panics: false,
                    }
                } else {
                    let m = last_closing(s, tl, be, 0, None);
                    let cb = match m {
                        Some(c) => c,
                        None => be,
                    };
                    let d = match m {
                        Some(c) => Seq::empty(),
                        None => seq![
                            diag(
                                "expected `}` after FUNCTION body"@,
                                span(toff + bl(s, tl, ob), toff + bl(s, tl, ob) + 1),
                            ),
                        ],
                    };
                    let bs = ob + 1;
                    let bend = if cb < be {
                        cb
                    } else {
                        be
                    };
                    if bend < bs {
                        HeaderOut { h: None, d, panics: true }
                    } else {
                        HeaderOut {
                            h: Some(
                                Header {
                                    name: s.subrange(x.0, x.1),
                                    params: split_params(s, open + 1, close),
                                    is_function: true,
                                    es: bs,
                                    ee: bend,
                                    eoff: toff + bl(s, tl, bs),
                                },
                            ),
                            d,
                            panics: false,
                        }
                    }
                }
            }
        },
    }
}

/// A `name: expression` header in the block `[bs, be)` that starts at byte `start`.
pub open spec fn value_header(s: Seq<char>, bs: int, be: int, start: nat) -> Option<Header> {
    let colon = find_from(s, ':', bs, be);
    if colon < be {
        let ns = trim_start_at(s, bs, colon);
        let ne = trim_end_at(s, ns, colon);
        Some(
            Header {
                name: s.subrange(ns, ne),
                params: Seq::empty(),
                is_function: false,
                es: colon + 1,
                ee: be,
                eoff: start + bl(s, bs, colon + 1),
            },
        )
    } else {
        None
    }
}

/// The header of the block `[bs, be)`: a function header if there is a
/// complete one, else a value header.
pub open spec fn header_spec(s: Seq<char>, bs: int, be: int, start: nat) -> HeaderOut {
    let tl = trim_start_at(s, bs, be);
    let f = fn_header(s, tl, be, start + bl(s, bs, tl));
    if f.h is Some || f.panics {
        f
    } else {
        HeaderOut { h: value_header(s, bs, be, start), d: f.d, panics: false }
    }
}

/// The character position at byte offset `b`, or -1 when `b` is not the
/// offset of a character boundary.
pub open spec fn char_at_byte(s: Seq<char>, b: nat, c: int) -> int
    decreases s.len() - c,
{
    if 0 <= c <= s.len() {
        if byte_len(s.take(c)) == b {
            c
        } else if byte_len(s.take(c)) > b {
            -1
        } else if c < s.len() {
            char_at_byte(s, b, c + 1)
        } else {
            -1
        }
    } else {
        -1
    }
}

/// A definition with its strings taken as characters.
pub struct DefV {
    pub name: Seq<char>,
    pub params: Seq<Seq<char>>,
    pub is_function: bool,
    pub expr: ExprV,
    pub span: SourceSpan,
}

pub open spec fn svs(s: Seq<String>) -> Seq<Seq<char>> {
    s.map_values(|x: String| x@)
}

pub open spec fn defv(d: Definition) -> DefV {
    DefV {
        name: d.name@,
        params: svs(d.parameters@),
        is_function: d.is_function,
        expr: ev(d.expression),
        span: d.span,
    }
}

pub open spec fn defvs(s: Seq<Definition>) -> Seq<DefV> {
    s.map_values(|d: Definition| defv(d))
}

pub struct DefsOut {
    pub defs: Seq<DefV>,
    pub d: Seq<DiagV>,
    pub ok: bool,
}

/// What one definition block, from byte `start` to byte `end`, yields.
pub struct DefOne {
    pub def: Option<DefV>,
    pub d: Seq<DiagV>,
    pub ok: bool,
}

pub open spec fn one_def(t: Seq<char>, start: nat, end: nat) -> DefOne {
    let bs = char_at_byte(t, start, 0);
    let be = char_at_byte(t, end, 0);
    if bs < 0 || be < 0 || bs > be {
        DefOne { def: None, d: Seq::empty(), ok: false }
    } else {
        let h = header_spec(t, bs, be, start);
        if h.panics {
            DefOne { def: None, d: Seq::empty(), ok: false }
        } else {
            match h.h {
                None => DefOne { def: None, d: h.d, ok: true },
                Some(hv) => {
                    let ets = trim_start_at(t, hv.es, hv.ee);
                    let ete = trim_end_at(t, ets, hv.ee);
                    let x = expr_text_spec(t.subrange(ets, ete), hv.eoff + bl(t, hv.es, ets));
                    DefOne {
                        def: Some(
                            DefV {
                                name: hv.name,
                                params: hv.params,
                                is_function: hv.is_function,
                                expr: x.0,
                                span: span(start, end),
                            },
                        ),
                        d: h.d + x.1,
                        ok: true,
                    }
                },
            }
        }
    }
}

/// The definitions that start at `starts[k..]`, in order, with their diagnostics;
/// `ok` is false where slicing the text or a function body would fail.
pub open spec fn defs_from(t: Seq<char>, starts: Seq<nat>, k: int) -> DefsOut
    decreases starts.len() - k,
{
    if 0 <= k < starts.len() {
        let start = starts[k];
        let end = if k + 1 < starts.len() {
            starts[k + 1]
        } else {
            byte_len(t)
        };
        let o = one_def(t, start, end);
        if !o.ok {
            DefsOut { defs: Seq::empty(), d: Seq::empty(), ok: false }
        } else {
            let rest = defs_from(t, starts, k + 1);
            match o.def {
                None => DefsOut { defs: rest.defs, d: o.d + rest.d, ok: rest.ok },
                Some(dv) => DefsOut { defs: seq![dv] + rest.defs, d: o.d + rest.d, ok: rest.ok },
            }
        }
    } else {
        DefsOut { defs: Seq::empty(), d: Seq::empty(), ok: true }
    }
}

/// What parsing a whole text yields.
pub open spec fn parse_spec(t: Seq<char>) -> DefsOut {
    defs_from(t, def_starts(t), 0)
}

/// The texts that the parser handles without a failing slice: every definition
/// starts on a character boundary and no function body runs backwards.
pub open spec fn source_accepted(t: Seq<char>) -> bool {
    parse_spec(t).ok
}

struct HeaderE {
    name: String,
    params: Vec<String>,
    is_function: bool,
    es: usize,
    ee: usize,
    eoff: usize,
}

spec fn hv(h: HeaderE) -> Header {
    Header {
        name: h.name@,
        params: svs(h.params@),
        is_function: h.is_function,
        es: h.es as int,
        ee: h.ee as int,
        eoff: h.eoff as nat,
    }
}

proof fn lemma_svs_push(s: Seq<String>, x: String)
    ensures
        svs(s.push(x)) == svs(s).push(x@),
{
    assert(svs(s.push(x)) =~= svs(s).push(x@));
}

fn split_params_exec(t: &[char], a0: usize, b: usize) -> (r: Vec<String>)
    requires
        a0 <= b <= t@.len(),
    ensures
        svs(r@) == split_params(t@, a0 as int, b as int),
{
    let mut out: Vec<String> = Vec::new();
    let mut a = a0;
    let mut done = false;
    proof {
        assert(svs(out@) =~= Seq::<Seq<char>>::empty());
    }
    while !done
        invariant
            a0 <= a <= b <= t@.len(),
            !done ==> svs(out@) + split_params(t@, a as int, b as int) == split_params(
                t@,
                a0 as int,
                b as int,
            ),
            done ==> svs(out@) == split_params(t@, a0 as int, b as int),
        decreases b - a, if done {
            0int
        } else {
            1int
        },
    {
        let ghost acc = svs(out@);
        let c = find_char(t, ',', a, b);
        let ps = trim_start(t, a, c);
        let pe = trim_end(t, ps, c);
        let ghost piece: Seq<Seq<char>> = if ps < pe {
            seq![t@.subrange(ps as int, pe as int)]
        } else {
            Seq::empty()
        };
        if ps < pe {
            let name = string_of_range(t, ps, pe);
            proof {
                lemma_svs_push(out@, name);
            }
            out.push(name);
        }
        assert(svs(out@) == acc + piece);
        if c < b {
            proof {
                assert(svs(out@) + split_params(t@, c + 1, b as int) =~= acc + (piece
                    + split_params(t@, c + 1, b as int)));
            }
            a = c + 1;
        } else {
            done = true;
        }
    }
    out
}

fn last_closing_exec(t: &[char], k0: usize, j: usize) -> (r: Option<usize>)
    requires
        k0 <= j <= t@.len(),
    ensures
        match last_closing(t@, k0 as int, j as int, 0, None) {
            Some(c) => r == Some(c as usize) && k0 <= c < j,
            None => r is None,
        },
{
    let mut k = k0;
    let mut opens: usize = 0;
    let mut closes: usize = 0;
    let mut last: Option<usize> = None;
    while k < j
        invariant
            k0 <= k <= j <= t@.len(),
            opens + closes <= k - k0,
            last_closing(t@, k as int, j as int, opens - closes, match last {
                Some(c) => Some(c as int),
                None => None,
            }) == last_closing(t@, k0 as int, j as int, 0, None),
            last matches Some(c) ==> k0 <= c < k,
        decreases j - k,
    {
        if t[k] == '{' {
            opens = opens + 1;
        } else if t[k] == '}' {
            closes = closes + 1;
            if opens == closes {
                last = Some(k);
            }
        }
        k = k + 1;
    }
    proof {
        let lc = last_closing(t@, k0 as int, j as int, 0, None);
        if let Some(c) = lc {
            assert(last == Some(c as usize));
        }
    }
    last
}

/// The character position at byte offset `b`, if it is a character boundary.
fn char_at_byte_exec(t: &[char], b: usize) -> (r: Option<usize>)
    requires
        byte_len(t@) <= usize::MAX,
    ensures
        match r {
            Some(c) => char_at_byte(t@, b as nat, 0) == c as int && c <= t@.len()
                && byte_len(t@.take(c as int)) == b,
            None => char_at_byte(t@, b as nat, 0) < 0,
        },
{
    let mut c: usize = 0;
    let mut acc: usize = 0;
    proof {
        assert(t@.take(0) =~= Seq::<char>::empty());
        crate::text::lemma_byte_len_empty();
    }
    loop
        invariant
            0 <= c <= t@.len(),
            byte_len(t@) <= usize::MAX,
            acc == byte_len(t@.take(c as int)),
            char_at_byte(t@, b as nat, c as int) == char_at_byte(t@, b as nat, 0),
        decreases t@.len() - c,
    {
        if acc == b {
            return Some(c);
        }
        if acc > b || c >= t.len() {
            return None;
        }
        proof {
            lemma_byte_len_take_step(t@, c as int);
            lemma_byte_len_take_mono(t@, c + 1, t@.len() as int);
        }
        acc = acc + char_len_utf8(t[c]);
        c = c + 1;
    }
}

/// Offsets inside `[0, j]` stay within the text's bytes.
proof fn lemma_offsets(t: Seq<char>, tl: int, x: int)
    requires
        0 <= tl <= x <= t.len(),
    ensures
        byte_len(t.take(tl)) + bl(t, tl, x) == bl(t, 0, x),
        bl(t, 0, x) <= byte_len(t),
{
    lemma_bl_bound(t, tl, x);
    lemma_bl_bound(t, 0, x);
    lemma_bl_split(t, 0, tl, x);
}

fn fn_header_exec(
    t: &[char],
    tl: usize,
    be: usize,
    toff: usize,
    diagnostics: &mut Vec<SyntaxDiagnostic>,
) -> (r: Option<HeaderE>)
    requires
        tl <= be <= t@.len(),
        toff == byte_len(t@.take(tl as int)),
        byte_len(t@) <= usize::MAX,
        !fn_header(t@, tl as int, be as int, toff as nat).panics,
    ensures
        match fn_header(t@, tl as int, be as int, toff as nat).h {
            Some(h) => r matches Some(x) && hv(x) == h,
            None => r is None,
        },
        dvs(final(diagnostics)@) == dvs(old(diagnostics)@) + fn_header(
            t@,
            tl as int,
            be as int,
            toff as nat,
        ).d,
        r matches Some(x) ==> x.es <= x.ee <= be && 1 <= x.es && x.eoff == byte_len(
            t@.take(x.es as int),
        ),
{
    let ghost spec_out = fn_header(t@, tl as int, be as int, toff as nat);
    let name = fn_name_exec(t, tl, be);
    let (ns, ne, open) = match name {
        None => {
            proof {
                assert(dvs(diagnostics@) + Seq::<DiagV>::empty() =~= dvs(diagnostics@));
            }
            return None;
        },
        Some(x) => x,
    };
    let close = find_char(t, ')', open + 1, be);
    if close >= be {
        proof {
            assert(dvs(diagnostics@) + Seq::<DiagV>::empty() =~= dvs(diagnostics@));
        }
        return None;
    }
    let ob = find_char(t, '{', close + 1, be);
    proof {
        lemma_find_from(t@, '{', close + 1, be as int);
        lemma_find_from(t@, ')', open + 1, be as int);
    }
    if ob >= be {
        proof {
            lemma_offsets(t@, tl as int, close + 1);
        }
        let w = bytes_between(t, tl, close + 1);
        crate::syntax::push_diag_pub(
            diagnostics,
            "expected `{` after FUNCTION header".to_owned(),
            toff,
            toff + w,
        );
        return None;
    }
    let m = last_closing_exec(t, tl, be);
    let cb = match m {
        Some(c) => c,
        None => {
            proof {
                lemma_offsets(t@, tl as int, ob as int);
                lemma_offsets(t@, tl as int, ob + 1);
                lemma_bl_split(t@, tl as int, ob as int, ob + 1);
                assert(t@.subrange(ob as int, ob + 1) =~= seq!['{']);
                crate::text::lemma_byte_len_push(Seq::<char>::empty(), '{');
                assert(Seq::<char>::empty().push('{') =~= seq!['{']);
                crate::text::lemma_byte_len_empty();
                assert(crate::text::char_width('{') == 1);
            }
            let w = bytes_between(t, tl, ob);
            crate::syntax::push_diag_pub(
                diagnostics,
                "expected `}` after FUNCTION body".to_owned(),
                toff + w,
                toff + w + 1,
            );
            be
        },
    };
    proof {
        if m is Some {
            assert(dvs(diagnostics@) + Seq::<DiagV>::empty() =~= dvs(diagnostics@));
        }
    }
    let bs = ob + 1;
    let bend = if cb < be {
        cb
    } else {
        be
    };
    let params = split_params_exec(t, open + 1, close);
    let n = string_of_range(t, ns, ne);
    proof {
        lemma_offsets(t@, tl as int, bs as int);
        lemma_bl_bound(t@, 0, bs as int);
        crate::text::lemma_byte_len_ge_len(t@.take(bs as int));
    }
    let w = bytes_between(t, tl, bs);
    let h = HeaderE { name: n, params, is_function: true, es: bs, ee: bend, eoff: toff + w };
    proof {
        let sh = spec_out.h.unwrap();
        assert(hv(h).name == sh.name);
        assert(hv(h).params == sh.params);
        assert(hv(h).es == sh.es);
        assert(hv(h).ee == sh.ee);
        assert(hv(h).eoff == sh.eoff);
    }
    Some(h)
}

fn read_header(
    t: &[char],
    bs: usize,
    be: usize,
    start: usize,
    diagnostics: &mut Vec<SyntaxDiagnostic>,
) -> (r: Option<HeaderE>)
    requires
        bs <= be <= t@.len(),
        start == byte_len(t@.take(bs as int)),
        byte_len(t@) <= usize::MAX,
        !header_spec(t@, bs as int, be as int, start as nat).panics,
    ensures
        match header_spec(t@, bs as int, be as int, start as nat).h {
            Some(h) => r matches Some(x) && hv(x) == h,
            None => r is None,
        },
        dvs(final(diagnostics)@) == dvs(old(diagnostics)@) + header_spec(
            t@,
            bs as int,
            be as int,
            start as nat,
        ).d,
        r matches Some(x) ==> x.es <= x.ee <= t@.len() && 1 <= x.es && x.eoff == byte_len(
            t@.take(x.es as int),
        ),
{
    let tl = trim_start(t, bs, be);
    proof {
        lemma_offsets(t@, bs as int, tl as int);
        lemma_bl_bound(t@, 0, tl as int);
        lemma_bl_bound(t@, 0, bs as int);
    }
    let lead = bytes_between(t, bs, tl);
    let f = fn_header_exec(t, tl, be, start + lead, diagnostics);
    if f.is_some() {
        return f;
    }
    let colon = find_char(t, ':', bs, be);
    if colon >= be {
        return None;
    }
    let ns = trim_start(t, bs, colon);
    let ne = trim_end(t, ns, colon);
    proof {
        lemma_offsets(t@, bs as int, colon + 1);
        lemma_bl_bound(t@, 0, colon + 1);
        crate::text::lemma_byte_len_ge_len(t@.take(colon + 1));
    }
    let w = bytes_between(t, bs, colon + 1);
    let h = HeaderE {
        name: string_of_range(t, ns, ne),
        params: Vec::new(),
        is_function: false,
        es: colon + 1,
        ee: be,
        eoff: start + w,
    };
    proof {
        assert(svs(h.params@) =~= Seq::<Seq<char>>::empty());
    }
    Some(h)
}

proof fn lemma_defvs_push(s: Seq<Definition>, d: Definition)
    ensures
        defvs(s.push(d)) == defvs(s).push(defv(d)),
{
    assert(defvs(s.push(d)) =~= defvs(s).push(defv(d)));
}

/// Reads the definition in the block from byte `start` to byte `end`.
fn definition_at(
    t: &Vec<char>,
    start: usize,
    end: usize,
    diagnostics: Vec<SyntaxDiagnostic>,
) -> (r: (Option<Definition>, Vec<SyntaxDiagnostic>))
    requires
        byte_len(t@) <= usize::MAX,
        one_def(t@, start as nat, end as nat).ok,
    ensures
        match one_def(t@, start as nat, end as nat).def {
            Some(d) => r.0 matches Some(x) && defv(x) == d,
            None => r.0 is None,
        },
        dvs(r.1@) == dvs(diagnostics@) + one_def(t@, start as nat, end as nat).d,
{
    let mut diagnostics = diagnostics;
    let bs = char_at_byte_exec(t.as_slice(), start).unwrap();
    let be = char_at_byte_exec(t.as_slice(), end).unwrap();
    let ghost hs = header_spec(t@, bs as int, be as int, start as nat);
    let ghost d0 = dvs(diagnostics@);
    let h = read_header(t.as_slice(), bs, be, start, &mut diagnostics);
    match h {
        None => (None, diagnostics),
        Some(hd) => {
            let ets = trim_start(t.as_slice(), hd.es, hd.ee);
            let ete = trim_end(t.as_slice(), ets, hd.ee);
            proof {
                lemma_offsets(t@, hd.es as int, ets as int);
                lemma_bl_bound(t@, 0, hd.es as int);
                lemma_bl_bound(t@, 0, ets as int);
                lemma_bl_split(t@, 0, ets as int, ete as int);
                lemma_bl_bound(t@, 0, ete as int);
                crate::text::lemma_byte_len_ge_len(t@.take(hd.es as int));
            }
            let lead = bytes_between(t.as_slice(), hd.es, ets);
            let sub = crate::text::copy_range(t.as_slice(), ets, ete);
            let base = hd.eoff + lead;
            let (e, d2) = parse_expr_text(sub, base, diagnostics);
            proof {
                let x = expr_text_spec(
                    t@.subrange(ets as int, ete as int),
                    (hd.eoff + bl(t@, hd.es as int, ets as int)) as nat,
                );
                lemma_dvs_assoc_pub(d0, hs.d, x.1);
            }
            let def = Definition {
                name: hd.name,
                parameters: hd.params,
                is_function: hd.is_function,
                expression: e,
                span: SourceSpan { start, end },
            };
            (Some(def), d2)
        },
    }
}

/// Parses a source file into its top-level definitions.
///
/// A definition starts at a line that is not indented by a space and whose
/// trimmed text begins with `name:` or `FUNCTION name(`; it runs up to the next
/// such line. Its expression is parsed on its own; problems are reported as
/// diagnostics, in the order in which they are found.
#[verifier::rlimit(50)]
#[verifier::spinoff_prover]
pub fn parse_source(path: &str, text: &str) -> (m: ParsedModule)
    requires
        byte_len(text@) <= usize::MAX,
        source_accepted(text@),
    ensures
        m.source.path@ == path@,
        m.source.text@ == text@,
        defvs(m.definitions@) == parse_spec(text@).defs,
        dvs(m.diagnostics@) == parse_spec(text@).d,
{
    let t = chars_of(text);
    let total = text.len();
    assert(total == byte_len(t@));
    let starts = definition_starts(t.as_slice());
    let ghost sts = def_starts(t@);
    let ghost full = defs_from(t@, sts, 0);
    let mut definitions: Vec<Definition> = Vec::new();
    let mut diagnostics: Vec<SyntaxDiagnostic> = Vec::new();
    let mut k: usize = 0;
    proof {
        assert(defvs(definitions@) =~= Seq::<DefV>::empty());
        assert(dvs(diagnostics@) =~= Seq::<DiagV>::empty());
        assert(Seq::<DefV>::empty() + full.defs =~= full.defs);
        assert(Seq::<DiagV>::empty() + full.d =~= full.d);
    }
    while k < starts.len()
        invariant
            0 <= k <= starts@.len(),
            nats(starts@) == sts,
            sts == def_starts(t@),
            full == defs_from(t@, sts, 0),
            byte_len(t@) == total,
            defs_from(t@, sts, k as int).ok,
            defvs(definitions@) + defs_from(t@, sts, k as int).defs == full.defs,
            dvs(diagnostics@) + defs_from(t@, sts, k as int).d == full.d,
        decreases starts@.len() - k,
    {
        let ghost gk = k as int;
        let ghost acc_defs = defvs(definitions@);
        let ghost acc_d = dvs(diagnostics@);
        let start = starts[k];
        let end = if k + 1 < starts.len() {
            starts[k + 1]
        } else {
            total
        };
        assert(sts[gk] == start as nat);
        assert(k + 1 < starts@.len() ==> sts[gk + 1] == end as nat);
        let ghost o = one_def(t@, start as nat, end as nat);
        let ghost rest = defs_from(t@, sts, gk + 1);
        let (def, d2) = definition_at(&t, start, end, diagnostics);
        diagnostics = d2;
        match def {
            None => {
                proof {
                    assert(dvs(diagnostics@) + rest.d =~= acc_d + (o.d + rest.d));
                }
            },
            Some(d) => {
                proof {
                    lemma_defvs_push(definitions@, d);
                }
                definitions.push(d);
                proof {
                    assert(defvs(definitions@) + rest.defs =~= acc_defs + (seq![defv(d)]
                        + rest.defs));
                    assert(dvs(diagnostics@) + rest.d =~= acc_d + (o.d + rest.d));
                }
            },
        }
        k = k + 1;
    }
    proof {
        assert(defvs(definitions@) + Seq::<DefV>::empty() =~= defvs(definitions@));
        assert(dvs(diagnostics@) + Seq::<DiagV>::empty() =~= dvs(diagnostics@));
    }
    ParsedModule {
        source: SourceFile { path: path.to_owned(), text: text.to_owned() },
        definitions,
        diagnostics,
    }
}

/// Whether reading a function header in `[tl, be)` finds a body range that
/// runs backwards; where the header starts does not matter.
fn header_runs_backwards(t: &[char], tl: usize, be: usize, Ghost(toff): Ghost<nat>) -> (r: bool)
    requires
        tl <= be <= t@.len(),
    ensures
        r == fn_header(t@, tl as int, be as int, toff).panics,
{
    let (_, _, open) = match fn_name_exec(t, tl, be) {
        None => {
            return false;
        },
        Some(x) => x,
    };
    let close = find_char(t, ')', open + 1, be);
    if close >= be {
        return false;
    }
    let ob = find_char(t, '{', close + 1, be);
    if ob >= be {
        return false;
    }
    let cb = match last_closing_exec(t, tl, be) {
        Some(c) => c,
        None => be,
    };
    let bend = if cb < be {
        cb
    } else {
        be
    };
    bend < ob + 1
}

/// Whether the parser handles a text without a failing slice: every
/// definition block starts and ends on a character boundary, in order, and
/// no function body runs backwards.
pub fn accepts_source(text: &str) -> (r: bool)
    requires
        byte_len(text@) <= usize::MAX,
    ensures
        r == source_accepted(text@),
{
    let t = chars_of(text);
    let total = text.len();
    assert(total == byte_len(t@));
    let starts = definition_starts(t.as_slice());
    let ghost sts = def_starts(t@);
    let mut k: usize = starts.len();
    assert(defs_from(t@, sts, k as int).ok);
    while k > 0
        invariant
            0 <= k <= starts@.len(),
            nats(starts@) == sts,
            sts == def_starts(t@),
            byte_len(t@) == total,
            t@ == text@,
            forall|j: int| k <= j <= starts@.len() ==> #[trigger] defs_from(t@, sts, j).ok,
        decreases k,
    {
        k = k - 1;
        let start = starts[k];
        let end = if k + 1 < starts.len() {
            starts[k + 1]
        } else {
            total
        };
        assert(sts[k as int] == start as nat);
        assert(k + 1 < starts@.len() ==> sts[k + 1] == end as nat);
        let ghost o = one_def(t@, start as nat, end as nat);
        let ok = match (char_at_byte_exec(t.as_slice(), start), char_at_byte_exec(t.as_slice(), end)) {
            (Some(bs), Some(be)) => {
                if bs > be {
                    false
                } else {
                    let tl = trim_start(t.as_slice(), bs, be);
                    let ghost toff = (start + bl(t@, bs as int, tl as int)) as nat;
                    let back = header_runs_backwards(t.as_slice(), tl, be, Ghost(toff));
                    proof {
                        let f = fn_header(t@, tl as int, be as int, toff);
                        assert(header_spec(t@, bs as int, be as int, start as nat).panics == f.panics);
                    }
                    !back
                }
            },
            _ => false,
        };
        assert(ok == o.ok);
        if !ok {
            proof {
                assert(!defs_from(t@, sts, k as int).ok);
                lemma_defs_from_fails(t@, sts, k as int);
            }
            return false;
        }
        proof {
            assert(defs_from(t@, sts, k as int).ok == defs_from(t@, sts, k + 1).ok);
        }
    }
    true
}

proof fn lemma_defs_from_fails(t: Seq<char>, starts: Seq<nat>, k: int)
    requires
        0 <= k,
        !defs_from(t, starts, k).ok,
    ensures
        !defs_from(t, starts, 0).ok,
    decreases k,
{
    if k > 0 {
        let p = k - 1;
        if p < starts.len() && one_def(t, starts[p], if p + 1 < starts.len() { starts[p + 1] } else { byte_len(t) }).ok {
            assert(defs_from(t, starts, p).ok == defs_from(t, starts, k).ok);
        }
        lemma_defs_from_fails(t, starts, p);
    }
}


proof fn lemma_starts_bounds(t: Seq<char>, i: int, off: nat)
    requires
        0 <= i <= t.len(),
        off <= bl(t, 0, i),
    ensures
        forall|a: int| 0 <= a < starts_from(t, i, off).len() ==> off <= #[trigger] starts_from(t, i, off)[a]
            && starts_from(t, i, off)[a] < byte_len(t),
        forall|a: int, b: int|
            0 <= a < b < starts_from(t, i, off).len() ==> #[trigger] starts_from(t, i, off)[a]
                < #[trigger] starts_from(t, i, off)[b],
    decreases t.len() - i,
{
    let ss = starts_from(t, i, off);
    if i < t.len() {
        let n = t.len() as int;
        let k = find_from(t, '\n', i, n);
        lemma_find_from(t, '\n', i, n);
        let ce = content_end(t, i, k);
        lemma_bl_split(t, 0, i, n);
        crate::text::lemma_byte_len_ge_len(t.subrange(i, n));
        assert(t.subrange(0, n) =~= t);
        if k < n {
            let off2 = off + bl(t, i, ce) + 1;
            lemma_bl_split(t, 0, i, k + 1);
            lemma_bl_split(t, i, ce, k + 1);
            lemma_bl_split(t, ce, k, k + 1);
            crate::text::lemma_byte_len_ge_len(t.subrange(k, k + 1));
            lemma_starts_bounds(t, k + 1, off2);
        }
        let rest = if i <= k < n {
            starts_from(t, k + 1, off + bl(t, i, ce) + 1)
        } else {
            Seq::<nat>::empty()
        };
        if line_qualifies(t, i, ce) {
            assert(ss == seq![off] + rest);
            assert forall|a: int| 0 <= a < ss.len() implies off <= #[trigger] ss[a] && ss[a] < byte_len(t) by {
                if a > 0 {
                    assert(ss[a] == rest[a - 1]);
                }
            }
            assert forall|a: int, b: int| 0 <= a < b < ss.len() implies #[trigger] ss[a] < #[trigger] ss[b] by {
                assert(ss[b] == rest[b - 1]);
                if a > 0 {
                    assert(ss[a] == rest[a - 1]);
                }
            }
        } else {
            assert(ss == rest);
        }
    }
}

proof fn lemma_defs_spans(t: Seq<char>, starts: Seq<nat>, k: int)
    requires
        0 <= k,
        byte_len(t) <= usize::MAX,
        forall|a: int| 0 <= a < starts.len() ==> #[trigger] starts[a] < byte_len(t),
        forall|a: int, b: int| 0 <= a < b < starts.len() ==> #[trigger] starts[a] < #[trigger] starts[b],
    ensures
        ({
            let ds = defs_from(t, starts, k).defs;
            &&& forall|a: int|
                0 <= a < ds.len() ==> starts[k] <= (#[trigger] ds[a]).span.start < ds[a].span.end <= byte_len(t)
            &&& forall|a: int, b: int|
                0 <= a < b < ds.len() ==> (#[trigger] ds[a]).span.end <= (#[trigger] ds[b]).span.start
        }),
    decreases starts.len() - k,
{
    let ds = defs_from(t, starts, k).defs;
    if 0 <= k < starts.len() {
        let start = starts[k];
        let end = if k + 1 < starts.len() {
            starts[k + 1]
        } else {
            byte_len(t)
        };
        let o = one_def(t, start, end);
        if o.ok {
            lemma_defs_spans(t, starts, k + 1);
            let rest = defs_from(t, starts, k + 1).defs;
            match o.def {
                None => {
                    assert(ds == rest);
                    if k + 1 < starts.len() {
                        assert(starts[k] < starts[k + 1]);
                    }
                },
                Some(dv) => {
                    assert(ds == seq![dv] + rest);
                    assert(dv.span == span(start, end));
                    assert(dv.span.start == start && dv.span.end == end);
                    if k + 1 < starts.len() {
                        assert(starts[k] < starts[k + 1]);
                    } else {
                        assert(rest.len() == 0);
                    }
                    assert forall|a: int| 0 <= a < ds.len() implies starts[k] <= (#[trigger] ds[a]).span.start
                        < ds[a].span.end <= byte_len(t) by {
                        if a > 0 {
                            assert(ds[a] == rest[a - 1]);
                        }
                    }
                    assert forall|a: int, b: int| 0 <= a < b < ds.len() implies (#[trigger] ds[a]).span.end
                        <= (#[trigger] ds[b]).span.start by {
                        assert(ds[b] == rest[b - 1]);
                        if a > 0 {
                            assert(ds[a] == rest[a - 1]);
                        }
                    }
                },
            }
        }
    }
}

/// The definitions of a text come in text order, each spanning a nonempty
/// range of bytes within the text, and no two overlap.
pub proof fn lemma_definition_spans(t: Seq<char>)
    requires
        byte_len(t) <= usize::MAX,
    ensures
        ({
            let ds = parse_spec(t).defs;
            &&& forall|a: int|
                0 <= a < ds.len() ==> (#[trigger] ds[a]).span.start < ds[a].span.end <= byte_len(t)
            &&& forall|a: int, b: int|
                0 <= a < b < ds.len() ==> (#[trigger] ds[a]).span.end <= (#[trigger] ds[b]).span.start
        }),
{
    lemma_starts_bounds(t, 0, 0);
    lemma_defs_spans(t, def_starts(t), 0);
}

} // verus!
