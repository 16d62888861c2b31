//! Character-level helpers shared by the front end.
use vstd::prelude::*;
use vstd::utf8::*;

verus! {

/// Bytes that a character takes in UTF-8.
pub open spec fn char_width(c: char) -> nat {
    encode_scalar(c as u32).len()
}

/// Bytes that a character sequence takes in UTF-8.
pub open spec fn byte_len(s: Seq<char>) -> nat {
    encode_utf8(s).len()
}

pub proof fn lemma_byte_len_empty()
    ensures
        byte_len(Seq::<char>::empty()) == 0,
{
}

/// Byte length is additive over concatenation.
pub proof fn lemma_byte_len_concat(a: Seq<char>, b: Seq<char>)
    ensures
        byte_len(a + b) == byte_len(a) + byte_len(b),
    decreases a.len(),
{
    if a.len() == 0 {
        assert(a + b =~= b);
    } else {
        assert((a + b).drop_first() =~= a.drop_first() + b);
        lemma_byte_len_concat(a.drop_first(), b);
    }
}

pub proof fn lemma_byte_len_push(s: Seq<char>, c: char)
    ensures
        byte_len(s.push(c)) == byte_len(s) + char_width(c),
{
    assert(s.push(c) =~= s + seq![c]);
    lemma_byte_len_concat(s, seq![c]);
    assert(seq![c].drop_first() =~= Seq::<char>::empty());
    assert(encode_utf8(Seq::<char>::empty()) =~= Seq::<u8>::empty());
    assert(encode_utf8(seq![c]) =~= encode_scalar(c as u32) + encode_utf8(Seq::<char>::empty()));
}

/// Prefix byte lengths grow with the prefix.
pub proof fn lemma_byte_len_take_mono(s: Seq<char>, i: int, j: int)
    requires
        0 <= i <= j <= s.len(),
    ensures
        byte_len(s.take(i)) <= byte_len(s.take(j)),
        byte_len(s.take(j)) <= byte_len(s),
{
    assert(s.take(j) =~= s.take(i) + s.subrange(i, j));
    lemma_byte_len_concat(s.take(i), s.subrange(i, j));
    assert(s =~= s.take(j) + s.skip(j));
    lemma_byte_len_concat(s.take(j), s.skip(j));
}

/// Every character takes at least one byte.
pub proof fn lemma_byte_len_ge_len(s: Seq<char>)
    ensures
        byte_len(s) >= s.len(),
    decreases s.len(),
{
    if s.len() > 0 {
        lemma_byte_len_ge_len(s.drop_first());
    }
}

/// One step of prefix byte lengths.
pub proof fn lemma_byte_len_take_step(s: Seq<char>, i: int)
    requires
        0 <= i < s.len(),
    ensures
        byte_len(s.take(i + 1)) == byte_len(s.take(i)) + char_width(s[i]),
{
    assert(s.take(i + 1) =~= s.take(i).push(s[i]));
    lemma_byte_len_push(s.take(i), s[i]);
}

/// `char::len_utf8`.
pub fn char_len_utf8(c: char) -> (n: usize)
    ensures
        n == char_width(c),
        1 <= n <= 4,
{
    proof {
        char_is_scalar(c);
    }
    let v = c as u32;
    if v <= 0x7F {
        1
    } else if v <= 0x7FF {
        2
    } else if v <= 0xFFFF {
        3
    } else {
        4
    }
}

/// `char::is_whitespace`: the Unicode White_Space property.
pub open spec fn is_ws(c: char) -> bool {
    let v = c as u32;
    ||| 0x09 <= v <= 0x0D
    ||| v == 0x20
    ||| v == 0x85
    ||| v == 0xA0
    ||| v == 0x1680
    ||| 0x2000 <= v <= 0x200A
    ||| v == 0x2028
    ||| v == 0x2029
    ||| v == 0x202F
    ||| v == 0x205F
    ||| v == 0x3000
}

pub fn char_is_whitespace(c: char) -> (b: bool)
    ensures
        b == is_ws(c),
{
    let v = c as u32;
    (0x09 <= v && v <= 0x0D) || v == 0x20 || v == 0x85 || v == 0xA0 || v == 0x1680 || (0x2000
        <= v && v <= 0x200A) || v == 0x2028 || v == 0x2029 || v == 0x202F || v == 0x205F || v
        == 0x3000
}

pub open spec fn is_digit(c: char) -> bool {
    '0' <= c <= '9'
}

pub open spec fn is_alpha(c: char) -> bool {
    ('a' <= c <= 'z') || ('A' <= c <= 'Z')
}

pub open spec fn is_alnum(c: char) -> bool {
    is_digit(c) || is_alpha(c)
}

/// A name character: ASCII letter, digit or underscore.
pub open spec fn is_name_char(c: char) -> bool {
    is_alnum(c) || c == '_'
}

pub fn char_is_digit(c: char) -> (b: bool)
    ensures
        b == is_digit(c),
{
    '0' <= c && c <= '9'
}

pub fn char_is_alpha(c: char) -> (b: bool)
    ensures
        b == is_alpha(c),
{
    ('a' <= c && c <= 'z') || ('A' <= c && c <= 'Z')
}

pub fn char_is_alnum(c: char) -> (b: bool)
    ensures
        b == is_alnum(c),
{
    char_is_digit(c) || char_is_alpha(c)
}

/// `char::to_ascii_uppercase`.
pub open spec fn upper(c: char) -> char {
    if 'a' <= c <= 'z' {
        ((c as u32) - 32) as char
    } else {
        c
    }
}

pub fn char_to_upper(c: char) -> (r: char)
    ensures
        r == upper(c),
{
    if 'a' <= c && c <= 'z' {
        ((c as u8) - 32) as char
    } else {
        c
    }
}

/// `String::push`: appends one character.
#[verifier::external_body]
pub(crate) fn push_char(s: &mut String, c: char)
    ensures
        final(s)@ == old(s)@.push(c),
{
    s.push(c);
}

/// Appends one character.
pub fn push_char_pub(s: &mut String, c: char)
    ensures
        final(s)@ == old(s)@.push(c),
{
    push_char(s, c);
}

/// The characters of a string, in order.
pub fn chars_of(s: &str) -> (v: Vec<char>)
    ensures
        v@ == s@,
{
    let mut v: Vec<char> = Vec::new();
    for c in it: s.chars()
        invariant
            v@ == it.seq().take(it.index()),
            it.seq() == s@,
    {
        v.push(c);
    }
    v
}

/// Appends characters to a string.
pub fn push_chars(s: &mut String, v: &[char])
    ensures
        final(s)@ == old(s)@ + v@,
{
    let ghost start = s@;
    let mut i: usize = 0;
    while i < v.len()
        invariant
            0 <= i <= v.len(),
            s@ == start + v@.take(i as int),
        decreases v.len() - i,
    {
        push_char(s, v[i]);
        i = i + 1;
        assert(v@.take(i as int) =~= v@.take(i - 1).push(v@[i - 1]));
    }
    assert(v@.take(v.len() as int) =~= v@);
}

/// Appends a string slice.
pub fn push_str(s: &mut String, t: &str)
    ensures
        final(s)@ == old(s)@ + t@,
{
    let v = chars_of(t);
    push_chars(s, v.as_slice());
}

/// A string holding the given characters.
pub fn string_of(v: &[char]) -> (s: String)
    ensures
        s@ == v@,
{
    let mut s = String::new();
    push_chars(&mut s, v);
    assert(Seq::<char>::empty() + v@ =~= v@);
    s
}

/// A string holding `v[from..to]`.
pub fn string_of_range(v: &[char], from: usize, to: usize) -> (s: String)
    requires
        from <= to <= v@.len(),
    ensures
        s@ == v@.subrange(from as int, to as int),
{
    let mut s = String::new();
    let mut i = from;
    while i < to
        invariant
            from <= i <= to <= v@.len(),
            s@ == v@.subrange(from as int, i as int),
        decreases to - i,
    {
        push_char(&mut s, v[i]);
        i = i + 1;
        assert(v@.subrange(from as int, i as int) =~= v@.subrange(from as int, i - 1).push(
            v@[i - 1],
        ));
    }
    s
}

/// A copy of `v[from..to]`.
pub fn copy_range(v: &[char], from: usize, to: usize) -> (r: Vec<char>)
    requires
        from <= to <= v@.len(),
    ensures
        r@ == v@.subrange(from as int, to as int),
{
    let mut r: Vec<char> = Vec::new();
    let mut i = from;
    while i < to
        invariant
            from <= i <= to <= v@.len(),
            r@ == v@.subrange(from as int, i as int),
        decreases to - i,
    {
        r.push(v[i]);
        i = i + 1;
        assert(v@.subrange(from as int, i as int) =~= v@.subrange(from as int, i - 1).push(
            v@[i - 1],
        ));
    }
    r
}

/// A copy of a string.
pub fn copy_string(s: &String) -> (r: String)
    ensures
        r@ == s@,
{
    s.clone()
}

/// Equality of two character slices.
pub fn chars_eq(a: &[char], b: &[char]) -> (r: bool)
    ensures
        r == (a@ == b@),
{
    if a.len() != b.len() {
        return false;
    }
    let mut i: usize = 0;
    while i < a.len()
        invariant
            a@.len() == b@.len(),
            0 <= i <= a@.len(),
            forall|j: int| 0 <= j < i ==> a@[j] == b@[j],
        decreases a.len() - i,
    {
        if a[i] != b[i] {
            return false;
        }
        i = i + 1;
    }
    assert(a@ =~= b@);
    true
}

/// Whether `v[from..to]` spells the string `lit`.
pub fn range_eq_str(v: &[char], from: usize, to: usize, lit: &str) -> (r: bool)
    requires
        from <= to <= v@.len(),
    ensures
        r == (v@.subrange(from as int, to as int) == lit@),
{
    let l = chars_of(lit);
    if to - from != l.len() {
        return false;
    }
    let mut i: usize = 0;
    while i < l.len()
        invariant
            from <= to <= v@.len(),
            to - from == l@.len(),
            l@ == lit@,
            0 <= i <= l@.len(),
            forall|j: int| 0 <= j < i ==> v@[from + j] == l@[j],
        decreases l.len() - i,
    {
        if v[from + i] != l[i] {
            assert(v@.subrange(from as int, to as int)[i as int] != lit@[i as int]);
            return false;
        }
        i = i + 1;
    }
    assert(v@.subrange(from as int, to as int) =~= lit@);
    true
}

/// Whether two strings are equal.
pub fn string_eq_string(a: &String, b: &String) -> (r: bool)
    ensures
        r == (a@ == b@),
{
    let x = chars_of(a.as_str());
    let y = chars_of(b.as_str());
    chars_eq(x.as_slice(), y.as_slice())
}

/// Whether a string equals a string slice.
pub fn string_eq_str(s: &String, lit: &str) -> (r: bool)
    ensures
        r == (s@ == lit@),
{
    let v = chars_of(s.as_str());
    assert(v@.subrange(0, v@.len() as int) =~= v@);
    range_eq_str(v.as_slice(), 0, v.len(), lit)
}

/// The decimal digits of a natural number.
pub open spec fn decimal(n: nat) -> Seq<char>
    decreases n,
{
    if n < 10 {
        seq![digit_char(n)]
    } else {
        decimal(n / 10).push(digit_char(n % 10))
    }
}

pub open spec fn digit_char(d: nat) -> char {
    (('0' as u32) + d) as char
}

/// `usize::to_string`.
pub fn usize_text(n: usize) -> (s: String)
    ensures
        s@ == decimal(n as nat),
    decreases n,
{
    if n < 10 {
        let mut s = String::new();
        push_char(&mut s, (48u8 + (n as u8)) as char);
        assert(s@ =~= decimal(n as nat));
        s
    } else {
        let mut s = usize_text(n / 10);
        push_char(&mut s, (48u8 + ((n % 10) as u8)) as char);
        s
    }
}

/// The `Debug` rendering of a string slice: quoted, with escapes.
pub uninterp spec fn debug_text(s: Seq<char>) -> Seq<char>;

/// `<str as Debug>::fmt`, through `format!("{:?}")`: the quoted and escaped
/// rendering of a string. Only that it is a function of the characters is claimed.
#[verifier::external_body]
pub(crate) fn debug_str(s: &str) -> (r: String)
    ensures
        r@ == debug_text(s@),
{
    format!("{:?}", s)
}

} // verus!
