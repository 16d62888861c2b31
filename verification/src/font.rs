//! The 5x7 bitmap font that screenshots draw their labels with.
use vstd::prelude::*;
use crate::text::{char_to_upper, upper};

verus! {

/// The rows of a character's bitmap, top to bottom: `1` is a lit pixel.
/// Lower-case letters are drawn as capitals; a character the font lacks is
/// drawn as a question mark.
pub open spec fn glyph_rows(c: char) -> Seq<&'static str> {
    match c {
        'A' => seq!["01110", "10001", "10001", "11111", "10001", "10001", "10001"],
        'B' => seq!["11110", "10001", "10001", "11110", "10001", "10001", "11110"],
        'C' => seq!["01111", "10000", "10000", "10000", "10000", "10000", "01111"],
        'D' => seq!["11110", "10001", "10001", "10001", "10001", "10001", "11110"],
        'E' => seq!["11111", "10000", "10000", "11110", "10000", "10000", "11111"],
        'F' => seq!["11111", "10000", "10000", "11110", "10000", "10000", "10000"],
        'G' => seq!["01111", "10000", "10000", "10011", "10001", "10001", "01110"],
        'H' => seq!["10001", "10001", "10001", "11111", "10001", "10001", "10001"],
        'I' => seq!["11111", "00100", "00100", "00100", "00100", "00100", "11111"],
        'J' => seq!["00111", "00010", "00010", "00010", "10010", "10010", "01100"],
        'K' => seq!["10001", "10010", "10100", "11000", "10100", "10010", "10001"],
        'L' => seq!["10000", "10000", "10000", "10000", "10000", "10000", "11111"],
        'M' => seq!["10001", "11011", "10101", "10101", "10001", "10001", "10001"],
        'N' => seq!["10001", "11001", "10101", "10011", "10001", "10001", "10001"],
        'O' => seq!["01110", "10001", "10001", "10001", "10001", "10001", "01110"],
        'P' => seq!["11110", "10001", "10001", "11110", "10000", "10000", "10000"],
        'Q' => seq!["01110", "10001", "10001", "10001", "10101", "10010", "01101"],
        'R' => seq!["11110", "10001", "10001", "11110", "10100", "10010", "10001"],
        'S' => seq!["01111", "10000", "10000", "01110", "00001", "00001", "11110"],
        'T' => seq!["11111", "00100", "00100", "00100", "00100", "00100", "00100"],
        'U' => seq!["10001", "10001", "10001", "10001", "10001", "10001", "01110"],
        'V' => seq!["10001", "10001", "10001", "10001", "10001", "01010", "00100"],
        'W' => seq!["10001", "10001", "10001", "10101", "10101", "10101", "01010"],
        'X' => seq!["10001", "10001", "01010", "00100", "01010", "10001", "10001"],
        'Y' => seq!["10001", "10001", "01010", "00100", "00100", "00100", "00100"],
        'Z' => seq!["11111", "00001", "00010", "00100", "01000", "10000", "11111"],
        '0' => seq!["01110", "10001", "10011", "10101", "11001", "10001", "01110"],
        '1' => seq!["00100", "01100", "00100", "00100", "00100", "00100", "01110"],
        '2' => seq!["01110", "10001", "00001", "00010", "00100", "01000", "11111"],
        '3' => seq!["11110", "00001", "00001", "01110", "00001", "00001", "11110"],
        '4' => seq!["00010", "00110", "01010", "10010", "11111", "00010", "00010"],
        '5' => seq!["11111", "10000", "10000", "11110", "00001", "00001", "11110"],
        '6' => seq!["01110", "10000", "10000", "11110", "10001", "10001", "01110"],
        '7' => seq!["11111", "00001", "00010", "00100", "01000", "01000", "01000"],
        '8' => seq!["01110", "10001", "10001", "01110", "10001", "10001", "01110"],
        '9' => seq!["01110", "10001", "10001", "01111", "00001", "00001", "01110"],
        '_' => seq!["00000", "00000", "00000", "00000", "00000", "00000", "11111"],
        '-' => seq!["00000", "00000", "00000", "11111", "00000", "00000", "00000"],
        ':' => seq!["00000", "00100", "00100", "00000", "00100", "00100", "00000"],
        '/' => seq!["00001", "00010", "00010", "00100", "01000", "01000", "10000"],
        '>' => seq!["10000", "01000", "00100", "00010", "00100", "01000", "10000"],
        '=' => seq!["00000", "11111", "00000", "11111", "00000", "00000", "00000"],
        ' ' => seq!["00000", "00000", "00000", "00000", "00000", "00000", "00000"],
        _ => seq!["11111", "00001", "00010", "00100", "00000", "00100", "00100"],
    }
}

/// The bitmap of a character.
pub fn glyph(ch: char) -> (r: [&'static str; 7])
    ensures
        r@ == glyph_rows(upper(ch)),
{
    let c = char_to_upper(ch);
    match c {
        'A' => {
            let r = ["01110", "10001", "10001", "11111", "10001", "10001", "10001"];
            assert(r@ =~= glyph_rows(c));
            r
        },
        'B' => {
            let r = ["11110", "10001", "10001", "11110", "10001", "10001", "11110"];
            assert(r@ =~= glyph_rows(c));
            r
        },
        'C' => {
            let r = ["01111", "10000", "10000", "10000", "10000", "10000", "01111"];
            assert(r@ =~= glyph_rows(c));
            r
        },
        'D' => {
            let r = ["11110", "10001", "10001", "10001", "10001", "10001", "11110"];
            assert(r@ =~= glyph_rows(c));
            r
        },
        'E' => {
            let r = ["11111", "10000", "10000", "11110", "10000", "10000", "11111"];
            assert(r@ =~= glyph_rows(c));
            r
        },
        'F' => {
            let r = ["11111", "10000", "10000", "11110", "10000", "10000", "10000"];
            assert(r@ =~= glyph_rows(c));
            r
        },
        'G' => {
            let r = ["01111", "10000", "10000", "10011", "10001", "10001", "01110"];
            assert(r@ =~= glyph_rows(c));
            r
        },
        'H' => {
            let r = ["10001", "10001", "10001", "11111", "10001", "10001", "10001"];
            assert(r@ =~= glyph_rows(c));
            r
        },
        'I' => {
            let r = ["11111", "00100", "00100", "00100", "00100", "00100", "11111"];
            assert(r@ =~= glyph_rows(c));
            r
        },
        'J' => {
            let r = ["00111", "00010", "00010", "00010", "10010", "10010", "01100"];
            assert(r@ =~= glyph_rows(c));
            r
        },
        'K' => {
            let r = ["10001", "10010", "10100", "11000", "10100", "10010", "10001"];
            assert(r@ =~= glyph_rows(c));
            r
        },
        'L' => {
            let r = ["10000", "10000", "10000", "10000", "10000", "10000", "11111"];
            assert(r@ =~= glyph_rows(c));
            r
        },
        'M' => {
            let r = ["10001", "11011", "10101", "10101", "10001", "10001", "10001"];
            assert(r@ =~= glyph_rows(c));
            r
        },
        'N' => {
            let r = ["10001", "11001", "10101", "10011", "10001", "10001", "10001"];
            assert(r@ =~= glyph_rows(c));
            r
        },
        'O' => {
            let r = ["01110", "10001", "10001", "10001", "10001", "10001", "01110"];
            assert(r@ =~= glyph_rows(c));
            r
        },
        'P' => {
            let r = ["11110", "10001", "10001", "11110", "10000", "10000", "10000"];
            assert(r@ =~= glyph_rows(c));
            r
        },
        'Q' => {
            let r = ["01110", "10001", "10001", "10001", "10101", "10010", "01101"];
            assert(r@ =~= glyph_rows(c));
            r
        },
        'R' => {
            let r = ["11110", "10001", "10001", "11110", "10100", "10010", "10001"];
            assert(r@ =~= glyph_rows(c));
            r
        },
        'S' => {
            let r = ["01111", "10000", "10000", "01110", "00001", "00001", "11110"];
            assert(r@ =~= glyph_rows(c));
            r
        },
        'T' => {
            let r = ["11111", "00100", "00100", "00100", "00100", "00100", "00100"];
            assert(r@ =~= glyph_rows(c));
            r
        },
        'U' => {
            let r = ["10001", "10001", "10001", "10001", "10001", "10001", "01110"];
            assert(r@ =~= glyph_rows(c));
            r
        },
        'V' => {
            let r = ["10001", "10001", "10001", "10001", "10001", "01010", "00100"];
            assert(r@ =~= glyph_rows(c));
            r
        },
        'W' => {
            let r = ["10001", "10001", "10001", "10101", "10101", "10101", "01010"];
            assert(r@ =~= glyph_rows(c));
            r
        },
        'X' => {
            let r = ["10001", "10001", "01010", "00100", "01010", "10001", "10001"];
            assert(r@ =~= glyph_rows(c));
            r
        },
        'Y' => {
            let r = ["10001", "10001", "01010", "00100", "00100", "00100", "00100"];
            assert(r@ =~= glyph_rows(c));
            r
        },
        'Z' => {
            let r = ["11111", "00001", "00010", "00100", "01000", "10000", "11111"];
            assert(r@ =~= glyph_rows(c));
            r
        },
        '0' => {
            let r = ["01110", "10001", "10011", "10101", "11001", "10001", "01110"];
            assert(r@ =~= glyph_rows(c));
            r
        },
        '1' => {
            let r = ["00100", "01100", "00100", "00100", "00100", "00100", "01110"];
            assert(r@ =~= glyph_rows(c));
            r
        },
        '2' => {
            let r = ["01110", "10001", "00001", "00010", "00100", "01000", "11111"];
            assert(r@ =~= glyph_rows(c));
            r
        },
        '3' => {
            let r = ["11110", "00001", "00001", "01110", "00001", "00001", "11110"];
            assert(r@ =~= glyph_rows(c));
            r
        },
        '4' => {
            let r = ["00010", "00110", "01010", "10010", "11111", "00010", "00010"];
            assert(r@ =~= glyph_rows(c));
            r
        },
        '5' => {
            let r = ["11111", "10000", "10000", "11110", "00001", "00001", "11110"];
            assert(r@ =~= glyph_rows(c));
            r
        },
        '6' => {
            let r = ["01110", "10000", "10000", "11110", "10001", "10001", "01110"];
            assert(r@ =~= glyph_rows(c));
            r
        },
        '7' => {
            let r = ["11111", "00001", "00010", "00100", "01000", "01000", "01000"];
            assert(r@ =~= glyph_rows(c));
            r
        },
        '8' => {
            let r = ["01110", "10001", "10001", "01110", "10001", "10001", "01110"];
            assert(r@ =~= glyph_rows(c));
            r
        },
        '9' => {
            let r = ["01110", "10001", "10001", "01111", "00001", "00001", "01110"];
            assert(r@ =~= glyph_rows(c));
            r
        },
        '_' => {
            let r = ["00000", "00000", "00000", "00000", "00000", "00000", "11111"];
            assert(r@ =~= glyph_rows(c));
            r
        },
        '-' => {
            let r = ["00000", "00000", "00000", "11111", "00000", "00000", "00000"];
            assert(r@ =~= glyph_rows(c));
            r
        },
        ':' => {
            let r = ["00000", "00100", "00100", "00000", "00100", "00100", "00000"];
            assert(r@ =~= glyph_rows(c));
            r
        },
        '/' => {
            let r = ["00001", "00010", "00010", "00100", "01000", "01000", "10000"];
            assert(r@ =~= glyph_rows(c));
            r
        },
        '>' => {
            let r = ["10000", "01000", "00100", "00010", "00100", "01000", "10000"];
            assert(r@ =~= glyph_rows(c));
            r
        },
        '=' => {
            let r = ["00000", "11111", "00000", "11111", "00000", "00000", "00000"];
            assert(r@ =~= glyph_rows(c));
            r
        },
        ' ' => {
            let r = ["00000", "00000", "00000", "00000", "00000", "00000", "00000"];
            assert(r@ =~= glyph_rows(c));
            r
        },
        _ => {
            let r = ["11111", "00001", "00010", "00100", "00000", "00100", "00100"];
            assert(r@ =~= glyph_rows(c));
            r
        },
    }
}


/// A row of a bitmap: five pixels, each `0` or `1`.
pub open spec fn bit_row(s: Seq<char>) -> bool {
    s.len() == 5 && forall|j: int| 0 <= j < 5 ==> s[j] == '0' || s[j] == '1'
}

/// Every character's bitmap has seven rows of five pixels, each `0` or `1`,
/// and a character is drawn as its ASCII capital is.
pub proof fn lemma_glyph_format(c: char)
    ensures
        glyph_rows(upper(c)).len() == 7,
        forall|i: int| 0 <= i < 7 ==> bit_row(#[trigger] glyph_rows(upper(c))[i]@),
        glyph_rows(upper(upper(c))) == glyph_rows(upper(c)),
{
    reveal_strlit("00000");
    reveal_strlit("00001");
    reveal_strlit("00010");
    reveal_strlit("00100");
    reveal_strlit("00110");
    reveal_strlit("00111");
    reveal_strlit("01000");
    reveal_strlit("01010");
    reveal_strlit("01100");
    reveal_strlit("01101");
    reveal_strlit("01110");
    reveal_strlit("01111");
    reveal_strlit("10000");
    reveal_strlit("10001");
    reveal_strlit("10010");
    reveal_strlit("10011");
    reveal_strlit("10100");
    reveal_strlit("10101");
    reveal_strlit("11000");
    reveal_strlit("11001");
    reveal_strlit("11011");
    reveal_strlit("11110");
    reveal_strlit("11111");
    let u = upper(c);
    assert(upper(u) == u);
    assert forall|i: int| 0 <= i < 7 implies bit_row(#[trigger] glyph_rows(u)[i]@) by {
    }
}

} // verus!
