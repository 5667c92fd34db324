//! The scrolling-text font.
//!
//! The F75's grid is roughly 16 columns by 6 rows, with staggered rows, so
//! many column and row positions have no key under them. The glyphs are 5
//! wide, because a 3-wide font is unreadable here, and 4 tall, because below
//! the F-row the board has only four full-width rows.

use vstd::prelude::*;

use crate::text::{ascii_upper, chars_of, to_ascii_upper};

verus! {

pub const GLYPH_W: usize = 5;

pub const GLYPH_H: usize = 4;

/// 5 wide, 4 tall, row-major, `1` = lit.
pub const FONT: [(char, [&'static str; 4]); 42] = [
    ('A', ["01110", "10001", "11111", "10001"]),
    ('B', ["11110", "11110", "10001", "11110"]),
    ('C', ["01111", "10000", "10000", "01111"]),
    ('D', ["11110", "10001", "10001", "11110"]),
    ('E', ["11111", "11100", "10000", "11111"]),
    ('F', ["11111", "11100", "10000", "10000"]),
    ('G', ["01111", "10000", "10011", "01111"]),
    ('H', ["10001", "11111", "10001", "10001"]),
    ('I', ["11111", "00100", "00100", "11111"]),
    ('J', ["00111", "00010", "10010", "01100"]),
    ('K', ["10010", "11100", "10010", "10001"]),
    ('L', ["10000", "10000", "10000", "11111"]),
    ('M', ["10001", "11011", "10101", "10001"]),
    ('N', ["10001", "11001", "10011", "10001"]),
    ('O', ["01110", "10001", "10001", "01110"]),
    ('P', ["11110", "10001", "11110", "10000"]),
    ('Q', ["01110", "10001", "10011", "01111"]),
    ('R', ["11110", "11110", "10010", "10001"]),
    ('S', ["01111", "01110", "00001", "11110"]),
    ('T', ["11111", "00100", "00100", "00100"]),
    ('U', ["10001", "10001", "10001", "01110"]),
    ('V', ["10001", "10001", "01010", "00100"]),
    ('W', ["10001", "10101", "11011", "10001"]),
    ('X', ["10001", "01010", "01010", "10001"]),
    ('Y', ["10001", "01010", "00100", "00100"]),
    ('Z', ["11111", "00110", "01100", "11111"]),
    ('0', ["01110", "10011", "11001", "01110"]),
    ('1', ["00100", "01100", "00100", "01110"]),
    ('2', ["11110", "00110", "01100", "11111"]),
    ('3', ["11110", "00110", "00001", "11110"]),
    ('4', ["10010", "10010", "11111", "00010"]),
    ('5', ["11111", "11110", "00001", "11110"]),
    ('6', ["01110", "10000", "11110", "01110"]),
    ('7', ["11111", "00010", "00100", "01000"]),
    ('8', ["01110", "01110", "10001", "01110"]),
    ('9', ["01110", "01111", "00001", "01110"]),
    ('.', ["00000", "00000", "00000", "00100"]),
    (',', ["00000", "00000", "00100", "01000"]),
    ('-', ["00000", "01110", "00000", "00000"]),
    ('!', ["00100", "00100", "00000", "00100"]),
    ('?', ["11110", "00011", "00000", "00100"]),
    (' ', ["00000", "00000", "00000", "00000"]),
];

/// The first font entry at or after `i` for character `c`.
pub open spec fn font_search(c: char, i: int) -> Option<int>
    decreases 42 - i,
{
    if i < 0 || i >= 42 {
        None
    } else if FONT@[i].0 == c {
        Some(i)
    } else {
        font_search(c, i + 1)
    }
}

/// The rows of a character's glyph: its upper-case form's, or the question
/// mark's for a character the font lacks, so it shows rather than vanishes.
pub open spec fn glyph_rows(ch: char) -> Seq<&'static str> {
    match font_search(ascii_upper(ch), 0) {
        Some(i) => FONT@[i].1@,
        None => match font_search('?', 0) {
            Some(j) => FONT@[j].1@,
            None => seq!["00000", "00000", "00000", "00000"],
        },
    }
}

fn find_glyph(c: char) -> (r: Option<usize>)
    ensures
        match r {
            Some(i) => font_search(c, 0) == Some(i as int) && i < 42,
            None => font_search(c, 0) is None,
        },
{
    let mut i: usize = 0;
    while i < 42
        invariant
            i <= 42,
            font_search(c, 0) == font_search(c, i as int),
        decreases 42 - i,
    {
        if FONT[i].0 == c {
            return Some(i);
        }
        i = i + 1;
    }
    None
}

/// The glyph for a character.
pub fn glyph(ch: char) -> (g: [&'static str; 4])
    ensures
        g@ == glyph_rows(ch),
{
    let up = to_ascii_upper(ch);
    match find_glyph(up) {
        Some(i) => FONT[i].1,
        None => match find_glyph('?') {
            Some(j) => FONT[j].1,
            None => {
                let g = ["00000", "00000", "00000", "00000"];
                assert(g@ =~= seq!["00000", "00000", "00000", "00000"]);
                g
            },
        },
    }
}

/// Whether column `c` of a glyph row is lit.
pub open spec fn lit_at(row: &'static str, c: int) -> bool {
    0 <= c < row@.len() && row@[c] == '1'
}

fn lit(row: &'static str, c: usize) -> (b: bool)
    ensures
        b == lit_at(row, c as int),
{
    let rc = chars_of(row);
    c < rc.len() && rc[c] == '1'
}

/// Column `k` of a message's bitmap: each character is five glyph columns
/// and then a blank one.
pub open spec fn bitmap_column(text: Seq<char>, k: int) -> Seq<bool> {
    let i = k / 6;
    let c = k % 6;
    if c == 5 {
        seq![false, false, false, false]
    } else {
        let g = glyph_rows(text[i]);
        seq![lit_at(g[0], c), lit_at(g[1], c), lit_at(g[2], c), lit_at(g[3], c)]
    }
}

/// Glyph row `r` of character `ch` has a `1` as its `c`-th character,
/// counted from the left.
pub open spec fn glyph_pixel(ch: char, r: int, c: int) -> bool {
    let row = glyph_rows(ch)[r]@;
    0 <= c < row.len() && row[c] == '1'
}

/// The bitmap reads each glyph left to right: column `k` belongs to
/// character `k / 6`; when `k % 6` is below five it is lit in row `r`
/// exactly where the `(k % 6)`-th character from the left of that glyph's
/// row `r` is `1`, and every sixth column is a blank gap.
pub proof fn lemma_bitmap_reads_glyphs_left_to_right(text: Seq<char>, k: int, r: int)
    requires
        0 <= k < text.len() * 6,
        0 <= r < 4,
    ensures
        bitmap_column(text, k).len() == 4,
        0 <= k / 6 < text.len(),
        k % 6 < 5 ==> bitmap_column(text, k)[r] == glyph_pixel(text[k / 6], r, k % 6),
        k % 6 == 5 ==> !bitmap_column(text, k)[r],
{
    assert(0 <= k / 6 < text.len()) by (nonlinear_arith)
        requires
            0 <= k < text.len() * 6,
    ;
}

/// Column-major bitmap of the whole message, one blank column after each
/// letter.
pub fn bitmap(text: &str) -> (cols: Vec<[bool; 4]>)
    requires
        text@.len() * 6 <= usize::MAX,
    ensures
        cols@.len() == text@.len() * 6,
        forall|k: int| 0 <= k < cols@.len() ==> (#[trigger] cols@[k])@ == bitmap_column(text@, k),
        forall|k: int, r: int|
            0 <= k < cols@.len() && 0 <= r < 4 ==> (#[trigger] cols@[k]@[r]) == (k % 6 < 5 && glyph_pixel(
                text@[k / 6],
                r,
                k % 6,
            )),
{
    let cs = chars_of(text);
    let mut cols: Vec<[bool; 4]> = Vec::new();
    let mut i: usize = 0;
    while i < cs.len()
        invariant
            i <= cs@.len(),
            cs@ == text@,
            cs@.len() * 6 <= usize::MAX,
            cols@.len() == i * 6,
            forall|k: int| 0 <= k < cols@.len() ==> (#[trigger] cols@[k])@ == bitmap_column(text@, k),
        decreases cs@.len() - i,
    {
        let g = glyph(cs[i]);
        let mut c: usize = 0;
        while c < GLYPH_W
            invariant
                c <= GLYPH_W,
                i < cs@.len(),
                cs@ == text@,
                g@ == glyph_rows(text@[i as int]),
                cols@.len() == i * 6 + c,
                forall|k: int| 0 <= k < cols@.len() ==> (#[trigger] cols@[k])@ == bitmap_column(text@, k),
            decreases GLYPH_W - c,
        {
            let col = [lit(g[0], c), lit(g[1], c), lit(g[2], c), lit(g[3], c)];
            proof {
                let k = i * 6 + c;
                assert(k / 6 == i as int);
                assert(k % 6 == c as int);
                assert(col@ =~= bitmap_column(text@, k as int));
            }
            cols.push(col);
            c = c + 1;
        }
        let blank = [false, false, false, false];
        proof {
            let k = i * 6 + 5;
            assert(k / 6 == i as int);
            assert(k % 6 == 5);
            assert(blank@ =~= bitmap_column(text@, k as int));
        }
        cols.push(blank);
        i = i + 1;
    }
    assert forall|k: int, r: int| 0 <= k < cols@.len() && 0 <= r < 4 implies (#[trigger] cols@[k]@[r]) == (k
        % 6 < 5 && glyph_pixel(text@[k / 6], r, k % 6)) by {
        lemma_bitmap_reads_glyphs_left_to_right(text@, k, r);
    }
    cols
}

} // verus!
