use vstd::prelude::*;
use vstd::string::*;

use crate::framebuffer::{in_rect, Framebuffer};

verus! {

/// `c` with an ASCII lower-case letter turned into its upper-case form.
pub open spec fn ascii_upper(c: char) -> char {
    if 'a' <= c <= 'z' {
        ((c as u32) - 32) as char
    } else {
        c
    }
}

/// The seven rows of the 5x7 pixel font for an upper-case character; bit 4
/// of a row is its leftmost column. A character without a drawing (the
/// space among them) is blank.
pub open spec fn font_rows(c: char) -> Seq<u8> {
    match c {
        'A' => seq![14, 17, 17, 31, 17, 17, 17],
        'B' => seq![30, 17, 17, 30, 17, 17, 30],
        'C' => seq![15, 16, 16, 16, 16, 16, 15],
        'D' => seq![28, 18, 17, 17, 17, 18, 28],
        'E' => seq![31, 16, 16, 30, 16, 16, 31],
        'F' => seq![31, 16, 16, 30, 16, 16, 16],
        'G' => seq![15, 16, 16, 19, 17, 17, 15],
        'H' => seq![17, 17, 17, 31, 17, 17, 17],
        'I' => seq![31, 4, 4, 4, 4, 4, 31],
        'J' => seq![7, 2, 2, 2, 2, 18, 12],
        'K' => seq![17, 18, 20, 24, 20, 18, 17],
        'L' => seq![16, 16, 16, 16, 16, 16, 31],
        'M' => seq![17, 27, 21, 21, 17, 17, 17],
        'N' => seq![17, 25, 21, 21, 19, 17, 17],
        'O' => seq![14, 17, 17, 17, 17, 17, 14],
        'P' => seq![30, 17, 17, 30, 16, 16, 16],
        'Q' => seq![14, 17, 17, 17, 21, 18, 13],
        'R' => seq![30, 17, 17, 30, 20, 18, 17],
        'S' => seq![15, 16, 16, 14, 1, 1, 30],
        'T' => seq![31, 4, 4, 4, 4, 4, 4],
        'U' => seq![17, 17, 17, 17, 17, 17, 14],
        'V' => seq![17, 17, 17, 17, 17, 10, 4],
        'W' => seq![17, 17, 17, 21, 21, 21, 10],
        'X' => seq![17, 17, 10, 4, 10, 17, 17],
        'Y' => seq![17, 17, 10, 4, 4, 4, 4],
        'Z' => seq![31, 1, 2, 4, 8, 16, 31],
        '0' => seq![14, 19, 21, 21, 25, 17, 14],
        '1' => seq![4, 12, 4, 4, 4, 4, 14],
        '2' => seq![14, 17, 1, 2, 4, 8, 31],
        '3' => seq![30, 1, 1, 14, 1, 1, 30],
        '4' => seq![2, 6, 10, 18, 31, 2, 2],
        '5' => seq![31, 16, 30, 1, 1, 17, 14],
        '6' => seq![6, 8, 16, 30, 17, 17, 14],
        '7' => seq![31, 1, 2, 4, 8, 8, 8],
        '8' => seq![14, 17, 17, 14, 17, 17, 14],
        '9' => seq![14, 17, 17, 15, 1, 2, 12],
        ':' => seq![0, 4, 4, 0, 4, 4, 0],
        '.' => seq![0, 0, 0, 0, 0, 12, 12],
        '!' => seq![4, 4, 4, 4, 4, 0, 4],
        '-' => seq![0, 0, 0, 31, 0, 0, 0],
        '/' => seq![1, 2, 2, 4, 8, 8, 16],
        '\'' => seq![12, 4, 8, 0, 0, 0, 0],
        _ => seq![0, 0, 0, 0, 0, 0, 0],
    }
}

/// The rows of the glyph drawn for `c`, which ignores the case of letters.
pub open spec fn glyph_rows(c: char) -> Seq<u8> {
    font_rows(ascii_upper(c))
}

/// The 5x7 glyph of `c`: seven rows, bit 4 of each is its leftmost pixel.
pub fn glyph(c: char) -> (rows: [u8; 7])
    ensures
        rows@ == glyph_rows(c),
{
    match c {
        'A' | 'a' => [14, 17, 17, 31, 17, 17, 17],
        'B' | 'b' => [30, 17, 17, 30, 17, 17, 30],
        'C' | 'c' => [15, 16, 16, 16, 16, 16, 15],
        'D' | 'd' => [28, 18, 17, 17, 17, 18, 28],
        'E' | 'e' => [31, 16, 16, 30, 16, 16, 31],
        'F' | 'f' => [31, 16, 16, 30, 16, 16, 16],
        'G' | 'g' => [15, 16, 16, 19, 17, 17, 15],
        'H' | 'h' => [17, 17, 17, 31, 17, 17, 17],
        'I' | 'i' => [31, 4, 4, 4, 4, 4, 31],
        'J' | 'j' => [7, 2, 2, 2, 2, 18, 12],
        'K' | 'k' => [17, 18, 20, 24, 20, 18, 17],
        'L' | 'l' => [16, 16, 16, 16, 16, 16, 31],
        'M' | 'm' => [17, 27, 21, 21, 17, 17, 17],
        'N' | 'n' => [17, 25, 21, 21, 19, 17, 17],
        'O' | 'o' => [14, 17, 17, 17, 17, 17, 14],
        'P' | 'p' => [30, 17, 17, 30, 16, 16, 16],
        'Q' | 'q' => [14, 17, 17, 17, 21, 18, 13],
        'R' | 'r' => [30, 17, 17, 30, 20, 18, 17],
        'S' | 's' => [15, 16, 16, 14, 1, 1, 30],
        'T' | 't' => [31, 4, 4, 4, 4, 4, 4],
        'U' | 'u' => [17, 17, 17, 17, 17, 17, 14],
        'V' | 'v' => [17, 17, 17, 17, 17, 10, 4],
        'W' | 'w' => [17, 17, 17, 21, 21, 21, 10],
        'X' | 'x' => [17, 17, 10, 4, 10, 17, 17],
        'Y' | 'y' => [17, 17, 10, 4, 4, 4, 4],
        'Z' | 'z' => [31, 1, 2, 4, 8, 16, 31],
        '0' => [14, 19, 21, 21, 25, 17, 14],
        '1' => [4, 12, 4, 4, 4, 4, 14],
        '2' => [14, 17, 1, 2, 4, 8, 31],
        '3' => [30, 1, 1, 14, 1, 1, 30],
        '4' => [2, 6, 10, 18, 31, 2, 2],
        '5' => [31, 16, 30, 1, 1, 17, 14],
        '6' => [6, 8, 16, 30, 17, 17, 14],
        '7' => [31, 1, 2, 4, 8, 8, 8],
        '8' => [14, 17, 17, 14, 17, 17, 14],
        '9' => [14, 17, 17, 15, 1, 2, 12],
        ':' => [0, 4, 4, 0, 4, 4, 0],
        '.' => [0, 0, 0, 0, 0, 12, 12],
        '!' => [4, 4, 4, 4, 4, 0, 4],
        '-' => [0, 0, 0, 31, 0, 0, 0],
        '/' => [1, 2, 2, 4, 8, 8, 16],
        '\'' => [12, 4, 8, 0, 0, 0, 0],
        _ => [0, 0, 0, 0, 0, 0, 0],
    }
}

/// Width in pixels of one character cell of text at `scale`: five columns
/// of glyph and one of spacing.
pub open spec fn char_advance(scale: int) -> int {
    6 * scale
}

/// Whether the glyph of `c` has its pixel at `row`, `col` set.
pub open spec fn glyph_bit(c: char, row: int, col: int) -> bool {
    (glyph_rows(c)[row] >> ((4 - col) as u8)) & 1 == 1
}

/// `(px, py)` lies in the `scale` by `scale` square that draws the set pixel
/// `row`, `col` of the `i`-th character of `text` written from `(x, y)`.
pub open spec fn glyph_pixel(
    text: Seq<char>,
    x: int,
    y: int,
    scale: int,
    i: int,
    row: int,
    col: int,
    px: int,
    py: int,
) -> bool {
    &&& 0 <= i < text.len()
    &&& 0 <= row < 7
    &&& 0 <= col < 5
    &&& glyph_bit(text[i], row, col)
    &&& in_rect(px, py, x + i * char_advance(scale) + col * scale, y + row * scale, scale, scale)
}

/// `(px, py)` is painted when `text` is written from `(x, y)` at `scale`.
pub open spec fn text_covers(text: Seq<char>, x: int, y: int, scale: int, px: int, py: int) -> bool {
    exists|i: int, row: int, col: int| #[trigger]
        glyph_pixel(text, x, y, scale, i, row, col, px, py)
}

/// `(px, py)` is painted by one of the squares drawn before square `row0`,
/// `col0` of character `i0` (characters, rows and columns in that order).
pub open spec fn drawn_before(
    text: Seq<char>,
    x: int,
    y: int,
    scale: int,
    i0: int,
    row0: int,
    col0: int,
    px: int,
    py: int,
) -> bool {
    exists|i: int, row: int, col: int|
        #![trigger glyph_pixel(text, x, y, scale, i, row, col, px, py)]
        glyph_pixel(text, x, y, scale, i, row, col, px, py) && (i < i0 || (i == i0 && (row < row0
            || (row == row0 && col < col0))))
}

proof fn lemma_drawn_step_col(
    text: Seq<char>,
    x: int,
    y: int,
    scale: int,
    i0: int,
    row0: int,
    col0: int,
    px: int,
    py: int,
)
    ensures
        drawn_before(text, x, y, scale, i0, row0, col0 + 1, px, py) == (drawn_before(
            text,
            x,
            y,
            scale,
            i0,
            row0,
            col0,
            px,
            py,
        ) || glyph_pixel(text, x, y, scale, i0, row0, col0, px, py)),
{
    if drawn_before(text, x, y, scale, i0, row0, col0 + 1, px, py) {
        let (i, row, col) = choose|i: int, row: int, col: int|
            glyph_pixel(text, x, y, scale, i, row, col, px, py) && (i < i0 || (i == i0 && (row
                < row0 || (row == row0 && col < col0 + 1))));
        if !(i == i0 && row == row0 && col == col0) {
            assert(glyph_pixel(text, x, y, scale, i, row, col, px, py));
        }
    }
}

proof fn lemma_drawn_step_row(
    text: Seq<char>,
    x: int,
    y: int,
    scale: int,
    i0: int,
    row0: int,
    px: int,
    py: int,
)
    ensures
        drawn_before(text, x, y, scale, i0, row0 + 1, 0, px, py) == drawn_before(
            text,
            x,
            y,
            scale,
            i0,
            row0,
            5,
            px,
            py,
        ),
{
    if drawn_before(text, x, y, scale, i0, row0 + 1, 0, px, py) {
        let (i, row, col) = choose|i: int, row: int, col: int|
            glyph_pixel(text, x, y, scale, i, row, col, px, py) && (i < i0 || (i == i0 && (row
                < row0 + 1 || (row == row0 + 1 && col < 0))));
        assert(glyph_pixel(text, x, y, scale, i, row, col, px, py));
    }
    if drawn_before(text, x, y, scale, i0, row0, 5, px, py) {
        let (i, row, col) = choose|i: int, row: int, col: int|
            glyph_pixel(text, x, y, scale, i, row, col, px, py) && (i < i0 || (i == i0 && (row
                < row0 || (row == row0 && col < 5))));
        assert(glyph_pixel(text, x, y, scale, i, row, col, px, py));
    }
}

proof fn lemma_drawn_step_char(
    text: Seq<char>,
    x: int,
    y: int,
    scale: int,
    i0: int,
    px: int,
    py: int,
)
    ensures
        drawn_before(text, x, y, scale, i0 + 1, 0, 0, px, py) == drawn_before(
            text,
            x,
            y,
            scale,
            i0,
            7,
            0,
            px,
            py,
        ),
{
    if drawn_before(text, x, y, scale, i0 + 1, 0, 0, px, py) {
        let (i, row, col) = choose|i: int, row: int, col: int|
            glyph_pixel(text, x, y, scale, i, row, col, px, py) && (i < i0 + 1 || (i == i0 + 1
                && (row < 0 || (row == 0 && col < 0))));
        assert(glyph_pixel(text, x, y, scale, i, row, col, px, py));
    }
    if drawn_before(text, x, y, scale, i0, 7, 0, px, py) {
        let (i, row, col) = choose|i: int, row: int, col: int|
            glyph_pixel(text, x, y, scale, i, row, col, px, py) && (i < i0 || (i == i0 && (row
                < 7 || (row == 7 && col < 0))));
        assert(glyph_pixel(text, x, y, scale, i, row, col, px, py));
    }
}

proof fn lemma_drawn_all(text: Seq<char>, x: int, y: int, scale: int, px: int, py: int)
    ensures
        drawn_before(text, x, y, scale, text.len() as int, 0, 0, px, py) == text_covers(
            text,
            x,
            y,
            scale,
            px,
            py,
        ),
        !drawn_before(text, x, y, scale, 0, 0, 0, px, py),
{
    if text_covers(text, x, y, scale, px, py) {
        let (i, row, col) = choose|i: int, row: int, col: int|
            glyph_pixel(text, x, y, scale, i, row, col, px, py);
        assert(glyph_pixel(text, x, y, scale, i, row, col, px, py));
    }
}

/// The overflow-free range of `draw_text`: every position it computes fits
/// in a `usize`.
pub open spec fn text_fits(len: int, x: int, y: int, scale: int) -> bool {
    &&& char_advance(scale) <= usize::MAX
    &&& len > 0 ==> y + 6 * scale <= usize::MAX
    &&& len > 0 ==> x + (len - 1) * char_advance(scale) + 4 * scale <= usize::MAX
}

/// Writes `text` from `(x, y)` in `color`, each pixel of the 5x7 font
/// enlarged to a `scale` by `scale` square and characters `6 * scale`
/// pixels apart. Pixels outside the grid are left out; the colour stays set.
pub fn draw_text(fb: &mut Framebuffer, x: usize, y: usize, text: &str, color: u32, scale: usize)
    requires
        old(fb).wf(),
        text_fits(text@.len() as int, x as int, y as int, scale as int),
    ensures
        final(fb).wf(),
        final(fb).width == old(fb).width,
        final(fb).height == old(fb).height,
        final(fb).background_color == old(fb).background_color,
        final(fb).current_color == color,
        forall|px: int, py: int|
            #![trigger final(fb).pixel(px, py)]
            final(fb).contains(px, py) ==> final(fb).pixel(px, py) == if text_covers(
                text@,
                x as int,
                y as int,
                scale as int,
                px,
                py,
            ) {
                color
            } else {
                old(fb).pixel(px, py)
            },
{
    fb.set_current_color(color);
    let advance: usize = (5 + 1) * scale;
    let n = text.unicode_len();
    let ghost t = text@;
    let ghost (xi, yi, si) = (x as int, y as int, scale as int);
    let mut i: usize = 0;
    while i < n
        invariant
            n == t.len(),
            t == text@,
            i <= n,
            advance == char_advance(si),
            xi == x,
            yi == y,
            si == scale,
            text_fits(t.len() as int, xi, yi, si),
            fb.wf(),
            fb.width == old(fb).width,
            fb.height == old(fb).height,
            fb.background_color == old(fb).background_color,
            fb.current_color == color,
            forall|px: int, py: int|
                #![trigger fb.pixel(px, py)]
                fb.contains(px, py) ==> fb.pixel(px, py) == if drawn_before(
                    t,
                    xi,
                    yi,
                    si,
                    i as int,
                    0,
                    0,
                    px,
                    py,
                ) {
                    color
                } else {
                    old(fb).pixel(px, py)
                },
        decreases n - i,
    {
        let ch = text.get_char(i);
        proof {
            assert(i * advance <= (n - 1) * advance) by (nonlinear_arith)
                requires
                    i < n,
            ;
        }
        let glyph_x: usize = x + i * advance;
        let rows = glyph(ch);
        let mut row: usize = 0;
        while row < 7
            invariant
                n == t.len(),
                t == text@,
                i < n,
                row <= 7,
                ch == t[i as int],
                rows@ == glyph_rows(ch),
                glyph_x == xi + i * char_advance(si),
                i * char_advance(si) <= (t.len() - 1) * char_advance(si),
                advance == char_advance(si),
                xi == x,
                yi == y,
                si == scale,
                text_fits(t.len() as int, xi, yi, si),
                fb.wf(),
                fb.width == old(fb).width,
                fb.height == old(fb).height,
                fb.background_color == old(fb).background_color,
                fb.current_color == color,
                forall|px: int, py: int|
                    #![trigger fb.pixel(px, py)]
                    fb.contains(px, py) ==> fb.pixel(px, py) == if drawn_before(
                        t,
                        xi,
                        yi,
                        si,
                        i as int,
                        row as int,
                        0,
                        px,
                        py,
                    ) {
                        color
                    } else {
                        old(fb).pixel(px, py)
                    },
            decreases 7 - row,
        {
            let bits = rows[row];
            let mut col: usize = 0;
            while col < 5
                invariant
                    n == t.len(),
                    t == text@,
                    i < n,
                    row < 7,
                    col <= 5,
                    ch == t[i as int],
                    bits == glyph_rows(ch)[row as int],
                    glyph_x == xi + i * char_advance(si),
                    i * char_advance(si) <= (t.len() - 1) * char_advance(si),
                i * char_advance(si) <= (t.len() - 1) * char_advance(si),
                    advance == char_advance(si),
                    xi == x,
                    yi == y,
                    si == scale,
                    text_fits(t.len() as int, xi, yi, si),
                    fb.wf(),
                    fb.width == old(fb).width,
                    fb.height == old(fb).height,
                    fb.background_color == old(fb).background_color,
                    fb.current_color == color,
                    forall|px: int, py: int|
                        #![trigger fb.pixel(px, py)]
                        fb.contains(px, py) ==> fb.pixel(px, py) == if drawn_before(
                            t,
                            xi,
                            yi,
                            si,
                            i as int,
                            row as int,
                            col as int,
                            px,
                            py,
                        ) {
                            color
                        } else {
                            old(fb).pixel(px, py)
                        },
                decreases 5 - col,
            {
                if (bits >> ((4 - col) as u8)) & 1 == 1 {
                    proof {
                        assert(col * si <= 4 * si) by (nonlinear_arith)
                            requires
                                col < 5,
                                si >= 0,
                        ;
                        assert(row * si <= 6 * si) by (nonlinear_arith)
                            requires
                                row < 7,
                                si >= 0,
                        ;
                    }
                    let px0: usize = glyph_x + col * scale;
                    let py0: usize = y + row * scale;
                    fb.draw_rect(px0, py0, scale, scale);
                    proof {
                        assert forall|px: int, py: int|
                            #![trigger fb.pixel(px, py)]
                            fb.contains(px, py) implies fb.pixel(px, py) == if drawn_before(
                                t,
                                xi,
                                yi,
                                si,
                                i as int,
                                row as int,
                                col + 1,
                                px,
                                py,
                            ) {
                                color
                            } else {
                                old(fb).pixel(px, py)
                            } by {
                            lemma_drawn_step_col(t, xi, yi, si, i as int, row as int, col as int, px, py);
                        }
                    }
                } else {
                    proof {
                        assert forall|px: int, py: int|
                            #![trigger fb.pixel(px, py)]
                            fb.contains(px, py) implies fb.pixel(px, py) == if drawn_before(
                                t,
                                xi,
                                yi,
                                si,
                                i as int,
                                row as int,
                                col + 1,
                                px,
                                py,
                            ) {
                                color
                            } else {
                                old(fb).pixel(px, py)
                            } by {
                            lemma_drawn_step_col(t, xi, yi, si, i as int, row as int, col as int, px, py);
                        }
                    }
                }
                col = col + 1;
            }
            proof {
                assert forall|px: int, py: int|
                    #![trigger fb.pixel(px, py)]
                    fb.contains(px, py) implies fb.pixel(px, py) == if drawn_before(
                        t,
                        xi,
                        yi,
                        si,
                        i as int,
                        row + 1,
                        0,
                        px,
                        py,
                    ) {
                        color
                    } else {
                        old(fb).pixel(px, py)
                    } by {
                    lemma_drawn_step_row(t, xi, yi, si, i as int, row as int, px, py);
                }
            }
            row = row + 1;
        }
        proof {
            assert forall|px: int, py: int|
                #![trigger fb.pixel(px, py)]
                fb.contains(px, py) implies fb.pixel(px, py) == if drawn_before(
                    t,
                    xi,
                    yi,
                    si,
                    i + 1,
                    0,
                    0,
                    px,
                    py,
                ) {
                    color
                } else {
                    old(fb).pixel(px, py)
                } by {
                lemma_drawn_step_char(t, xi, yi, si, i as int, px, py);
            }
        }
        i = i + 1;
    }
    proof {
        assert forall|px: int, py: int|
            #![trigger fb.pixel(px, py)]
            fb.contains(px, py) implies fb.pixel(px, py) == if text_covers(
                t,
                xi,
                yi,
                si,
                px,
                py,
            ) {
                color
            } else {
                old(fb).pixel(px, py)
            } by {
            lemma_drawn_all(t, xi, yi, si, px, py);
        }
    }
}

/// Width in pixels of `len` characters of text at `scale`.
pub open spec fn spec_text_width(len: int, scale: int) -> int {
    len * char_advance(scale)
}

/// Width in pixels that `text` takes when written at `scale`, spacing
/// after the last character included.
pub fn text_width(text: &str, scale: usize) -> (w: usize)
    requires
        text@.len() * 6 <= usize::MAX,
        spec_text_width(text@.len() as int, scale as int) <= usize::MAX,
    ensures
        w == spec_text_width(text@.len() as int, scale as int),
        w == text@.len() * 6 * scale,
{
    let n = text.unicode_len();
    proof {
        assert(n * (5 + 1) * scale == n * (6 * scale)) by (nonlinear_arith);
    }
    n * (5 + 1) * scale
}

/// The column where `text` starts when centred on a grid `width` wide:
/// half the width less half the text's width, and 0 when the text is wider.
pub open spec fn centered_x(width: int, len: int, scale: int) -> int {
    let left = width / 2 - spec_text_width(len, scale) / 2;
    if left < 0 {
        0
    } else {
        left
    }
}

/// Writes `text` at row `y`, centred across the grid (from its left edge
/// when wider than half of it), in `color` at `scale`.
pub fn draw_centered(fb: &mut Framebuffer, y: usize, text: &str, color: u32, scale: usize)
    requires
        old(fb).wf(),
        text@.len() * 6 <= usize::MAX,
        spec_text_width(text@.len() as int, scale as int) <= usize::MAX,
        text_fits(
            text@.len() as int,
            centered_x(old(fb).width as int, text@.len() as int, scale as int),
            y as int,
            scale as int,
        ),
    ensures
        final(fb).wf(),
        final(fb).width == old(fb).width,
        final(fb).height == old(fb).height,
        final(fb).background_color == old(fb).background_color,
        final(fb).current_color == color,
        forall|px: int, py: int|
            #![trigger final(fb).pixel(px, py)]
            final(fb).contains(px, py) ==> final(fb).pixel(px, py) == if text_covers(
                text@,
                centered_x(old(fb).width as int, text@.len() as int, scale as int),
                y as int,
                scale as int,
                px,
                py,
            ) {
                color
            } else {
                old(fb).pixel(px, py)
            },
{
    let x = (fb.width / 2).saturating_sub(text_width(text, scale) / 2);
    draw_text(fb, x, y, text, color, scale);
}

/// The font ignores case: a character and its upper-case form have the
/// same glyph.
pub proof fn lemma_glyph_ignores_case(c: char)
    ensures
        glyph_rows(c) == glyph_rows(ascii_upper(c)),
{
}

/// Every pixel that writing `text` paints lies in the box of its width (as
/// `text_width` measures it) and seven glyph rows, from `(x, y)`.
pub proof fn lemma_text_within_box(
    text: Seq<char>,
    x: int,
    y: int,
    scale: int,
    px: int,
    py: int,
)
    requires
        scale >= 0,
        text_covers(text, x, y, scale, px, py),
    ensures
        x <= px < x + spec_text_width(text.len() as int, scale),
        px < x + text.len() * 6 * scale,
        y <= py < y + 7 * scale,
{
    let (i, row, col) = choose|i: int, row: int, col: int|
        glyph_pixel(text, x, y, scale, i, row, col, px, py);
    assert(text.len() * char_advance(scale) == text.len() * 6 * scale) by (nonlinear_arith)
        requires
            char_advance(scale) == 6 * scale,
    ;
    assert(i * char_advance(scale) + col * scale + scale <= text.len() * char_advance(scale))
        by (nonlinear_arith)
        requires
            0 <= i < text.len(),
            0 <= col < 5,
            scale >= 0,
            char_advance(scale) == 6 * scale,
    ;
    assert(row * scale + scale <= 7 * scale) by (nonlinear_arith)
        requires
            0 <= row < 7,
            scale >= 0,
    ;
    assert(0 <= i * char_advance(scale) + col * scale) by (nonlinear_arith)
        requires
            0 <= i,
            0 <= col,
            scale >= 0,
            char_advance(scale) == 6 * scale,
    ;
    assert(0 <= row * scale) by (nonlinear_arith)
        requires
            0 <= row,
            scale >= 0,
    ;
}

/// Centred text that fits in half the grid has its middle column at the
/// grid's middle column (halves rounded down).
pub proof fn lemma_centered_middle(width: int, len: int, scale: int)
    requires
        spec_text_width(len, scale) / 2 <= width / 2,
    ensures
        centered_x(width, len, scale) + spec_text_width(len, scale) / 2 == width / 2,
{
}

/// The characters the font draws: upper-case letters, digits and `: . ! - / '`.
pub open spec fn font_supported(c: char) -> bool {
    c == 'A' || c == 'B' || c == 'C' || c == 'D' || c == 'E' || c == 'F' || c == 'G' || c == 'H' || c == 'I' || c == 'J' || c == 'K' || c == 'L' || c == 'M' || c == 'N' || c == 'O' || c == 'P' || c == 'Q' || c == 'R' || c == 'S' || c == 'T' || c == 'U' || c == 'V' || c == 'W' || c == 'X' || c == 'Y' || c == 'Z' || c == '0' || c == '1' || c == '2' || c == '3' || c == '4' || c == '5' || c == '6' || c == '7' || c == '8' || c == '9' || c == ':' || c == '.' || c == '!' || c == '-' || c == '/' || c == '\''
}

/// The seven rows of a glyph read as one number, five bits per row.
spec fn rows_code(r: Seq<u8>) -> int {
    r[0] + 32 * r[1] + 1024 * r[2] + 32768 * r[3] + 1048576 * r[4] + 33554432 * r[5]
        + 1073741824 * r[6]
}

/// The character whose glyph reads as `code`, if the font has one.
spec fn char_of_code(code: int) -> Option<char> {
    if code == 18842895918 {
        Some('A')
    } else if code == 32801506878 {
        Some('B')
    } else if code == 16660316687 {
        Some('C')
    } else if code == 30687151708 {
        Some('D')
    } else if code == 33840644639 {
        Some('E')
    } else if code == 17734517279 {
        Some('F')
    } else if code == 16695017999 {
        Some('G')
    } else if code == 18842895921 {
        Some('H')
    } else if code == 33424543903 {
        Some('I')
    } else if code == 13491046471 {
        Some('J')
    } else if code == 18879369809 {
        Some('K')
    } else {
        char_of_code_1(code)
    }
}

/// The rest of `char_of_code`'s table.
spec fn char_of_code_1(code: int) -> Option<char> {
    if code == 33840185872 {
        Some('L')
    } else if code == 18842572657 {
        Some('M')
    } else if code == 18844669745 {
        Some('N')
    } else if code == 15621211694 {
        Some('O')
    } else if code == 17734518334 {
        Some('P')
    } else if code == 14585218606 {
        Some('Q')
    } else if code == 18879563326 {
        Some('R')
    } else if code == 32247333391 {
        Some('S')
    } else if code == 4433514655 {
        Some('T')
    } else if code == 15621211697 {
        Some('U')
    } else if code == 4648912433 {
        Some('V')
    } else {
        char_of_code_2(code)
    }
}

/// The rest of `char_of_code`'s table.
spec fn char_of_code_2(code: int) -> Option<char> {
    if code == 11464787505 {
        Some('W')
    } else if code == 18834663985 {
        Some('X')
    } else if code == 4433521201 {
        Some('Y')
    } else if code == 33831389247 {
        Some('Z')
    } else if code == 15629735534 {
        Some('0')
    } else if code == 15170933124 {
        Some('1')
    } else if code == 33558693422 {
        Some('2')
    } else if code == 32247317566 {
        Some('3')
    } else if code == 2247698626 {
        Some('4')
    } else if code == 15603923487 {
        Some('5')
    } else if code == 15621636358 {
        Some('6')
    } else {
        char_of_code_3(code)
    }
}

/// The rest of `char_of_code`'s table.
spec fn char_of_code_3(code: int) -> Option<char> {
    if code == 8866891839 {
        Some('7')
    } else if code == 15621113390 {
        Some('8')
    } else if code == 12953568814 {
        Some('9')
    } else if code == 138416256 {
        Some(':')
    } else if code == 13287555072 {
        Some('.')
    } else if code == 4299296900 {
        Some('!')
    } else if code == 1015808 {
        Some('-')
    } else if code == 17456826433 {
        Some('/')
    } else if code == 8332 {
        Some('\'')
    } else {
        None
    }
}

/// Every drawn character's glyph spells out that character and no other.
#[verifier::spinoff_prover]
#[verifier::rlimit(40)]
proof fn lemma_font_decodes(c: char)
    requires
        font_supported(c),
    ensures
        char_of_code(rows_code(font_rows(c))) == Some(c),
        rows_code(font_rows(c)) != 0,
        font_rows(c).len() == 7,
        forall|k: int| 0 <= k < 7 ==> #[trigger] font_rows(c)[k] < 32,
{
    if c == 'A' {
        assert(rows_code(font_rows('A')) == 18842895918);
        assert(char_of_code(18842895918) == Some('A'));
    }
    if c == 'B' {
        assert(rows_code(font_rows('B')) == 32801506878);
        assert(char_of_code(32801506878) == Some('B'));
    }
    if c == 'C' {
        assert(rows_code(font_rows('C')) == 16660316687);
        assert(char_of_code(16660316687) == Some('C'));
    }
    if c == 'D' {
        assert(rows_code(font_rows('D')) == 30687151708);
        assert(char_of_code(30687151708) == Some('D'));
    }
    if c == 'E' {
        assert(rows_code(font_rows('E')) == 33840644639);
        assert(char_of_code(33840644639) == Some('E'));
    }
    if c == 'F' {
        assert(rows_code(font_rows('F')) == 17734517279);
        assert(char_of_code(17734517279) == Some('F'));
    }
    if c == 'G' {
        assert(rows_code(font_rows('G')) == 16695017999);
        assert(char_of_code(16695017999) == Some('G'));
    }
    if c == 'H' {
        assert(rows_code(font_rows('H')) == 18842895921);
        assert(char_of_code(18842895921) == Some('H'));
    }
    if c == 'I' {
        assert(rows_code(font_rows('I')) == 33424543903);
        assert(char_of_code(33424543903) == Some('I'));
    }
    if c == 'J' {
        assert(rows_code(font_rows('J')) == 13491046471);
        assert(char_of_code(13491046471) == Some('J'));
    }
    if c == 'K' {
        assert(rows_code(font_rows('K')) == 18879369809);
        assert(char_of_code(18879369809) == Some('K'));
    }
    if c == 'L' {
        assert(rows_code(font_rows('L')) == 33840185872);
        assert(char_of_code(33840185872) == Some('L'));
    }
    if c == 'M' {
        assert(rows_code(font_rows('M')) == 18842572657);
        assert(char_of_code(18842572657) == Some('M'));
    }
    if c == 'N' {
        assert(rows_code(font_rows('N')) == 18844669745);
        assert(char_of_code(18844669745) == Some('N'));
    }
    if c == 'O' {
        assert(rows_code(font_rows('O')) == 15621211694);
        assert(char_of_code(15621211694) == Some('O'));
    }
    if c == 'P' {
        assert(rows_code(font_rows('P')) == 17734518334);
        assert(char_of_code(17734518334) == Some('P'));
    }
    if c == 'Q' {
        assert(rows_code(font_rows('Q')) == 14585218606);
        assert(char_of_code(14585218606) == Some('Q'));
    }
    if c == 'R' {
        assert(rows_code(font_rows('R')) == 18879563326);
        assert(char_of_code(18879563326) == Some('R'));
    }
    if c == 'S' {
        assert(rows_code(font_rows('S')) == 32247333391);
        assert(char_of_code(32247333391) == Some('S'));
    }
    if c == 'T' {
        assert(rows_code(font_rows('T')) == 4433514655);
        assert(char_of_code(4433514655) == Some('T'));
    }
    if c == 'U' {
        assert(rows_code(font_rows('U')) == 15621211697);
        assert(char_of_code(15621211697) == Some('U'));
    }
    if c == 'V' {
        assert(rows_code(font_rows('V')) == 4648912433);
        assert(char_of_code(4648912433) == Some('V'));
    }
    if c == 'W' {
        assert(rows_code(font_rows('W')) == 11464787505);
        assert(char_of_code(11464787505) == Some('W'));
    }
    if c == 'X' {
        assert(rows_code(font_rows('X')) == 18834663985);
        assert(char_of_code(18834663985) == Some('X'));
    }
    if c == 'Y' {
        assert(rows_code(font_rows('Y')) == 4433521201);
        assert(char_of_code(4433521201) == Some('Y'));
    }
    if c == 'Z' {
        assert(rows_code(font_rows('Z')) == 33831389247);
        assert(char_of_code(33831389247) == Some('Z'));
    }
    if c == '0' {
        assert(rows_code(font_rows('0')) == 15629735534);
        assert(char_of_code(15629735534) == Some('0'));
    }
    if c == '1' {
        assert(rows_code(font_rows('1')) == 15170933124);
        assert(char_of_code(15170933124) == Some('1'));
    }
    if c == '2' {
        assert(rows_code(font_rows('2')) == 33558693422);
        assert(char_of_code(33558693422) == Some('2'));
    }
    if c == '3' {
        assert(rows_code(font_rows('3')) == 32247317566);
        assert(char_of_code(32247317566) == Some('3'));
    }
    if c == '4' {
        assert(rows_code(font_rows('4')) == 2247698626);
        assert(char_of_code(2247698626) == Some('4'));
    }
    if c == '5' {
        assert(rows_code(font_rows('5')) == 15603923487);
        assert(char_of_code(15603923487) == Some('5'));
    }
    if c == '6' {
        assert(rows_code(font_rows('6')) == 15621636358);
        assert(char_of_code(15621636358) == Some('6'));
    }
    if c == '7' {
        assert(rows_code(font_rows('7')) == 8866891839);
        assert(char_of_code(8866891839) == Some('7'));
    }
    if c == '8' {
        assert(rows_code(font_rows('8')) == 15621113390);
        assert(char_of_code(15621113390) == Some('8'));
    }
    if c == '9' {
        assert(rows_code(font_rows('9')) == 12953568814);
        assert(char_of_code(12953568814) == Some('9'));
    }
    if c == ':' {
        assert(rows_code(font_rows(':')) == 138416256);
        assert(char_of_code(138416256) == Some(':'));
    }
    if c == '.' {
        assert(rows_code(font_rows('.')) == 13287555072);
        assert(char_of_code(13287555072) == Some('.'));
    }
    if c == '!' {
        assert(rows_code(font_rows('!')) == 4299296900);
        assert(char_of_code(4299296900) == Some('!'));
    }
    if c == '-' {
        assert(rows_code(font_rows('-')) == 1015808);
        assert(char_of_code(1015808) == Some('-'));
    }
    if c == '/' {
        assert(rows_code(font_rows('/')) == 17456826433);
        assert(char_of_code(17456826433) == Some('/'));
    }
    if c == '\'' {
        assert(rows_code(font_rows('\'')) == 8332);
        assert(char_of_code(8332) == Some('\''));
    }
}

/// No two characters of the font share a glyph, and no drawn character
/// looks blank; each row is five pixels wide.
pub proof fn lemma_font_distinct(a: char, b: char)
    requires
        font_supported(a),
        font_supported(b),
        a != b,
    ensures
        font_rows(a) != font_rows(b),
        font_rows(a) != seq![0u8, 0, 0, 0, 0, 0, 0],
        font_rows(a).len() == 7,
        forall|k: int| 0 <= k < 7 ==> #[trigger] font_rows(a)[k] < 32,
{
    lemma_font_decodes(a);
    lemma_font_decodes(b);
    assert(rows_code(seq![0u8, 0, 0, 0, 0, 0, 0]) == 0);
    if font_rows(a) == font_rows(b) {
        assert(rows_code(font_rows(a)) == rows_code(font_rows(b)));
    }
}

/// Two characters whose upper-case forms are different characters of the
/// font are written with different glyphs.
pub proof fn lemma_glyphs_distinct(a: char, b: char)
    requires
        font_supported(ascii_upper(a)),
        font_supported(ascii_upper(b)),
        ascii_upper(a) != ascii_upper(b),
    ensures
        glyph_rows(a) != glyph_rows(b),
{
    lemma_font_distinct(ascii_upper(a), ascii_upper(b));
}

/// Every glyph row is five pixels wide; characters the font lacks are blank.
pub proof fn lemma_glyph_rows_five_bits(c: char, row: int)
    requires
        0 <= row < 7,
    ensures
        glyph_rows(c).len() == 7,
        glyph_rows(c)[row] < 32,
        !font_supported(ascii_upper(c)) ==> glyph_rows(c)[row] == 0,
{
    if font_supported(ascii_upper(c)) {
        lemma_font_decodes(ascii_upper(c));
    }
}

/// Bit 4 of a glyph row is its leftmost column and bit 0 its rightmost:
/// column 0 is set when the row is at least 16, column 4 when it is odd.
pub proof fn lemma_glyph_bit_order(c: char, row: int)
    requires
        0 <= row < 7,
    ensures
        glyph_bit(c, row, 0) <==> glyph_rows(c)[row] >= 16,
        glyph_bit(c, row, 4) <==> glyph_rows(c)[row] % 2 == 1,
{
    lemma_glyph_rows_five_bits(c, row);
    let v = glyph_rows(c)[row];
    assert(((v >> 4u8) & 1 == 1) <==> v >= 16) by (bit_vector)
        requires
            v < 32,
    ;
    assert(((v >> 0u8) & 1 == 1) <==> v % 2 == 1) by (bit_vector);
}

/// Writing text paints, for each set pixel `row`, `col` of the glyph of
/// character `i`, the `scale` by `scale` square whose top-left corner is
/// `(x + 6 * scale * i + scale * col, y + scale * row)`.
pub proof fn lemma_set_bit_painted(
    text: Seq<char>,
    x: int,
    y: int,
    scale: int,
    i: int,
    row: int,
    col: int,
    dx: int,
    dy: int,
)
    requires
        0 <= i < text.len(),
        0 <= row < 7,
        0 <= col < 5,
        glyph_bit(text[i], row, col),
        0 <= dx < scale,
        0 <= dy < scale,
    ensures
        text_covers(text, x, y, scale, x + 6 * scale * i + scale * col + dx, y + scale * row + dy),
{
    assert(6 * scale * i == i * char_advance(scale)) by (nonlinear_arith)
        requires
            char_advance(scale) == 6 * scale,
    ;
    assert(scale * col == col * scale) by (nonlinear_arith);
    assert(scale * row == row * scale) by (nonlinear_arith);
    assert(glyph_pixel(
        text,
        x,
        y,
        scale,
        i,
        row,
        col,
        x + 6 * scale * i + scale * col + dx,
        y + scale * row + dy,
    ));
}

} // verus!
