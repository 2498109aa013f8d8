use raycasting::framebuffer::Framebuffer;
use raycasting::text::{draw_centered, draw_text, glyph, text_width};

#[test]
fn glyph_ignores_case() {
    assert_eq!(glyph('a'), [14, 17, 17, 31, 17, 17, 17]);
    assert_eq!(glyph('a'), glyph('A'));
    assert_eq!(glyph('z'), glyph('Z'));
    assert_eq!(glyph('9'), [14, 17, 17, 15, 1, 2, 12]);
    assert_eq!(glyph('\''), [12, 4, 8, 0, 0, 0, 0]);
}

#[test]
fn unsupported_characters_are_blank() {
    assert_eq!(glyph(' '), [0; 7]);
    assert_eq!(glyph('?'), [0; 7]);
    assert_eq!(glyph('ñ'), [0; 7]);
}

#[test]
fn width_counts_characters() {
    assert_eq!(text_width("AB", 2), 24);
    assert_eq!(text_width("", 3), 0);
    assert_eq!(text_width("ÁB", 1), 12);
    assert_eq!(text_width("FPS:60", 2), 72);
}

fn painted(fb: &Framebuffer) -> Vec<(usize, usize)> {
    let mut v = Vec::new();
    for y in 0..fb.height {
        for x in 0..fb.width {
            if fb.buffer[y * fb.width + x] != 0 {
                v.push((x, y));
            }
        }
    }
    v
}

#[test]
fn draw_text_paints_glyph_bits() {
    let mut fb = Framebuffer::new(20, 10);
    draw_text(&mut fb, 1, 2, "-", 5, 1);
    assert_eq!(painted(&fb), vec![(1, 5), (2, 5), (3, 5), (4, 5), (5, 5)]);
    assert_eq!(fb.current_color, 5);
}

#[test]
fn draw_text_scales_and_advances() {
    let mut fb = Framebuffer::new(30, 20);
    draw_text(&mut fb, 0, 0, ".:", 3, 2);
    // '.' rows 5 and 6 hold bits 3 and 2 (columns 1 and 2).
    let mut expected = Vec::new();
    for y in 10..14 {
        for x in 2..6 {
            expected.push((x, y));
        }
    }
    // ':' column 2 of rows 1, 2, 4, 5, starting 12 pixels further.
    for row in [1usize, 2, 4, 5] {
        for dy in 0..2 {
            for dx in 0..2 {
                expected.push((12 + 4 + dx, row * 2 + dy));
            }
        }
    }
    expected.sort_by_key(|&(x, y)| (y, x));
    assert_eq!(painted(&fb), expected);
}

#[test]
fn draw_text_clips_at_the_edge() {
    let mut fb = Framebuffer::new(3, 3);
    draw_text(&mut fb, 0, 0, "I", 1, 1);
    assert_eq!(painted(&fb), vec![(0, 0), (1, 0), (2, 0), (2, 1), (2, 2)]);
}

#[test]
fn draw_centered_starts_at_half_width_less_half_text() {
    let mut fb = Framebuffer::new(40, 10);
    draw_centered(&mut fb, 0, "-", 1, 1);
    // width 6: starts at 20 - 3 = 17.
    assert_eq!(painted(&fb), vec![(17, 3), (18, 3), (19, 3), (20, 3), (21, 3)]);
    let mut narrow = Framebuffer::new(4, 10);
    draw_centered(&mut narrow, 0, "--", 1, 1);
    assert_eq!(painted(&narrow), vec![(0, 3), (1, 3), (2, 3), (3, 3)]);
}
