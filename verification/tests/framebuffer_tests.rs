use raycasting::framebuffer::Framebuffer;

fn px(fb: &Framebuffer, x: usize, y: usize) -> u32 {
    fb.buffer[y * fb.width + x]
}

#[test]
fn new_framebuffer_is_black_with_white_pen() {
    let fb = Framebuffer::new(4, 3);
    assert_eq!(fb.buffer.len(), 12);
    assert!(fb.buffer.iter().all(|&c| c == 0));
    assert_eq!(fb.current_color, 0xFFFFFF);
    assert_eq!(fb.background_color, 0);
}

#[test]
fn point_inside_and_outside() {
    let mut fb = Framebuffer::new(4, 3);
    fb.set_current_color(0x123456);
    fb.point(3, 2);
    assert_eq!(px(&fb, 3, 2), 0x123456);
    fb.point(4, 0);
    fb.point(0, 3);
    assert_eq!(fb.buffer.iter().filter(|&&c| c != 0).count(), 1);
}

#[test]
fn draw_rect_is_clipped() {
    let mut fb = Framebuffer::new(5, 5);
    fb.set_current_color(7);
    fb.draw_rect(3, 3, 10, 10);
    for y in 0..5 {
        for x in 0..5 {
            let expected = if x >= 3 && y >= 3 { 7 } else { 0 };
            assert_eq!(px(&fb, x, y), expected);
        }
    }
}

#[test]
fn draw_rect_empty_and_far_away() {
    let mut fb = Framebuffer::new(5, 5);
    fb.draw_rect(1, 1, 0, 3);
    fb.draw_rect(usize::MAX, usize::MAX, usize::MAX, usize::MAX);
    assert!(fb.buffer.iter().all(|&c| c == 0));
}

#[test]
fn vertical_line_includes_both_ends() {
    let mut fb = Framebuffer::new(3, 6);
    fb.set_current_color(9);
    fb.draw_vertical_line(1, 2, 4);
    for y in 0..6 {
        assert_eq!(px(&fb, 1, y), if (2..=4).contains(&y) { 9 } else { 0 });
        assert_eq!(px(&fb, 0, y), 0);
    }
    fb.draw_vertical_line(2, 4, 2);
    assert!((0..6).all(|y| px(&fb, 2, y) == 0));
    fb.draw_vertical_line(0, 5, usize::MAX);
    assert_eq!(px(&fb, 0, 5), 9);
}

#[test]
fn clear_fills_with_background() {
    let mut fb = Framebuffer::new(3, 3);
    fb.draw_rect(0, 0, 2, 2);
    fb.set_background_color(0x333355);
    fb.clear();
    assert!(fb.buffer.iter().all(|&c| c == 0x333355));
}
