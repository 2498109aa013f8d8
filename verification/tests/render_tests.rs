use raycasting::framebuffer::Framebuffer;
use raycasting::maze::parse_maze;
use raycasting::render::{draw_backdrop, draw_minimap_grid, draw_sprite_columns, draw_wall_slice};

fn px(fb: &Framebuffer, x: usize, y: usize) -> u32 {
    fb.buffer[y * fb.width + x]
}

#[test]
fn backdrop_halves() {
    let mut fb = Framebuffer::new(3, 5);
    draw_backdrop(&mut fb, 1, 2);
    for y in 0..5 {
        for x in 0..3 {
            assert_eq!(px(&fb, x, y), if y < 2 { 1 } else { 2 });
        }
    }
    assert_eq!(fb.current_color, 2);
}

#[test]
fn wall_slice_and_empty_slice() {
    let mut fb = Framebuffer::new(3, 5);
    draw_wall_slice(&mut fb, 1, 1, 3, 4);
    for y in 0..5 {
        assert_eq!(px(&fb, 1, y), if (1..=3).contains(&y) { 4 } else { 0 });
    }
    draw_wall_slice(&mut fb, 2, 3, 1, 6);
    assert!((0..5).all(|y| px(&fb, 2, y) == 0));
    assert_eq!(fb.current_color, 6);
}

#[test]
fn sprite_columns_skip_hidden() {
    let mut fb = Framebuffer::new(6, 6);
    draw_sprite_columns(&mut fb, 8, 1, 3, 2, 4, &[false, true, false]);
    for y in 0..6 {
        for x in 0..6 {
            let expected = if (x == 1 || x == 3) && (2..4).contains(&y) { 8 } else { 0 };
            assert_eq!(px(&fb, x, y), expected);
        }
    }
}

#[test]
fn sprite_has_at_least_one_column_and_row() {
    let mut fb = Framebuffer::new(6, 6);
    draw_sprite_columns(&mut fb, 8, 4, 2, 3, 3, &[false]);
    let painted: Vec<usize> = (0..36).filter(|&i| fb.buffer[i] != 0).collect();
    assert_eq!(painted, vec![3 * 6 + 4]);
}

#[test]
fn minimap_draws_frame_and_cells() {
    let maze = parse_maze("+ \n g");
    let mut fb = Framebuffer::new(40, 40);
    fb.set_background_color(0x111111);
    fb.clear();
    let origin = draw_minimap_grid(&mut fb, &maze);
    // map is 12x12 pixels: origin x = 40 - 12 - 12.
    assert_eq!(origin, Some((16, 12)));
    assert_eq!(px(&fb, 16, 12), 0x00AAFF);
    assert_eq!(px(&fb, 21, 17), 0x00AAFF);
    assert_eq!(px(&fb, 22, 12), 0);
    assert_eq!(px(&fb, 22, 18), 0x00FF00);
    assert_eq!(px(&fb, 16, 18), 0);
    assert_eq!(px(&fb, 13, 9), 0);
    assert_eq!(px(&fb, 12, 9), 0x111111);
    assert_eq!(px(&fb, 30, 26), 0);
    assert_eq!(px(&fb, 31, 27), 0x111111);
    assert_eq!(fb.current_color, 0x00FF00);
}

#[test]
fn minimap_that_does_not_fit_draws_nothing() {
    let maze = parse_maze("++++");
    let mut fb = Framebuffer::new(47, 40);
    assert_eq!(draw_minimap_grid(&mut fb, &maze), None);
    assert!(fb.buffer.iter().all(|&c| c == 0));
    let mut fits = Framebuffer::new(48, 40);
    assert_eq!(draw_minimap_grid(&mut fits, &maze), Some((12, 12)));
}
