use raycasting::palette::{cell_color, flame_color, pack_rgb, rgb_channels};

#[test]
fn cell_colors() {
    assert_eq!(cell_color('+'), 0x00AAFF);
    assert_eq!(cell_color('-'), 0xFF5555);
    assert_eq!(cell_color('|'), 0xFFA500);
    assert_eq!(cell_color('*'), 0x9932CC);
    assert_eq!(cell_color('g'), 0x00FF00);
    assert_eq!(cell_color('G'), 0x00FF00);
    assert_eq!(cell_color('#'), 0xFFDDDD);
    assert_eq!(cell_color(' '), 0xFFDDDD);
}

#[test]
fn channels_and_packing() {
    assert_eq!(rgb_channels(0xFF5555), (0xFF, 0x55, 0x55));
    assert_eq!(rgb_channels(0xAB123456), (0x12, 0x34, 0x56));
    assert_eq!(pack_rgb(0x12, 0x34, 0x56), 0x123456);
    let (r, g, b) = rgb_channels(0xAB123456);
    assert_eq!(pack_rgb(r, g, b), 0x123456);
    assert_eq!(rgb_channels(pack_rgb(1, 2, 3)), (1, 2, 3));
}

#[test]
fn flame_cycles_every_four_frames() {
    assert_eq!(flame_color(0), 0xFF8C00);
    assert_eq!(flame_color(1), 0xFFA500);
    assert_eq!(flame_color(2), 0xFFD700);
    assert_eq!(flame_color(3), 0xFF6600);
    for f in 0..20 {
        assert_eq!(flame_color(f + 4), flame_color(f));
    }
}
