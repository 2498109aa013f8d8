use vstd::prelude::*;

verus! {

/// The colour in which a maze cell is drawn, by the character that marks it.
pub open spec fn spec_cell_color(cell: char) -> u32 {
    if cell == '+' {
        0x00AAFF
    } else if cell == '-' {
        0xFF5555
    } else if cell == '|' {
        0xFFA500
    } else if cell == '*' {
        0x9932CC
    } else if cell == 'g' || cell == 'G' {
        0x00FF00
    } else {
        0xFFDDDD
    }
}

/// Colour of a wall (or of its square on the minimap), chosen by the
/// character of its cell.
pub fn cell_color(cell: char) -> (color: u32)
    ensures
        color == spec_cell_color(cell),
{
    match cell {
        '+' => 0x00AAFF,
        '-' => 0xFF5555,
        '|' => 0xFFA500,
        '*' => 0x9932CC,
        'g' | 'G' => 0x00FF00,
        _ => 0xFFDDDD,
    }
}

/// The red channel (bits 16 to 23) of a `0xRRGGBB` colour.
pub open spec fn red(color: u32) -> u32 {
    (color >> 16u32) & 0xFF
}

/// The green channel (bits 8 to 15) of a `0xRRGGBB` colour.
pub open spec fn green(color: u32) -> u32 {
    (color >> 8u32) & 0xFF
}

/// The blue channel (bits 0 to 7) of a `0xRRGGBB` colour.
pub open spec fn blue(color: u32) -> u32 {
    color & 0xFF
}

/// The colour `0xRRGGBB` put together from its channels.
pub open spec fn rgb(r: u32, g: u32, b: u32) -> u32 {
    (r << 16u32) | (g << 8u32) | b
}

/// The red, green and blue channels of a colour, each from 0 to 255.
pub fn rgb_channels(color: u32) -> (channels: (u32, u32, u32))
    ensures
        channels == (red(color), green(color), blue(color)),
        channels.0 <= 0xFF,
        channels.1 <= 0xFF,
        channels.2 <= 0xFF,
{
    proof {
        assert((color >> 16u32) & 0xFF <= 0xFF) by (bit_vector);
        assert((color >> 8u32) & 0xFF <= 0xFF) by (bit_vector);
        assert(color & 0xFF <= 0xFF) by (bit_vector);
    }
    ((color >> 16u32) & 0xFF, (color >> 8u32) & 0xFF, color & 0xFF)
}

/// The colour made of the given channels.
pub fn pack_rgb(r: u32, g: u32, b: u32) -> (color: u32)
    ensures
        color == rgb(r, g, b),
{
    (r << 16u32) | (g << 8u32) | b
}

/// Splitting a colour made of channels up to 255 gives those channels back.
pub proof fn lemma_channels_of_rgb(r: u32, g: u32, b: u32)
    requires
        r <= 0xFF,
        g <= 0xFF,
        b <= 0xFF,
    ensures
        red(rgb(r, g, b)) == r,
        green(rgb(r, g, b)) == g,
        blue(rgb(r, g, b)) == b,
{
    assert(((((r << 16u32) | (g << 8u32) | b) >> 16u32) & 0xFF) == r) by (bit_vector)
        requires
            r <= 0xFF,
            g <= 0xFF,
            b <= 0xFF,
    ;
    assert(((((r << 16u32) | (g << 8u32) | b) >> 8u32) & 0xFF) == g) by (bit_vector)
        requires
            r <= 0xFF,
            g <= 0xFF,
            b <= 0xFF,
    ;
    assert((((r << 16u32) | (g << 8u32) | b) & 0xFF) == b) by (bit_vector)
        requires
            r <= 0xFF,
            g <= 0xFF,
            b <= 0xFF,
    ;
}

/// Putting a colour's channels back together gives its low 24 bits.
pub proof fn lemma_rgb_of_channels(color: u32)
    ensures
        rgb(red(color), green(color), blue(color)) == color & 0xFFFFFF,
{
    assert(((((color >> 16u32) & 0xFF) << 16u32) | (((color >> 8u32) & 0xFF) << 8u32) | (color
        & 0xFF)) == color & 0xFFFFFF) by (bit_vector);
}

/// The flame colours a torch cycles through, one per animation frame.
pub open spec fn flame_palette(k: int) -> u32 {
    if k == 0 {
        0xFF8C00
    } else if k == 1 {
        0xFFA500
    } else if k == 2 {
        0xFFD700
    } else {
        0xFF6600
    }
}

/// The colour of a torch at animation frame `frame`: the four flame
/// colours in turn.
pub fn flame_color(frame: usize) -> (color: u32)
    ensures
        color == flame_palette(frame as int % 4),
{
    match frame % 4 {
        0 => 0xFF8C00,
        1 => 0xFFA500,
        2 => 0xFFD700,
        _ => 0xFF6600,
    }
}

/// A torch's flame repeats every four animation frames.
pub proof fn lemma_flame_period(frame: int)
    requires
        frame >= 0,
    ensures
        flame_palette((frame + 4) % 4) == flame_palette(frame % 4),
{
}

/// Each kind of wall has a colour of its own: `+`, `-`, `|`, `*` and the
/// goal are drawn in five different colours, none of them the plain wall
/// colour, and the goal looks the same in either case.
pub proof fn lemma_wall_colours_distinct()
    ensures
        ({
            let cs = seq![
                spec_cell_color('+'),
                spec_cell_color('-'),
                spec_cell_color('|'),
                spec_cell_color('*'),
                spec_cell_color('g'),
                spec_cell_color('#'),
            ];
            forall|a: int, b: int| 0 <= a < b < 6 ==> cs[a] != cs[b]
        }),
        spec_cell_color('g') == spec_cell_color('G'),
{
}

/// The four flame colours are all different, so the torch visibly changes
/// every frame.
pub proof fn lemma_flame_colours_distinct(a: int, b: int)
    requires
        0 <= a < 4,
        0 <= b < 4,
        a != b,
    ensures
        flame_palette(a) != flame_palette(b),
{
}

/// The channels are the colour's base-256 digits: red the third, green the
/// second, blue the last; putting channels up to 255 together is
/// `r * 65536 + g * 256 + b`.
pub proof fn lemma_channel_digits(color: u32, r: u32, g: u32, b: u32)
    requires
        r <= 0xFF,
        g <= 0xFF,
        b <= 0xFF,
    ensures
        red(color) == (color / 0x10000) % 0x100,
        green(color) == (color / 0x100) % 0x100,
        blue(color) == color % 0x100,
        rgb(r, g, b) == r * 0x10000 + g * 0x100 + b,
{
    assert(((color >> 16u32) & 0xFF) == (color / 0x10000) % 0x100) by (bit_vector);
    assert(((color >> 8u32) & 0xFF) == (color / 0x100) % 0x100) by (bit_vector);
    assert((color & 0xFF) == color % 0x100) by (bit_vector);
    assert(((r << 16u32) | (g << 8u32) | b) == r * 0x10000 + g * 0x100 + b) by (bit_vector)
        requires
            r <= 0xFF,
            g <= 0xFF,
            b <= 0xFF,
    ;
}

} // verus!
