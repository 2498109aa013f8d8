use vstd::prelude::*;

use crate::framebuffer::{in_rect, Framebuffer};
use crate::maze::{height_in_cells, lemma_max_row_len, max_row_len, maze_cell, width_in_cells, Maze};
use crate::palette::{cell_color, spec_cell_color};

verus! {

/// Paints the top half of the grid (the first `height / 2` rows) in
/// `ceiling` and the rest in `floor`; `floor` stays the current colour.
pub fn draw_backdrop(fb: &mut Framebuffer, ceiling: u32, floor: u32)
    requires
        old(fb).wf(),
    ensures
        final(fb).wf(),
        final(fb).width == old(fb).width,
        final(fb).height == old(fb).height,
        final(fb).background_color == old(fb).background_color,
        final(fb).current_color == floor,
        forall|px: int, py: int|
            #![trigger final(fb).pixel(px, py)]
            final(fb).contains(px, py) ==> final(fb).pixel(px, py) == if py < old(fb).height / 2 {
                ceiling
            } else {
                floor
            },
{
    let width = fb.width;
    let height = fb.height;
    fb.set_current_color(ceiling);
    fb.draw_rect(0, 0, width, height / 2);
    let ghost top = *fb;
    fb.set_current_color(floor);
    fb.draw_rect(0, height / 2, width, height - height / 2);
    assert forall|px: int, py: int|
        #![trigger fb.pixel(px, py)]
        fb.contains(px, py) implies fb.pixel(px, py) == if py < height / 2 {
            ceiling
        } else {
            floor
        } by {
        assert(top.pixel(px, py) == if py < height / 2 {
            ceiling
        } else {
            old(fb).pixel(px, py)
        });
    }
}

/// Paints, in `color`, the wall slice of screen column `col` from row
/// `draw_start` to row `draw_end` (nothing when the slice is empty);
/// `color` stays the current colour.
pub fn draw_wall_slice(
    fb: &mut Framebuffer,
    col: usize,
    draw_start: usize,
    draw_end: usize,
    color: u32,
)
    requires
        old(fb).wf(),
    ensures
        final(fb).wf(),
        final(fb).width == old(fb).width,
        final(fb).height == old(fb).height,
        final(fb).background_color == old(fb).background_color,
        final(fb).current_color == color,
        forall|px: int, py: int|
            #![trigger final(fb).pixel(px, py)]
            final(fb).contains(px, py) ==> final(fb).pixel(px, py) == if px == col && draw_start
                <= py <= draw_end {
                color
            } else {
                old(fb).pixel(px, py)
            },
{
    fb.set_current_color(color);
    if draw_start <= draw_end {
        fb.draw_vertical_line(col, draw_start, draw_end);
    }
}

/// The last screen column a sprite spanning `x_start` to `x_end` covers:
/// at least its first one.
pub open spec fn sprite_last_column(x_start: int, x_end: int) -> int {
    if x_end > x_start {
        x_end
    } else {
        x_start
    }
}

/// The height in rows of a sprite from `y_start` to `y_end`: at least one.
pub open spec fn sprite_rows(y_start: int, y_end: int) -> int {
    if y_end - y_start > 1 {
        y_end - y_start
    } else {
        1
    }
}

/// `(px, py)` belongs to a visible column of the sprite: `hidden[k]` tells
/// whether a closer wall covers column `x_start + k`.
pub open spec fn sprite_covers(
    x_start: int,
    x_end: int,
    y_start: int,
    y_end: int,
    hidden: Seq<bool>,
    px: int,
    py: int,
) -> bool {
    &&& x_start <= px <= sprite_last_column(x_start, x_end)
    &&& !hidden[px - x_start]
    &&& y_start <= py < y_start + sprite_rows(y_start, y_end)
}

/// Paints a sprite in `color` as one vertical strip per screen column from
/// `x_start` to `x_end` (at least one column), rows `y_start` to `y_end`
/// (at least one row), skipping the columns that `hidden` marks as behind
/// a wall; `color` stays the current colour.
pub fn draw_sprite_columns(
    fb: &mut Framebuffer,
    color: u32,
    x_start: usize,
    x_end: usize,
    y_start: usize,
    y_end: usize,
    hidden: &[bool],
)
    requires
        old(fb).wf(),
        sprite_last_column(x_start as int, x_end as int) < usize::MAX,
        hidden@.len() == sprite_last_column(x_start as int, x_end as int) - x_start + 1,
    ensures
        final(fb).wf(),
        final(fb).width == old(fb).width,
        final(fb).height == old(fb).height,
        final(fb).background_color == old(fb).background_color,
        final(fb).current_color == color,
        forall|px: int, py: int|
            #![trigger final(fb).pixel(px, py)]
            final(fb).contains(px, py) ==> final(fb).pixel(px, py) == if sprite_covers(
                x_start as int,
                x_end as int,
                y_start as int,
                y_end as int,
                hidden@,
                px,
                py,
            ) {
                color
            } else {
                old(fb).pixel(px, py)
            },
        forall|k: int, py: int|
            #![trigger final(fb).pixel(x_start + k, py), hidden@[k]]
            0 <= k < hidden@.len() && hidden@[k] && final(fb).contains(x_start + k, py)
                ==> final(fb).pixel(x_start + k, py) == old(fb).pixel(x_start + k, py),
        forall|k: int, py: int|
            #![trigger final(fb).pixel(x_start + k, py), hidden@[k]]
            0 <= k < hidden@.len() && !hidden@[k] && final(fb).contains(x_start + k, py)
                && y_start <= py < y_start + (if y_end > y_start + 1 {
                y_end - y_start
            } else {
                1
            }) ==> final(fb).pixel(x_start + k, py) == color,
{
    fb.set_current_color(color);
    let last: usize = if x_end > x_start {
        x_end
    } else {
        x_start
    };
    let diff = y_end.saturating_sub(y_start);
    let rows: usize = if diff > 1 {
        diff
    } else {
        1
    };
    let ghost (xs, xe, ys, ye) = (x_start as int, x_end as int, y_start as int, y_end as int);
    let mut x: usize = x_start;
    while x <= last
        invariant
            x_start <= x <= last + 1,
            last == sprite_last_column(xs, xe),
            last < usize::MAX,
            rows == sprite_rows(ys, ye),
            xs == x_start,
            xe == x_end,
            ys == y_start,
            ye == y_end,
            hidden@.len() == last - x_start + 1,
            fb.wf(),
            fb.width == old(fb).width,
            fb.height == old(fb).height,
            fb.background_color == old(fb).background_color,
            fb.current_color == color,
            forall|px: int, py: int|
                #![trigger fb.pixel(px, py)]
                fb.contains(px, py) ==> fb.pixel(px, py) == if px < x && sprite_covers(
                    xs,
                    xe,
                    ys,
                    ye,
                    hidden@,
                    px,
                    py,
                ) {
                    color
                } else {
                    old(fb).pixel(px, py)
                },
        decreases last + 1 - x,
    {
        if !hidden[x - x_start] {
            fb.draw_rect(x, y_start, 1, rows);
        }
        x = x + 1;
    }
    proof {
        assert forall|k: int, py: int|
            #![trigger fb.pixel(x_start + k, py), hidden@[k]]
            0 <= k < hidden@.len() && hidden@[k] && fb.contains(x_start + k, py) implies fb.pixel(
                x_start + k,
                py,
            ) == old(fb).pixel(x_start + k, py) by {
            lemma_sprite_mask(xs, xe, ys, ye, hidden@, x_start + k, py);
        }
        assert forall|k: int, py: int|
            #![trigger fb.pixel(x_start + k, py), hidden@[k]]
            0 <= k < hidden@.len() && !hidden@[k] && fb.contains(x_start + k, py) && y_start
                <= py < y_start + (if y_end > y_start + 1 {
                y_end - y_start
            } else {
                1
            }) implies fb.pixel(x_start + k, py) == color by {
            lemma_sprite_mask(xs, xe, ys, ye, hidden@, x_start + k, py);
        }
    }
}

/// A sprite covers exactly the rows from `y_start` down, `y_end - y_start`
/// of them but at least one, in the columns from `x_start` to `x_end` (at
/// least the first) whose entry `hidden[x - x_start]` is false.
pub proof fn lemma_sprite_mask(
    x_start: int,
    x_end: int,
    y_start: int,
    y_end: int,
    hidden: Seq<bool>,
    px: int,
    py: int,
)
    requires
        x_start <= px,
        px - x_start < hidden.len(),
        hidden.len() == (if x_end > x_start {
            x_end
        } else {
            x_start
        }) - x_start + 1,
    ensures
        sprite_covers(x_start, x_end, y_start, y_end, hidden, px, py) <==> (!hidden[px - x_start]
            && y_start <= py && py < y_start + (if y_end > y_start + 1 {
            y_end - y_start
        } else {
            1
        })),
{
}

/// Side in pixels of one maze cell on the minimap.
pub const MINIMAP_SCALE: usize = 6;

/// Gap in pixels between the minimap and the top and right edges.
pub const MINIMAP_MARGIN: usize = 12;

/// A minimap of `map_w` by `map_h` pixels fits in a `width` by `height`
/// grid with its margin on both sides.
pub open spec fn minimap_fits(width: int, height: int, map_w: int, map_h: int) -> bool {
    map_w + 2 * MINIMAP_MARGIN <= width && map_h + 2 * MINIMAP_MARGIN <= height
}

/// The minimap cell, if any, drawn over the pixel `(px, py)` when the map
/// starts at `(ox, oy)`: a cell of the maze that is not empty.
pub open spec fn minimap_cell(m: Seq<Seq<char>>, ox: int, oy: int, px: int, py: int) -> Option<
    char,
> {
    if px >= ox && py >= oy {
        match maze_cell(m, (px - ox) / MINIMAP_SCALE as int, (py - oy) / MINIMAP_SCALE as int) {
            Some(c) => if c != ' ' {
                Some(c)
            } else {
                None
            },
            None => None,
        }
    } else {
        None
    }
}

/// Like `minimap_cell`, restricted to the cells before column `i0` of row
/// `j0` (rows top to bottom, each left to right).
pub open spec fn minimap_cell_before(
    m: Seq<Seq<char>>,
    ox: int,
    oy: int,
    j0: int,
    i0: int,
    px: int,
    py: int,
) -> Option<char> {
    let ci = (px - ox) / MINIMAP_SCALE as int;
    let cj = (py - oy) / MINIMAP_SCALE as int;
    if cj < j0 || (cj == j0 && ci < i0) {
        minimap_cell(m, ox, oy, px, py)
    } else {
        None
    }
}

/// The colour of `(px, py)` once the minimap of a `map_w` by `map_h` map
/// is drawn from `(ox, oy)` over a pixel of colour `under`: the colour of
/// its cell, black on the map's frame and background, or `under`.
pub open spec fn minimap_pixel(
    m: Seq<Seq<char>>,
    map_w: int,
    map_h: int,
    ox: int,
    oy: int,
    px: int,
    py: int,
    under: u32,
) -> u32 {
    match minimap_cell(m, ox, oy, px, py) {
        Some(c) => spec_cell_color(c),
        None => if in_rect(px, py, ox - 3, oy - 3, map_w + 6, map_h + 6) {
            0
        } else {
            under
        },
    }
}

/// The colour of the last non-empty cell among the first `n` of `row`, or
/// `dflt` when there is none.
pub open spec fn row_last_color(row: Seq<char>, n: int, dflt: u32) -> u32
    decreases n,
{
    if n <= 0 {
        dflt
    } else if row[n - 1] != ' ' {
        spec_cell_color(row[n - 1])
    } else {
        row_last_color(row, n - 1, dflt)
    }
}

/// The colour of the last non-empty cell of the first `n` rows, or black.
pub open spec fn grid_last_color(m: Seq<Seq<char>>, n: int) -> u32
    decreases n,
{
    if n <= 0 {
        0
    } else {
        row_last_color(m[n - 1], m[n - 1].len() as int, grid_last_color(m, n - 1))
    }
}

proof fn lemma_cell_square(p: int, o: int, k: int)
    requires
        k >= 0,
    ensures
        (o + 6 * k <= p < o + 6 * k + 6) <==> (p >= o && (p - o) / 6 == k),
{
}

/// Draws the minimap in the top-right corner: a black frame around the
/// map, then each non-empty cell as a square in its colour. Nothing is
/// drawn when it does not fit; otherwise its top-left corner is returned,
/// and the colour of its last cell (black if none) is the current colour.
pub fn draw_minimap_grid(fb: &mut Framebuffer, maze: &Maze) -> (origin: Option<(usize, usize)>)
    requires
        old(fb).wf(),
        max_row_len(maze.deep_view(), maze.deep_view().len() as int) * MINIMAP_SCALE + 2
            * MINIMAP_MARGIN <= usize::MAX,
        maze.deep_view().len() * MINIMAP_SCALE + 2 * MINIMAP_MARGIN <= usize::MAX,
    ensures
        ({
            let m = maze.deep_view();
            let map_w = max_row_len(m, m.len() as int) * MINIMAP_SCALE;
            let map_h = m.len() * MINIMAP_SCALE;
            &&& final(fb).wf()
            &&& final(fb).width == old(fb).width
            &&& final(fb).height == old(fb).height
            &&& final(fb).background_color == old(fb).background_color
            &&& match origin {
                None => {
                    &&& !minimap_fits(old(fb).width as int, old(fb).height as int, map_w, map_h)
                    &&& *final(fb) == *old(fb)
                },
                Some((ox, oy)) => {
                    &&& minimap_fits(old(fb).width as int, old(fb).height as int, map_w, map_h)
                    &&& ox == old(fb).width - map_w - MINIMAP_MARGIN
                    &&& oy == MINIMAP_MARGIN
                    &&& final(fb).current_color == grid_last_color(m, m.len() as int)
                    &&& forall|px: int, py: int|
                        #![trigger final(fb).pixel(px, py)]
                        final(fb).contains(px, py) ==> final(fb).pixel(px, py) == minimap_pixel(
                            m,
                            map_w,
                            map_h,
                            ox as int,
                            oy as int,
                            px,
                            py,
                            old(fb).pixel(px, py),
                        )
                    &&& forall|px: int, py: int, i: int, j: int|
                        #![trigger final(fb).pixel(px, py), m[j][i]]
                        0 <= j < m.len() && 0 <= i < m[j].len() && m[j][i] != ' ' && ox + 6 * i
                            <= px < ox + 6 * i + 6 && oy + 6 * j <= py < oy + 6 * j + 6
                            && final(fb).contains(px, py) ==> final(fb).pixel(px, py)
                            == spec_cell_color(m[j][i])
                },
            }
        }),
{
    let ghost m = maze.deep_view();
    let map_w = width_in_cells(maze) * MINIMAP_SCALE;
    let map_h = height_in_cells(maze) * MINIMAP_SCALE;
    if map_w + MINIMAP_MARGIN * 2 > fb.width || map_h + MINIMAP_MARGIN * 2 > fb.height {
        return None;
    }
    let origin_x = fb.width - map_w - MINIMAP_MARGIN;
    let origin_y = MINIMAP_MARGIN;
    proof {
        lemma_max_row_len(m, m.len() as int);
    }
    fb.set_current_color(0x000000);
    fb.draw_rect(origin_x - 3, origin_y - 3, map_w + 6, map_h + 6);
    let ghost framed = *fb;
    let mut j: usize = 0;
    while j < maze.len()
        invariant
            m == maze.deep_view(),
            j <= maze.len(),
            map_w == max_row_len(m, m.len() as int) * 6,
            map_h == m.len() * 6,
            forall|k: int| 0 <= k < m.len() ==> m[k].len() * 6 <= map_w,
            origin_x + map_w + MINIMAP_MARGIN == fb.width,
            origin_y == 12,
            map_h + 24 <= fb.height,
            fb.wf(),
            fb.width == old(fb).width,
            fb.height == old(fb).height,
            fb.background_color == old(fb).background_color,
            framed.width == old(fb).width,
            fb.current_color == grid_last_color(m, j as int),
            forall|px: int, py: int|
                #![trigger fb.pixel(px, py)]
                fb.contains(px, py) ==> fb.pixel(px, py) == match minimap_cell_before(
                    m,
                    origin_x as int,
                    origin_y as int,
                    j as int,
                    0,
                    px,
                    py,
                ) {
                    Some(c) => spec_cell_color(c),
                    None => framed.pixel(px, py),
                },
        decreases maze.len() - j,
    {
        let row = &maze[j];
        let mut i: usize = 0;
        while i < row.len()
            invariant
                m == maze.deep_view(),
                j < maze.len(),
                row@ == m[j as int],
                i <= row.len(),
                m[j as int].len() * 6 <= map_w,
                origin_x + map_w + MINIMAP_MARGIN == fb.width,
                origin_y == 12,
                map_h == m.len() * 6,
                map_h + 24 <= fb.height,
                fb.wf(),
                fb.width == old(fb).width,
                fb.height == old(fb).height,
                fb.background_color == old(fb).background_color,
                framed.width == old(fb).width,
                fb.current_color == row_last_color(m[j as int], i as int, grid_last_color(m, j as int)),
                forall|px: int, py: int|
                    #![trigger fb.pixel(px, py)]
                    fb.contains(px, py) ==> fb.pixel(px, py) == match minimap_cell_before(
                        m,
                        origin_x as int,
                        origin_y as int,
                        j as int,
                        i as int,
                        px,
                        py,
                    ) {
                        Some(c) => spec_cell_color(c),
                        None => framed.pixel(px, py),
                    },
            decreases row.len() - i,
        {
            let cell = row[i];
            if cell != ' ' {
                let color = cell_color(cell);
                let ghost start = *fb;
                fb.set_current_color(color);
                let ghost mid = *fb;
                fb.draw_rect(origin_x + i * MINIMAP_SCALE, origin_y + j * MINIMAP_SCALE, 6, 6);
                proof {
                    assert forall|px: int, py: int|
                        #![trigger fb.pixel(px, py)]
                        fb.contains(px, py) implies fb.pixel(px, py) == match minimap_cell_before(
                            m,
                            origin_x as int,
                            origin_y as int,
                            j as int,
                            i + 1,
                            px,
                            py,
                        ) {
                            Some(c) => spec_cell_color(c),
                            None => framed.pixel(px, py),
                        } by {
                        lemma_cell_square(px, origin_x as int, i as int);
                        lemma_cell_square(py, origin_y as int, j as int);
                        assert(mid.pixel(px, py) == start.pixel(px, py));
                    }
                }
            } else {
                proof {
                    assert forall|px: int, py: int|
                        #![trigger fb.pixel(px, py)]
                        fb.contains(px, py) implies fb.pixel(px, py) == match minimap_cell_before(
                            m,
                            origin_x as int,
                            origin_y as int,
                            j as int,
                            i + 1,
                            px,
                            py,
                        ) {
                            Some(c) => spec_cell_color(c),
                            None => framed.pixel(px, py),
                        } by {
                        lemma_cell_square(px, origin_x as int, i as int);
                        lemma_cell_square(py, origin_y as int, j as int);
                    }
                }
            }
            i = i + 1;
        }
        proof {
            assert forall|px: int, py: int|
                #![trigger fb.pixel(px, py)]
                fb.contains(px, py) implies fb.pixel(px, py) == match minimap_cell_before(
                    m,
                    origin_x as int,
                    origin_y as int,
                    j + 1,
                    0,
                    px,
                    py,
                ) {
                    Some(c) => spec_cell_color(c),
                    None => framed.pixel(px, py),
                } by {
                assert(minimap_cell_before(m, origin_x as int, origin_y as int, j + 1, 0, px, py)
                    == minimap_cell_before(m, origin_x as int, origin_y as int, j as int, row@.len() as int, px, py));
            }
        }
        j = j + 1;
    }
    proof {
        assert forall|px: int, py: int|
            #![trigger fb.pixel(px, py)]
            fb.contains(px, py) implies fb.pixel(px, py) == minimap_pixel(
                m,
                map_w as int,
                map_h as int,
                origin_x as int,
                origin_y as int,
                px,
                py,
                old(fb).pixel(px, py),
            ) by {
            assert(minimap_cell_before(m, origin_x as int, origin_y as int, m.len() as int, 0, px, py)
                == minimap_cell(m, origin_x as int, origin_y as int, px, py));
        }
    }
    proof {
        assert forall|px: int, py: int, i: int, j: int|
            #![trigger fb.pixel(px, py), m[j][i]]
            0 <= j < m.len() && 0 <= i < m[j].len() && m[j][i] != ' ' && origin_x + 6 * i <= px
                < origin_x + 6 * i + 6 && origin_y + 6 * j <= py < origin_y + 6 * j + 6
                && fb.contains(px, py) implies fb.pixel(px, py) == spec_cell_color(m[j][i]) by {
            lemma_minimap_square(
                m,
                map_w as int,
                map_h as int,
                origin_x as int,
                origin_y as int,
                i,
                j,
                px - origin_x - 6 * i,
                py - origin_y - 6 * j,
                old(fb).pixel(px, py),
            );
        }
    }
    Some((origin_x, origin_y))
}

/// Every non-empty cell of the maze shows on the minimap as a 6 by 6 square
/// in its own colour: cell `i` of row `j` covers the pixels from
/// `(ox + 6i, oy + 6j)` to `(ox + 6i + 5, oy + 6j + 5)`.
pub proof fn lemma_minimap_square(
    m: Seq<Seq<char>>,
    map_w: int,
    map_h: int,
    ox: int,
    oy: int,
    i: int,
    j: int,
    di: int,
    dj: int,
    under: u32,
)
    requires
        0 <= j < m.len(),
        0 <= i < m[j].len(),
        m[j][i] != ' ',
        0 <= di < 6,
        0 <= dj < 6,
    ensures
        minimap_pixel(m, map_w, map_h, ox, oy, ox + 6 * i + di, oy + 6 * j + dj, under)
            == spec_cell_color(m[j][i]),
{
    lemma_cell_square(ox + 6 * i + di, ox, i);
    lemma_cell_square(oy + 6 * j + dj, oy, j);
}

/// An empty cell of the maze leaves its square black on the minimap (the
/// map's background).
pub proof fn lemma_minimap_empty_square(
    m: Seq<Seq<char>>,
    map_w: int,
    map_h: int,
    ox: int,
    oy: int,
    i: int,
    j: int,
    di: int,
    dj: int,
    under: u32,
)
    requires
        0 <= j < m.len(),
        0 <= i < m[j].len(),
        m[j][i] == ' ',
        0 <= di < 6,
        0 <= dj < 6,
        6 * (i + 1) <= map_w,
        6 * (j + 1) <= map_h,
    ensures
        minimap_pixel(m, map_w, map_h, ox, oy, ox + 6 * i + di, oy + 6 * j + dj, under) == 0,
{
    lemma_cell_square(ox + 6 * i + di, ox, i);
    lemma_cell_square(oy + 6 * j + dj, oy, j);
}

} // verus!
