use vstd::prelude::*;

verus! {

/// Row-major position of the pixel `(x, y)` in a buffer `width` pixels wide.
pub open spec fn pixel_index(width: int, x: int, y: int) -> int {
    y * width + x
}

/// `(px, py)` lies inside the rectangle whose top-left corner is `(x, y)`
/// and whose size is `w` by `h`.
pub open spec fn in_rect(px: int, py: int, x: int, y: int, w: int, h: int) -> bool {
    &&& x <= px < x + w
    &&& y <= py < y + h
}

/// Where a run of `len` pixels from `start` stops once cut at `limit`.
pub open spec fn clip_end(start: int, len: int, limit: int) -> int {
    if start >= limit {
        start
    } else if len > limit - start {
        limit
    } else {
        start + len
    }
}

/// A pixel of a grid `width` by `height` lies inside it.
pub proof fn lemma_pixel_index_bounds(width: int, height: int, x: int, y: int)
    requires
        0 <= x < width,
        0 <= y < height,
    ensures
        0 <= pixel_index(width, x, y) < width * height,
{
    assert(0 <= y * width + x < width * height) by (nonlinear_arith)
        requires
            0 <= x < width,
            0 <= y < height,
    ;
}

/// Two pixels of a grid `width` wide share a buffer slot only when they are
/// the same pixel.
pub proof fn lemma_pixel_index_injective(width: int, x1: int, y1: int, x2: int, y2: int)
    requires
        0 <= x1 < width,
        0 <= x2 < width,
        0 <= y1,
        0 <= y2,
        pixel_index(width, x1, y1) == pixel_index(width, x2, y2),
    ensures
        x1 == x2,
        y1 == y2,
{
    assert(y1 == y2) by (nonlinear_arith)
        requires
            0 <= x1 < width,
            0 <= x2 < width,
            0 <= y1,
            0 <= y2,
            y1 * width + x1 == y2 * width + x2,
    {
        if y1 < y2 {
            assert(y1 * width + width <= y2 * width);
        } else if y2 < y1 {
            assert(y2 * width + width <= y1 * width);
        }
    }
}

/// A grid of `width` by `height` pixels, stored row by row, with the colour
/// in which the next shapes are drawn and the colour that clears it.
pub struct Framebuffer {
    pub width: usize,
    pub height: usize,
    pub buffer: Vec<u32>,
    pub background_color: u32,
    pub current_color: u32,
}

impl Framebuffer {
    /// The buffer holds exactly one colour per pixel.
    pub open spec fn wf(&self) -> bool {
        self.buffer@.len() == self.width * self.height
    }

    /// The colour of the pixel `(x, y)`.
    pub open spec fn pixel(&self, x: int, y: int) -> u32 {
        self.buffer@[pixel_index(self.width as int, x, y)]
    }

    /// `(x, y)` is a pixel of the grid.
    pub open spec fn contains(&self, x: int, y: int) -> bool {
        0 <= x < self.width && 0 <= y < self.height
    }

    /// The buffer is the same as `other`'s but for the pixels, and the two
    /// have the same shape and colours.
    pub open spec fn same_settings(&self, other: &Framebuffer) -> bool {
        &&& self.width == other.width
        &&& self.height == other.height
        &&& self.background_color == other.background_color
        &&& self.current_color == other.current_color
    }

    /// A black grid of the given size; shapes are drawn in white until
    /// another colour is set.
    pub fn new(width: usize, height: usize) -> (fb: Framebuffer)
        requires
            width * height <= usize::MAX,
        ensures
            fb.wf(),
            fb.width == width,
            fb.height == height,
            fb.background_color == 0,
            fb.current_color == 0xFFFFFF,
            forall|i: int| 0 <= i < fb.buffer@.len() ==> #[trigger] fb.buffer@[i] == 0,
    {
        let n: usize = width * height;
        let mut buffer: Vec<u32> = Vec::new();
        let mut i: usize = 0;
        while i < n
            invariant
                i <= n,
                buffer@.len() == i,
                forall|k: int| 0 <= k < i ==> #[trigger] buffer@[k] == 0,
            decreases n - i,
        {
            buffer.push(0);
            i = i + 1;
        }
        Framebuffer { width, height, buffer, background_color: 0, current_color: 0xFFFFFF }
    }

    /// Sets the colour that `clear` fills the grid with.
    pub fn set_background_color(&mut self, color: u32)
        ensures
            final(self).background_color == color,
            final(self).current_color == old(self).current_color,
            final(self).width == old(self).width,
            final(self).height == old(self).height,
            final(self).buffer@ == old(self).buffer@,
    {
        self.background_color = color;
    }

    /// Sets the colour of the shapes drawn next.
    pub fn set_current_color(&mut self, color: u32)
        ensures
            final(self).current_color == color,
            final(self).background_color == old(self).background_color,
            final(self).width == old(self).width,
            final(self).height == old(self).height,
            final(self).buffer@ == old(self).buffer@,
    {
        self.current_color = color;
    }

    /// Fills every pixel with the background colour.
    pub fn clear(&mut self)
        requires
            old(self).wf(),
        ensures
            final(self).wf(),
            final(self).same_settings(old(self)),
            forall|x: int, y: int|
                #![trigger final(self).pixel(x, y)]
                final(self).contains(x, y) ==> final(self).pixel(x, y) == old(self).background_color,
    {
        let n = self.buffer.len();
        let color = self.background_color;
        let mut i: usize = 0;
        while i < n
            invariant
                i <= n,
                n == self.buffer@.len(),
                self.wf(),
                self.same_settings(old(self)),
                color == old(self).background_color,
                forall|k: int| 0 <= k < i ==> #[trigger] self.buffer@[k] == color,
            decreases n - i,
        {
            self.buffer.set(i, color);
            i = i + 1;
        }
        assert forall|x: int, y: int|
            #![trigger self.pixel(x, y)]
            self.contains(x, y) implies self.pixel(x, y) == color by {
            lemma_pixel_index_bounds(self.width as int, self.height as int, x, y);
        }
    }

    /// Paints the pixel `(x, y)` in the current colour; a pixel outside the
    /// grid is ignored.
    pub fn point(&mut self, x: usize, y: usize)
        requires
            old(self).wf(),
        ensures
            final(self).wf(),
            final(self).same_settings(old(self)),
            forall|px: int, py: int|
                #![trigger final(self).pixel(px, py)]
                final(self).contains(px, py) ==> final(self).pixel(px, py) == if px == x && py
                    == y {
                    old(self).current_color
                } else {
                    old(self).pixel(px, py)
                },
    {
        let n = self.buffer.len();
        if x < self.width && y < self.height {
            proof {
                assert(y * self.width + x < n) by (nonlinear_arith)
                    requires
                        x < self.width,
                        y < self.height,
                        n == self.width * self.height,
                ;
                assert(y * self.width <= y * self.width + x);
            }
            let idx: usize = y * self.width + x;
            let color = self.current_color;
            self.buffer.set(idx, color);
            proof {
                assert forall|px: int, py: int|
                    #![trigger self.pixel(px, py)]
                    self.contains(px, py) implies self.pixel(px, py) == if px == x && py == y {
                        color
                    } else {
                        old(self).pixel(px, py)
                    } by {
                    lemma_pixel_index_bounds(self.width as int, self.height as int, px, py);
                    if pixel_index(self.width as int, px, py) == idx {
                        lemma_pixel_index_injective(
                            self.width as int,
                            px,
                            py,
                            x as int,
                            y as int,
                        );
                    }
                }
            }
        }
    }
    /// Fills, in the current colour, the part inside the grid of the
    /// rectangle whose top-left corner is `(x, y)` and whose size is `w` by `h`.
    pub fn draw_rect(&mut self, x: usize, y: usize, w: usize, h: usize)
        requires
            old(self).wf(),
        ensures
            final(self).wf(),
            final(self).same_settings(old(self)),
            forall|px: int, py: int|
                #![trigger final(self).pixel(px, py)]
                final(self).contains(px, py) ==> final(self).pixel(px, py) == if in_rect(
                    px,
                    py,
                    x as int,
                    y as int,
                    w as int,
                    h as int,
                ) {
                    old(self).current_color
                } else {
                    old(self).pixel(px, py)
                },
    {
        let x_end: usize = if x >= self.width {
            x
        } else if w > self.width - x {
            self.width
        } else {
            x + w
        };
        let y_end: usize = if y >= self.height {
            y
        } else if h > self.height - y {
            self.height
        } else {
            y + h
        };
        let ghost color = old(self).current_color;
        let mut j: usize = y;
        while j < y_end
            invariant
                y <= j,
                j <= y_end || j == y,
                x_end == clip_end(x as int, w as int, self.width as int),
                y_end == clip_end(y as int, h as int, self.height as int),
                self.wf(),
                self.same_settings(old(self)),
                color == self.current_color,
                forall|px: int, py: int|
                    #![trigger self.pixel(px, py)]
                    self.contains(px, py) ==> self.pixel(px, py) == if x <= px < x_end && y <= py
                        < j {
                        color
                    } else {
                        old(self).pixel(px, py)
                    },
            decreases y_end - j,
        {
            let mut i: usize = x;
            while i < x_end
                invariant
                    x <= i,
                    i <= x_end || i == x,
                    y <= j < y_end,
                    x_end == clip_end(x as int, w as int, self.width as int),
                    y_end == clip_end(y as int, h as int, self.height as int),
                    self.wf(),
                    self.same_settings(old(self)),
                    color == self.current_color,
                    forall|px: int, py: int|
                        #![trigger self.pixel(px, py)]
                        self.contains(px, py) ==> self.pixel(px, py) == if (x <= px < x_end && y
                            <= py < j) || (py == j && x <= px < i) {
                            color
                        } else {
                            old(self).pixel(px, py)
                        },
                decreases x_end - i,
            {
                self.point(i, j);
                i = i + 1;
            }
            assert forall|px: int, py: int|
                #![trigger self.pixel(px, py)]
                self.contains(px, py) implies self.pixel(px, py) == if x <= px < x_end && y <= py
                    < j + 1 {
                    color
                } else {
                    old(self).pixel(px, py)
                } by {}
            j = j + 1;
        }
    }

    /// Paints, in the current colour, the pixels of column `x` from row `y0`
    /// to row `y1`, both included, that lie inside the grid.
    pub fn draw_vertical_line(&mut self, x: usize, y0: usize, y1: usize)
        requires
            old(self).wf(),
        ensures
            final(self).wf(),
            final(self).same_settings(old(self)),
            forall|px: int, py: int|
                #![trigger final(self).pixel(px, py)]
                final(self).contains(px, py) ==> final(self).pixel(px, py) == if px == x && y0
                    <= py <= y1 {
                    old(self).current_color
                } else {
                    old(self).pixel(px, py)
                },
    {
        let end: usize = if y1 < self.height {
            y1 + 1
        } else {
            self.height
        };
        if y0 < end {
            self.draw_rect(x, y0, 1, end - y0);
        }
    }
}

/// A `w` by `h` rectangle from `(x, y)` holds the columns `x` to `x + w - 1`
/// and the rows `y` to `y + h - 1`, ends included.
pub proof fn lemma_in_rect_bounds(px: int, py: int, x: int, y: int, w: int, h: int)
    ensures
        in_rect(px, py, x, y, w, h) <==> (x <= px && px <= x + w - 1 && y <= py && py <= y + h
            - 1),
{
}

} // verus!
