//! Drawing on an RGB raster: filled squares, thick Bresenham lines and flow
//! arrows, as used to overlay the upwind field on a terrain image.
use vstd::prelude::*;
use vstd::arithmetic::div_mod::lemma_fundamental_div_mod_converse;
use crate::wind_column_gradient_map::{mask_shape, on_grid};

verus! {

/// One RGB pixel.
#[derive(Clone, Copy, Debug, PartialEq, Eq, Structural)]
pub struct Rgb8 {
    pub r: u8,
    pub g: u8,
    pub b: u8,
}

/// A `width` x `height` image stored row by row, one entry per pixel.
pub struct RgbRaster {
    pub width: u32,
    pub height: u32,
    pub pixels: Vec<Rgb8>,
}

/// `(x, y)` is a pixel of a `width` x `height` image.
pub open spec fn on_image(width: int, height: int, x: int, y: int) -> bool {
    0 <= x < width && 0 <= y < height
}

/// `(x, y)` lies in the square of half side `half` centred on `(cx, cy)`
/// (empty when `half` is negative).
pub open spec fn in_square(cx: int, cy: int, half: int, x: int, y: int) -> bool {
    cx - half <= x <= cx + half && cy - half <= y <= cy + half
}

/// Every value in `[lo, hi]` fits an `i32`.
pub open spec fn fits_i32(lo: int, hi: int) -> bool {
    i32::MIN <= lo && hi <= i32::MAX
}

impl RgbRaster {
    /// The pixel vector holds exactly one entry per pixel.
    pub open spec fn wf(&self) -> bool {
        self.pixels.len() == self.width * self.height
    }

    /// The pixel at `(x, y)`.
    pub open spec fn at(&self, x: int, y: int) -> Rgb8 {
        self.pixels@[y * self.width + x]
    }

    /// `other` has this image's size and agrees with it off the pixels
    /// where `painted` holds, where it is `color`.
    pub open spec fn painted_from(&self, old: &RgbRaster, painted: spec_fn(int, int) -> bool, color: Rgb8) -> bool {
        &&& self.wf()
        &&& self.width == old.width
        &&& self.height == old.height
        &&& forall|x: int, y: int|
            on_image(self.width as int, self.height as int, x, y) ==> #[trigger] self.at(x, y) == if painted(x, y) {
                color
            } else {
                old.at(x, y)
            }
    }

    /// An image of the given size filled with one colour.
    pub fn new(width: u32, height: u32, fill: Rgb8) -> (r: Self)
        requires
            width * height <= usize::MAX,
        ensures
            r.wf(),
            r.width == width,
            r.height == height,
            forall|x: int, y: int| on_image(width as int, height as int, x, y) ==> #[trigger] r.at(x, y) == fill,
    {
        let n: usize = (width as usize) * (height as usize);
        let pixels: Vec<Rgb8> = vec![fill; n];
        let r = RgbRaster { width, height, pixels };
        assert forall|x: int, y: int| on_image(width as int, height as int, x, y) implies #[trigger] r.at(x, y) == fill by {
            lemma_pixel_index(width as int, height as int, x, y);
        }
        r
    }

    /// The pixel at `(x, y)`.
    pub fn get_pixel(&self, x: u32, y: u32) -> (c: Rgb8)
        requires
            self.wf(),
            x < self.width,
            y < self.height,
        ensures
            c == self.at(x as int, y as int),
    {
        proof {
            lemma_pixel_index(self.width as int, self.height as int, x as int, y as int);
        }
        let i: usize = (y as usize) * (self.width as usize) + (x as usize);
        self.pixels[i]
    }

    /// Sets the pixel at `(x, y)` and leaves every other pixel as it was.
    pub fn put_pixel(&mut self, x: u32, y: u32, c: Rgb8)
        requires
            old(self).wf(),
            x < old(self).width,
            y < old(self).height,
        ensures
            final(self).painted_from(old(self), |px: int, py: int| px == x && py == y, c),
    {
        proof {
            lemma_pixel_index(self.width as int, self.height as int, x as int, y as int);
        }
        let i: usize = (y as usize) * (self.width as usize) + (x as usize);
        self.pixels.set(i, c);
        proof {
            let w = self.width as int;
            let h = self.height as int;
            assert forall|px: int, py: int| on_image(w, h, px, py) implies #[trigger] self.at(px, py) == if px
                == x && py == y {
                c
            } else {
                old(self).at(px, py)
            } by {
                lemma_pixel_index(w, h, px, py);
                if py * w + px == y * w + x {
                    lemma_pixel_index_injective(w, px, py, x as int, y as int);
                }
            }
        }
    }
}

/// The pixel `(x, y)` of a `width` x `height` image is stored below
/// `width * height`.
proof fn lemma_pixel_index(width: int, height: int, x: int, y: int)
    requires
        on_image(width, height, x, y),
    ensures
        0 <= y * width + x < width * height,
{
    assert(0 <= y * width + x < width * height) by (nonlinear_arith)
        requires
            0 <= x < width,
            0 <= y < height,
    ;
}

/// Distinct pixels are stored at distinct places.
proof fn lemma_pixel_index_injective(width: int, x1: int, y1: int, x2: int, y2: int)
    requires
        0 <= x1 < width,
        0 <= x2 < width,
        0 <= y1,
        0 <= y2,
        y1 * width + x1 == y2 * width + x2,
    ensures
        x1 == x2 && y1 == y2,
{
    lemma_fundamental_div_mod_converse(y1 * width + x1, width, y1, x1);
    lemma_fundamental_div_mod_converse(y2 * width + x2, width, y2, x2);
}

/// Paints the square of half side `half` centred on `(cx, cy)`, clipped to
/// the image.
pub fn put_square(img: &mut RgbRaster, cx: i32, cy: i32, half: i32, color: Rgb8)
    requires
        old(img).wf(),
        half > i32::MIN,
        half >= 0 ==> fits_i32(cx - half, cx + half) && fits_i32(cy - half, cy + half),
    ensures
        final(img).painted_from(old(img), |x: int, y: int| in_square(cx as int, cy as int, half as int, x, y), color),
{
    let ghost old_img = *img;
    if half < 0 || img.width == 0 || img.height == 0 {
        return;
    }
    let w: i64 = img.width as i64;
    let h: i64 = img.height as i64;
    let x_lo: i64 = if (cx as i64) - (half as i64) < 0 { 0 } else { (cx as i64) - (half as i64) };
    let x_hi: i64 = if (cx as i64) + (half as i64) > w - 1 { w - 1 } else { (cx as i64) + (half as i64) };
    let y_lo: i64 = if (cy as i64) - (half as i64) < 0 { 0 } else { (cy as i64) - (half as i64) };
    let y_hi: i64 = if (cy as i64) + (half as i64) > h - 1 { h - 1 } else { (cy as i64) + (half as i64) };
    let mut y: i64 = y_lo;
    if x_lo > x_hi {
        y = y_hi + 1;
    }
    while y <= y_hi
        invariant
            img.painted_from(
                &old_img,
                |px: int, py: int| y_lo <= py < y && x_lo <= px <= x_hi,
                color,
            ),
            w == img.width,
            h == img.height,
            0 <= x_lo,
            x_hi < w,
            0 <= y_lo,
            y_lo <= y || x_lo > x_hi,
            y_hi < h,
            y <= y_hi + 1 || y == y_lo,
            x_lo <= x_hi || y == y_hi + 1,
        decreases y_hi + 1 - y,
    {
        let mut x: i64 = x_lo;
        while x <= x_hi
            invariant
                img.painted_from(
                    &old_img,
                    |px: int, py: int| (y_lo <= py < y && x_lo <= px <= x_hi) || (py == y && x_lo <= px < x),
                    color,
                ),
                w == img.width,
                h == img.height,
                0 <= x_lo <= x,
                x_hi < w,
                0 <= y_lo <= y <= y_hi,
                y_hi < h,
                x <= x_hi + 1,
            decreases x_hi + 1 - x,
        {
            let ghost before = *img;
            img.put_pixel(x as u32, y as u32, color);
            proof {
                assert forall|px: int, py: int| on_image(w as int, h as int, px, py) implies #[trigger] img.at(px, py)
                    == if (y_lo <= py < y && x_lo <= px <= x_hi) || (py == y && x_lo <= px < x + 1) {
                    color
                } else {
                    old_img.at(px, py)
                } by {
                    assert(img.at(px, py) == if px == x && py == y { color } else { before.at(px, py) });
                }
            }
            x = x + 1;
        }
        y = y + 1;
    }
    proof {
        assert forall|px: int, py: int| on_image(w as int, h as int, px, py) implies #[trigger] img.at(px, py)
            == if in_square(cx as int, cy as int, half as int, px, py) {
            color
        } else {
            old_img.at(px, py)
        } by {
            assert((y_lo <= py < y && x_lo <= px <= x_hi) == in_square(cx as int, cy as int, half as int, px, py));
        }
    }
}

/// `|b - a|`.
pub open spec fn span(a: int, b: int) -> int {
    if a <= b {
        b - a
    } else {
        a - b
    }
}

/// The unit step that moves from `a` toward `b` (`-1` when they are equal).
pub open spec fn toward(a: int, b: int) -> int {
    if a < b {
        1
    } else {
        -1
    }
}

/// The state `(x, y, err)` of the Bresenham walk from `(x0, y0)` toward
/// `(x1, y1)` after `k` steps.
pub open spec fn line_state(x0: int, y0: int, x1: int, y1: int, k: nat) -> (int, int, int)
    decreases k,
{
    let dx = span(x0, x1);
    let dy = -span(y0, y1);
    if k == 0 {
        (x0, y0, dx + dy)
    } else {
        let s = line_state(x0, y0, x1, y1, (k - 1) as nat);
        let e2 = 2 * s.2;
        let x = if e2 >= dy { s.0 + toward(x0, x1) } else { s.0 };
        let y = if e2 <= dx { s.1 + toward(y0, y1) } else { s.1 };
        let err = s.2 + (if e2 >= dy { dy } else { 0 }) + (if e2 <= dx { dx } else { 0 });
        (x, y, err)
    }
}

/// After `k` steps the walk stands on the end point.
pub open spec fn line_done(x0: int, y0: int, x1: int, y1: int, k: nat) -> bool {
    line_state(x0, y0, x1, y1, k).0 == x1 && line_state(x0, y0, x1, y1, k).1 == y1
}

/// The walk has not stood on the end point before step `k`, so the point
/// it reaches in `k` steps belongs to the line.
pub open spec fn line_point_drawn(x0: int, y0: int, x1: int, y1: int, k: nat) -> bool {
    forall|m: nat| m < k ==> !#[trigger] line_done(x0, y0, x1, y1, m)
}

/// `(x, y)` lies within `stroke` of the point the walk reaches in `k` steps.
pub open spec fn near_line_point(x0: int, y0: int, x1: int, y1: int, stroke: int, k: nat, x: int, y: int) -> bool {
    in_square(line_state(x0, y0, x1, y1, k).0, line_state(x0, y0, x1, y1, k).1, stroke, x, y)
}

/// `(x, y)` lies within `stroke` of a point of the line from `(x0, y0)` to
/// `(x1, y1)`.
pub open spec fn thick_line_covers(x0: int, y0: int, x1: int, y1: int, stroke: int, x: int, y: int) -> bool {
    exists|k: nat| line_point_drawn(x0, y0, x1, y1, k) && #[trigger] near_line_point(x0, y0, x1, y1, stroke, k, x, y)
}

/// What the walk keeps after `i` horizontal and `j` vertical moves: it
/// stands `i` and `j` cells from the start toward the end, never past it,
/// and its error term tracks the moves and stays within `-2b - a ..= 2a + b`.
pub open spec fn walk_inv(x0: int, y0: int, x1: int, y1: int, s: (int, int, int), i: int, j: int) -> bool {
    let a = span(x0, x1);
    let b = span(y0, y1);
    &&& 0 <= i <= a
    &&& 0 <= j <= b
    &&& s.0 == if x0 < x1 { x0 + i } else { x0 - i }
    &&& s.1 == if y0 < y1 { y0 + j } else { y0 - j }
    &&& s.2 == a * (1 + j) - b * (1 + i)
    &&& -2 * b - a <= s.2 <= 2 * a + b
}

/// The walk starts in its invariant.
proof fn lemma_walk_start(x0: int, y0: int, x1: int, y1: int)
    ensures
        walk_inv(x0, y0, x1, y1, line_state(x0, y0, x1, y1, 0), 0, 0),
{
    let a = span(x0, x1);
    let b = span(y0, y1);
    assert(a * (1 + 0int) == a);
    assert(b * (1 + 0int) == b);
}

/// A step off the end point keeps the invariant and moves at least one
/// cell, never beyond the end point.
proof fn lemma_walk_step(x0: int, y0: int, x1: int, y1: int, k: nat, i: int, j: int)
    requires
        walk_inv(x0, y0, x1, y1, line_state(x0, y0, x1, y1, k), i, j),
        !line_done(x0, y0, x1, y1, k),
    ensures
        ({
            let e2 = 2 * line_state(x0, y0, x1, y1, k).2;
            let i2 = if e2 >= -span(y0, y1) { i + 1 } else { i };
            let j2 = if e2 <= span(x0, x1) { j + 1 } else { j };
            &&& walk_inv(x0, y0, x1, y1, line_state(x0, y0, x1, y1, k + 1), i2, j2)
            &&& i2 + j2 > i + j
        }),
{
    let a = span(x0, x1);
    let b = span(y0, y1);
    let s = line_state(x0, y0, x1, y1, k);
    let e = s.2;
    let e2 = 2 * e;
    if i == a {
        // standing on the end column: the row is not done yet
        assert(j < b);
        assert(a * (1 + j) - b * (1 + a) <= -b) by (nonlinear_arith)
            requires
                0 <= a,
                0 <= j < b,
        ;
        assert(e2 < -b);
    }
    if j == b {
        assert(i < a);
        assert(a * (1 + b) - b * (1 + i) >= a) by (nonlinear_arith)
            requires
                0 <= b,
                0 <= i < a,
        ;
        assert(e2 > a);
    }
    let i2 = if e2 >= -b { i + 1 } else { i };
    let j2 = if e2 <= a { j + 1 } else { j };
    assert(a * (1 + j2) - b * (1 + i2) == e + (if e2 >= -b { -b } else { 0 }) + (if e2 <= a { a } else { 0 }))
        by (nonlinear_arith)
        requires
            e == a * (1 + j) - b * (1 + i),
            i2 == if e2 >= -b { i + 1 } else { i },
            j2 == if e2 <= a { j + 1 } else { j },
    ;
}

/// Every point the walk draws keeps its invariant, after at least as many
/// moves as steps.
proof fn lemma_walk_inv_at(x0: int, y0: int, x1: int, y1: int, k: nat) -> (ij: (int, int))
    requires
        line_point_drawn(x0, y0, x1, y1, k),
    ensures
        walk_inv(x0, y0, x1, y1, line_state(x0, y0, x1, y1, k), ij.0, ij.1),
        ij.0 + ij.1 >= k,
    decreases k,
{
    if k == 0 {
        lemma_walk_start(x0, y0, x1, y1);
        (0, 0)
    } else {
        let p = (k - 1) as nat;
        assert(line_point_drawn(x0, y0, x1, y1, p)) by {
            assert forall|m: nat| m < p implies !#[trigger] line_done(x0, y0, x1, y1, m) by {
                assert(m < k);
            }
        }
        assert(!line_done(x0, y0, x1, y1, p));
        let (i, j) = lemma_walk_inv_at(x0, y0, x1, y1, p);
        lemma_walk_step(x0, y0, x1, y1, p, i, j);
        let e2 = 2 * line_state(x0, y0, x1, y1, p).2;
        let i2 = if e2 >= -span(y0, y1) { i + 1 } else { i };
        let j2 = if e2 <= span(x0, x1) { j + 1 } else { j };
        assert(p + 1 == k);
        (i2, j2)
    }
}

/// The line starts at `(x0, y0)`, ends at `(x1, y1)`, and has at most
/// `|x1 - x0| + |y1 - y0| + 1` points: some step `k` within that bound
/// reaches the end point, and no point after it is drawn.
pub proof fn lemma_line_ends(x0: int, y0: int, x1: int, y1: int) -> (k: nat)
    ensures
        line_state(x0, y0, x1, y1, 0).0 == x0,
        line_state(x0, y0, x1, y1, 0).1 == y0,
        line_point_drawn(x0, y0, x1, y1, k),
        line_done(x0, y0, x1, y1, k),
        k <= span(x0, x1) + span(y0, y1),
        forall|m: nat| m > k ==> !#[trigger] line_point_drawn(x0, y0, x1, y1, m),
{
    let n = (span(x0, x1) + span(y0, y1)) as nat;
    if line_point_drawn(x0, y0, x1, y1, n + 1) {
        let (i, j) = lemma_walk_inv_at(x0, y0, x1, y1, n + 1);
        assert(false);
    }
    let m = choose|m: nat| m < n + 1 && #[trigger] line_done(x0, y0, x1, y1, m);
    let k = lemma_first_done(x0, y0, x1, y1, m);
    assert forall|q: nat| q > k implies !#[trigger] line_point_drawn(x0, y0, x1, y1, q) by {
        assert(line_done(x0, y0, x1, y1, k));
    }
    k
}

/// Some step no later than a step that reaches the end point is the first
/// one to reach it.
proof fn lemma_first_done(x0: int, y0: int, x1: int, y1: int, m: nat) -> (k: nat)
    requires
        line_done(x0, y0, x1, y1, m),
    ensures
        k <= m,
        line_done(x0, y0, x1, y1, k),
        line_point_drawn(x0, y0, x1, y1, k),
    decreases m,
{
    if line_point_drawn(x0, y0, x1, y1, m) {
        m
    } else {
        let q = choose|q: nat| q < m && #[trigger] line_done(x0, y0, x1, y1, q);
        lemma_first_done(x0, y0, x1, y1, q)
    }
}

/// Every drawn point of the line lies in the box spanned by its end points,
/// and each one is a king's move from the one before it.
pub proof fn lemma_line_in_box(x0: int, y0: int, x1: int, y1: int, k: nat)
    requires
        line_point_drawn(x0, y0, x1, y1, k),
    ensures
        min_int(x0, x1) <= line_state(x0, y0, x1, y1, k).0 <= max_int(x0, x1),
        min_int(y0, y1) <= line_state(x0, y0, x1, y1, k).1 <= max_int(y0, y1),
        k > 0 ==> span(line_state(x0, y0, x1, y1, (k - 1) as nat).0, line_state(x0, y0, x1, y1, k).0) <= 1,
        k > 0 ==> span(line_state(x0, y0, x1, y1, (k - 1) as nat).1, line_state(x0, y0, x1, y1, k).1) <= 1,
{
    let (i, j) = lemma_walk_inv_at(x0, y0, x1, y1, k);
}

/// A thick line covers both its end points (for a stroke of at least 0)
/// and nothing farther than `stroke` outside the box of its end points.
pub proof fn lemma_thick_line_extent(x0: int, y0: int, x1: int, y1: int, stroke: int, x: int, y: int)
    ensures
        thick_line_covers(x0, y0, x1, y1, stroke, x, y) ==> min_int(x0, x1) - stroke <= x <= max_int(x0, x1) + stroke
            && min_int(y0, y1) - stroke <= y <= max_int(y0, y1) + stroke,
        stroke >= 0 ==> thick_line_covers(x0, y0, x1, y1, stroke, x0, y0),
        stroke >= 0 ==> thick_line_covers(x0, y0, x1, y1, stroke, x1, y1),
{
    if thick_line_covers(x0, y0, x1, y1, stroke, x, y) {
        let k = choose|k: nat|
            line_point_drawn(x0, y0, x1, y1, k) && #[trigger] near_line_point(x0, y0, x1, y1, stroke, k, x, y);
        lemma_line_in_box(x0, y0, x1, y1, k);
    }
    let k = lemma_line_ends(x0, y0, x1, y1);
    if stroke >= 0 {
        assert(line_point_drawn(x0, y0, x1, y1, 0));
        assert(near_line_point(x0, y0, x1, y1, stroke, 0, x0, y0));
        assert(near_line_point(x0, y0, x1, y1, stroke, k, x1, y1));
    }
}

/// Smaller of two integers.
pub open spec fn min_int(a: int, b: int) -> int {
    if a <= b {
        a
    } else {
        b
    }
}

/// Larger of two integers.
pub open spec fn max_int(a: int, b: int) -> int {
    if a <= b {
        b
    } else {
        a
    }
}

/// The squares of half side `stroke` around the segment from `(x0, y0)` to
/// `(x1, y1)` stay within `i32` coordinates.
pub open spec fn thick_line_fits(x0: int, y0: int, x1: int, y1: int, stroke: int) -> bool {
    &&& stroke > i32::MIN
    &&& stroke >= 0 ==> fits_i32(min_int(x0, x1) - stroke, max_int(x0, x1) + stroke)
    &&& stroke >= 0 ==> fits_i32(min_int(y0, y1) - stroke, max_int(y0, y1) + stroke)
}

/// Draws the line from `(x0, y0)` to `(x1, y1)` by Bresenham's walk,
/// painting a square of half side `stroke` around each of its points.
pub fn draw_thick_line_rgb(img: &mut RgbRaster, x0: i32, y0: i32, x1: i32, y1: i32, stroke: i32, color: Rgb8)
    requires
        old(img).wf(),
        thick_line_fits(x0 as int, y0 as int, x1 as int, y1 as int, stroke as int),
    ensures
        final(img).painted_from(
            old(img),
            |x: int, y: int| thick_line_covers(x0 as int, y0 as int, x1 as int, y1 as int, stroke as int, x, y),
            color,
        ),
{
    let ghost old_img = *img;
    let ghost (gx0, gy0, gx1, gy1, gs) = (x0 as int, y0 as int, x1 as int, y1 as int, stroke as int);
    let dx: i64 = if x0 <= x1 { x1 as i64 - x0 as i64 } else { x0 as i64 - x1 as i64 };
    let dy: i64 = if y0 <= y1 { y0 as i64 - y1 as i64 } else { y1 as i64 - y0 as i64 };
    let sx: i64 = if x0 < x1 { 1 } else { -1 };
    let sy: i64 = if y0 < y1 { 1 } else { -1 };
    let mut x: i64 = x0 as i64;
    let mut y: i64 = y0 as i64;
    let mut err: i64 = dx + dy;
    let ghost mut k: nat = 0;
    let ghost mut i: int = 0;
    let ghost mut j: int = 0;
    proof {
        lemma_walk_start(gx0, gy0, gx1, gy1);
    }
    put_square(img, x as i32, y as i32, stroke, color);
    proof {
        assert forall|px: int, py: int| on_image(img.width as int, img.height as int, px, py) implies #[trigger] img.at(px, py)
            == if exists|m: nat| m <= k && #[trigger] near_line_point(gx0, gy0, gx1, gy1, gs, m, px, py) {
            color
        } else {
            old_img.at(px, py)
        } by {
            if exists|m: nat| m <= k && #[trigger] near_line_point(gx0, gy0, gx1, gy1, gs, m, px, py) {
                assert(near_line_point(gx0, gy0, gx1, gy1, gs, 0, px, py));
            }
            if in_square(gx0, gy0, gs, px, py) {
                assert(near_line_point(gx0, gy0, gx1, gy1, gs, 0, px, py));
            }
        }
    }
    while !(x == x1 as i64 && y == y1 as i64)
        invariant
            img.painted_from(
                &old_img,
                |px: int, py: int| exists|m: nat| m <= k && #[trigger] near_line_point(gx0, gy0, gx1, gy1, gs, m, px, py),
                color,
            ),
            gx0 == x0,
            gy0 == y0,
            gx1 == x1,
            gy1 == y1,
            gs == stroke,
            thick_line_fits(gx0, gy0, gx1, gy1, gs),
            dx == span(gx0, gx1),
            dy == -span(gy0, gy1),
            sx == toward(gx0, gx1),
            sy == toward(gy0, gy1),
            line_state(gx0, gy0, gx1, gy1, k) == (x as int, y as int, err as int),
            walk_inv(gx0, gy0, gx1, gy1, line_state(gx0, gy0, gx1, gy1, k), i, j),
            forall|m: nat| m < k ==> !#[trigger] line_done(gx0, gy0, gx1, gy1, m),
        decreases (dx - i) + (-dy - j),
    {
        let ghost before = *img;
        proof {
            lemma_walk_step(gx0, gy0, gx1, gy1, k, i, j);
        }
        let e2: i64 = 2 * err;
        if e2 >= dy {
            err = err + dy;
            x = x + sx;
            proof {
                i = i + 1;
            }
        }
        if e2 <= dx {
            err = err + dx;
            y = y + sy;
            proof {
                j = j + 1;
            }
        }
        proof {
            k = k + 1;
        }
        put_square(img, x as i32, y as i32, stroke, color);
        proof {
            assert forall|px: int, py: int| on_image(img.width as int, img.height as int, px, py) implies #[trigger] img.at(
                px,
                py,
            ) == if exists|m: nat| m <= k && #[trigger] near_line_point(gx0, gy0, gx1, gy1, gs, m, px, py) {
                color
            } else {
                old_img.at(px, py)
            } by {
                if in_square(x as int, y as int, gs, px, py) {
                    assert(near_line_point(gx0, gy0, gx1, gy1, gs, k, px, py));
                } else if exists|m: nat| m <= k && #[trigger] near_line_point(gx0, gy0, gx1, gy1, gs, m, px, py) {
                    let m = choose|m: nat| m <= k && #[trigger] near_line_point(gx0, gy0, gx1, gy1, gs, m, px, py);
                    assert(m != k);
                    assert(m <= k - 1);
                }
            }
        }
    }
    proof {
        assert(line_done(gx0, gy0, gx1, gy1, k));
        assert forall|px: int, py: int| on_image(img.width as int, img.height as int, px, py) implies #[trigger] img.at(px, py)
            == if thick_line_covers(gx0, gy0, gx1, gy1, gs, px, py) {
            color
        } else {
            old_img.at(px, py)
        } by {
            if exists|m: nat| m <= k && #[trigger] near_line_point(gx0, gy0, gx1, gy1, gs, m, px, py) {
                let m = choose|m: nat| m <= k && #[trigger] near_line_point(gx0, gy0, gx1, gy1, gs, m, px, py);
                assert(line_point_drawn(gx0, gy0, gx1, gy1, m));
            }
            if thick_line_covers(gx0, gy0, gx1, gy1, gs, px, py) {
                let m = choose|m: nat|
                    line_point_drawn(gx0, gy0, gx1, gy1, m) && #[trigger] near_line_point(gx0, gy0, gx1, gy1, gs, m, px, py);
                if m > k {
                    assert(!line_done(gx0, gy0, gx1, gy1, k));
                }
            }
        }
    }
}

/// Painting `p` over `old` and then `q` over the result, in one colour,
/// paints `p` or `q` over `old`.
proof fn lemma_paint_twice(
    old: &RgbRaster,
    mid: &RgbRaster,
    fin: &RgbRaster,
    p: spec_fn(int, int) -> bool,
    q: spec_fn(int, int) -> bool,
    color: Rgb8,
)
    requires
        mid.painted_from(old, p, color),
        fin.painted_from(mid, q, color),
    ensures
        fin.painted_from(old, |x: int, y: int| p(x, y) || q(x, y), color),
{
    assert forall|x: int, y: int| on_image(fin.width as int, fin.height as int, x, y) implies #[trigger] fin.at(x, y)
        == if p(x, y) || q(x, y) {
        color
    } else {
        old.at(x, y)
    } by {
        assert(fin.at(x, y) == if q(x, y) { color } else { mid.at(x, y) });
        assert(mid.at(x, y) == if p(x, y) { color } else { old.at(x, y) });
    }
}

/// Tip of an arrow from `(x, y)` along `(ux, uy)` with a shaft of `shaft`
/// units.
pub open spec fn arrow_tip(x: int, y: int, ux: int, uy: int, shaft: int) -> (int, int) {
    (x + ux * shaft, y + uy * shaft)
}

/// End of the barb on side `side` (`1` or `-1`) of an arrow's head: from the
/// tip, back `head` units along the arrow and `head` units across it.
pub open spec fn arrow_barb(x: int, y: int, ux: int, uy: int, shaft: int, head: int, side: int) -> (int, int) {
    let tip = arrow_tip(x, y, ux, uy, shaft);
    (tip.0 - ux * head + side * (-uy * head), tip.1 - uy * head + side * (ux * head))
}

/// `(px, py)` lies on the arrow drawn from `(x, y)` along `(ux, uy)`: its
/// shaft and the two barbs of its head, each `stroke` thick. A zero
/// direction draws nothing.
pub open spec fn arrow_covers(
    x: int,
    y: int,
    ux: int,
    uy: int,
    shaft: int,
    stroke: int,
    head: int,
    px: int,
    py: int,
) -> bool {
    let tip = arrow_tip(x, y, ux, uy, shaft);
    let left = arrow_barb(x, y, ux, uy, shaft, head, 1);
    let right = arrow_barb(x, y, ux, uy, shaft, head, -1);
    &&& !(ux == 0 && uy == 0)
    &&& {
        ||| thick_line_covers(x, y, tip.0, tip.1, stroke, px, py)
        ||| thick_line_covers(tip.0, tip.1, left.0, left.1, stroke, px, py)
        ||| thick_line_covers(tip.0, tip.1, right.0, right.1, stroke, px, py)
    }
}

/// Every value computed while drawing the arrow fits an `i32`.
pub open spec fn arrow_fits(x: int, y: int, ux: int, uy: int, shaft: int, stroke: int, head: int) -> bool {
    let tip = arrow_tip(x, y, ux, uy, shaft);
    let left = arrow_barb(x, y, ux, uy, shaft, head, 1);
    let right = arrow_barb(x, y, ux, uy, shaft, head, -1);
    &&& fits_i32(ux * shaft, ux * shaft)
    &&& fits_i32(uy * shaft, uy * shaft)
    &&& fits_i32(tip.0, tip.0)
    &&& fits_i32(tip.1, tip.1)
    &&& fits_i32(-uy, -uy)
    &&& fits_i32(ux * head, ux * head)
    &&& fits_i32(uy * head, uy * head)
    &&& fits_i32(tip.0 - ux * head, tip.0 - ux * head)
    &&& fits_i32(tip.1 - uy * head, tip.1 - uy * head)
    &&& fits_i32(-uy * head, -uy * head)
    &&& fits_i32(left.0, left.0)
    &&& fits_i32(left.1, left.1)
    &&& fits_i32(right.0, right.0)
    &&& fits_i32(right.1, right.1)
    &&& thick_line_fits(x, y, tip.0, tip.1, stroke)
    &&& thick_line_fits(tip.0, tip.1, left.0, left.1, stroke)
    &&& thick_line_fits(tip.0, tip.1, right.0, right.1, stroke)
}

/// Draws an arrow from `(x, y)` along `(ux, uy)`: a shaft of `shaft_len`
/// units and a head of two barbs `head_len` units long; nothing for a zero
/// direction.
pub fn draw_flow_arrow(
    img: &mut RgbRaster,
    x: i32,
    y: i32,
    ux: i32,
    uy: i32,
    shaft_len: i32,
    stroke: i32,
    head_len: i32,
    color: Rgb8,
)
    requires
        old(img).wf(),
        !(ux == 0 && uy == 0) ==> arrow_fits(
            x as int,
            y as int,
            ux as int,
            uy as int,
            shaft_len as int,
            stroke as int,
            head_len as int,
        ),
    ensures
        final(img).painted_from(
            old(img),
            |px: int, py: int|
                arrow_covers(
                    x as int,
                    y as int,
                    ux as int,
                    uy as int,
                    shaft_len as int,
                    stroke as int,
                    head_len as int,
                    px,
                    py,
                ),
            color,
        ),
{
    let ghost old_img = *img;
    if ux == 0 && uy == 0 {
        return;
    }
    let tip_x: i32 = x + ux * shaft_len;
    let tip_y: i32 = y + uy * shaft_len;
    draw_thick_line_rgb(img, x, y, tip_x, tip_y, stroke, color);
    let ghost after_shaft = *img;

    let px: i32 = -uy;
    let py: i32 = ux;
    let back_x: i32 = tip_x - ux * head_len;
    let back_y: i32 = tip_y - uy * head_len;
    let wing: i32 = head_len;
    assert(px as int * wing as int == -uy * head_len) by (nonlinear_arith)
        requires
            px == -uy,
            wing == head_len,
    ;
    draw_thick_line_rgb(img, tip_x, tip_y, back_x + px * wing, back_y + py * wing, stroke, color);
    let ghost after_left = *img;
    draw_thick_line_rgb(img, tip_x, tip_y, back_x - px * wing, back_y - py * wing, stroke, color);
    proof {
        let (gx, gy, gux, guy, gsh, gst, ghd) = (
            x as int,
            y as int,
            ux as int,
            uy as int,
            shaft_len as int,
            stroke as int,
            head_len as int,
        );
        let tip = arrow_tip(gx, gy, gux, guy, gsh);
        let left = arrow_barb(gx, gy, gux, guy, gsh, ghd, 1);
        let right = arrow_barb(gx, gy, gux, guy, gsh, ghd, -1);
        let shaft_p = |qx: int, qy: int| thick_line_covers(gx, gy, tip.0, tip.1, gst, qx, qy);
        let left_p = |qx: int, qy: int| thick_line_covers(tip.0, tip.1, left.0, left.1, gst, qx, qy);
        let right_p = |qx: int, qy: int| thick_line_covers(tip.0, tip.1, right.0, right.1, gst, qx, qy);
        assert(after_left.painted_from(&after_shaft, left_p, color));
        lemma_paint_twice(&old_img, &after_shaft, &after_left, shaft_p, left_p, color);
        let both = |qx: int, qy: int| shaft_p(qx, qy) || left_p(qx, qy);
        assert(img.painted_from(&after_left, right_p, color));
        lemma_paint_twice(&old_img, &after_left, img, both, right_p, color);
        assert forall|qx: int, qy: int| on_image(img.width as int, img.height as int, qx, qy) implies #[trigger] img.at(qx, qy)
            == if arrow_covers(gx, gy, gux, guy, gsh, gst, ghd, qx, qy) {
            color
        } else {
            old_img.at(qx, qy)
        } by {
            assert(img.at(qx, qy) == if both(qx, qy) || right_p(qx, qy) { color } else { old_img.at(qx, qy) });
        }
    }
}

/// Shaft length of an upwind arrow, in pixels.
pub const ARROW_SHAFT_LEN: i32 = 18;
/// Half thickness of an upwind arrow's strokes, in pixels.
pub const ARROW_STROKE: i32 = 2;
/// Length of an upwind arrow's barbs, in pixels.
pub const ARROW_HEAD_LEN: i32 = 6;

/// The colour of the upwind arrows.
pub open spec fn arrow_rgb() -> Rgb8 {
    Rgb8 { r: 120, g: 235, b: 255 }
}

/// The colour of the upwind arrows.
pub fn upwind_arrow_color() -> (c: Rgb8)
    ensures
        c == arrow_rgb(),
{
    Rgb8 { r: 120, g: 235, b: 255 }
}

/// `(x, y)` is a sample cell for arrows drawn every `step` cells (every
/// cell when `step` is 0).
pub open spec fn sampled(step: int, x: int, y: int) -> bool {
    let s = if step < 1 { 1 } else { step };
    x % s == 0 && y % s == 0
}

/// `(px, py)` lies on the arrow drawn at cell `(x, y)`: a sampled land cell
/// with an upwind neighbour `n`, drawn from the cell away from `n`.
pub open spec fn upwind_arrow_at(
    up: Seq<Vec<Option<(usize, usize)>>>,
    land: Seq<Vec<bool>>,
    width: int,
    height: int,
    step: int,
    x: int,
    y: int,
    px: int,
    py: int,
) -> bool {
    &&& on_grid(width, height, x, y)
    &&& sampled(step, x, y)
    &&& land[y][x]
    &&& up[y][x] is Some
    &&& arrow_covers(
        x,
        y,
        x - (up[y][x]->0).0,
        y - (up[y][x]->0).1,
        ARROW_SHAFT_LEN as int,
        ARROW_STROKE as int,
        ARROW_HEAD_LEN as int,
        px,
        py,
    )
}

/// Every upwind neighbour in `up` lies on the `width` x `height` grid.
pub open spec fn upwind_on_grid(up: Seq<Vec<Option<(usize, usize)>>>, width: int, height: int) -> bool {
    &&& up.len() == height
    &&& forall|y: int| 0 <= y < height ==> (#[trigger] up[y]).len() == width
    &&& forall|x: int, y: int|
        on_grid(width, height, x, y) && (#[trigger] up[y][x]) is Some ==> on_grid(
            width,
            height,
            (up[y][x]->0).0 as int,
            (up[y][x]->0).1 as int,
        )
}

/// Overlays the upwind field on an image of the map: at every `step`-th
/// cell (in both directions) that is land and has an upwind neighbour, an
/// arrow points away from that neighbour, the way moisture flows.
pub fn draw_upwind_arrows(img: &mut RgbRaster, up: &Vec<Vec<Option<(usize, usize)>>>, land: &Vec<Vec<bool>>, step: usize)
    requires
        old(img).wf(),
        old(img).width <= 0x100_0000,
        old(img).height <= 0x100_0000,
        mask_shape(land@, old(img).width as int, old(img).height as int),
        upwind_on_grid(up@, old(img).width as int, old(img).height as int),
    ensures
        final(img).painted_from(
            old(img),
            |px: int, py: int|
                exists|x: int, y: int|
                    #[trigger] upwind_arrow_at(
                        up@,
                        land@,
                        old(img).width as int,
                        old(img).height as int,
                        step as int,
                        x,
                        y,
                        px,
                        py,
                    ),
            arrow_rgb(),
        ),
{
    let ghost old_img = *img;
    let width: usize = img.width as usize;
    let height: usize = img.height as usize;
    let ghost (w, h, st) = (width as int, height as int, step as int);
    let s: usize = if step < 1 { 1 } else { step };
    let color = upwind_arrow_color();
    let mut y: usize = 0;
    while y < height
        invariant
            img.painted_from(
                &old_img,
                |px: int, py: int| exists|cx: int, cy: int| cy < y && #[trigger] upwind_arrow_at(up@, land@, w, h, st, cx, cy, px, py),
                arrow_rgb(),
            ),
            w == width,
            h == height,
            width == old_img.width,
            height == old_img.height,
            width <= 0x100_0000,
            height <= 0x100_0000,
            st == step,
            s == if step < 1 { 1 } else { step },
            color == arrow_rgb(),
            y <= height,
            mask_shape(land@, w, h),
            upwind_on_grid(up@, w, h),
        decreases height - y,
    {
        let mut x: usize = 0;
        while x < width
            invariant
                img.painted_from(
                    &old_img,
                    |px: int, py: int|
                        exists|cx: int, cy: int|
                            (cy < y || (cy == y && cx < x)) && #[trigger] upwind_arrow_at(up@, land@, w, h, st, cx, cy, px, py),
                    arrow_rgb(),
                ),
                w == width,
                h == height,
                width == old_img.width,
                height == old_img.height,
                width <= 0x100_0000,
                height <= 0x100_0000,
                st == step,
                s == if step < 1 { 1 } else { step },
                color == arrow_rgb(),
                y < height,
                x <= width,
                mask_shape(land@, w, h),
                upwind_on_grid(up@, w, h),
            decreases width - x,
        {
            let ghost before = *img;
            let ghost done_p = |px: int, py: int|
                exists|cx: int, cy: int|
                    (cy < y || (cy == y && cx < x)) && #[trigger] upwind_arrow_at(up@, land@, w, h, st, cx, cy, px, py);
            let ghost cell_p = |px: int, py: int| upwind_arrow_at(up@, land@, w, h, st, x as int, y as int, px, py);
            if x % s == 0 && y % s == 0 && land[y][x] {
                match up[y][x] {
                    Some(n) => {
                        let ux: i32 = x as i32 - n.0 as i32;
                        let uy: i32 = y as i32 - n.1 as i32;
                        draw_flow_arrow(
                            img,
                            x as i32,
                            y as i32,
                            ux,
                            uy,
                            ARROW_SHAFT_LEN,
                            ARROW_STROKE,
                            ARROW_HEAD_LEN,
                            color,
                        );
                        proof {
                            lemma_paint_twice(&old_img, &before, img, done_p, cell_p, arrow_rgb());
                        }
                    },
                    None => {},
                }
            }
            proof {
                assert forall|px: int, py: int| on_image(w, h, px, py) implies #[trigger] img.at(px, py) == if exists|
                    cx: int,
                    cy: int,
                | (cy < y || (cy == y && cx < x + 1)) && #[trigger] upwind_arrow_at(up@, land@, w, h, st, cx, cy, px, py) {
                    arrow_rgb()
                } else {
                    old_img.at(px, py)
                } by {
                    if exists|cx: int, cy: int|
                        (cy < y || (cy == y && cx < x + 1)) && #[trigger] upwind_arrow_at(up@, land@, w, h, st, cx, cy, px, py) {
                        let (cx, cy) = choose|cx: int, cy: int|
                            (cy < y || (cy == y && cx < x + 1)) && #[trigger] upwind_arrow_at(up@, land@, w, h, st, cx, cy, px, py);
                        if cx == x && cy == y {
                            assert(cell_p(px, py));
                        } else {
                            assert(done_p(px, py));
                        }
                    } else {
                        assert(!cell_p(px, py));
                        assert(!done_p(px, py));
                    }
                }
            }
            x = x + 1;
        }
        y = y + 1;
    }
}

} // verus!
