//! The pixel work of the command-line tool: the window a partial decode
//! cuts around a point, and the AF box drawn onto a preview.

use vstd::prelude::*;

verus! {

/// A region cut out of a JPEG.
#[derive(Debug, PartialEq, Eq)]
pub struct Crop {
    pub rgb: Vec<u8>,
    pub width: usize,
    pub height: usize,
    /// Top-left actually produced. Cropping snaps to MCU boundaries, so it
    /// shifts.
    pub x: usize,
    pub y: usize,
}

/// `a - b`, or `0` when `b` is larger.
pub open spec fn minus(a: int, b: int) -> int {
    if a >= b {
        a - b
    } else {
        0
    }
}

/// The smaller of two numbers.
pub open spec fn smaller(a: int, b: int) -> int {
    if a <= b {
        a
    } else {
        b
    }
}

/// The window a partial decode asks for, to cut `size` x `size` centered
/// on `(cx, cy)` out of an `iw` x `ih` image: its top-left, held inside the
/// image, and its width and height, capped by the image's.
pub open spec fn window(iw: int, ih: int, cx: int, cy: int, size: int) -> (int, int, int, int) {
    let half = size / 2;
    (
        smaller(minus(cx, half), minus(iw, size)),
        smaller(minus(cy, half), minus(ih, size)),
        smaller(size, iw),
        smaller(size, ih),
    )
}

/// The window a partial decode asks for, to cut `size` x `size` centered
/// on `(cx, cy)` out of an `iw` x `ih` image; see `window`.
pub fn crop_window(iw: usize, ih: usize, cx: usize, cy: usize, size: usize) -> (r: (
    usize,
    usize,
    usize,
    usize,
))
    ensures
        (r.0 as int, r.1 as int, r.2 as int, r.3 as int) == window(
            iw as int,
            ih as int,
            cx as int,
            cy as int,
            size as int,
        ),
{
    let half = size / 2;
    let x0 = smaller_of(cx.saturating_sub(half), iw.saturating_sub(size));
    let y0 = smaller_of(cy.saturating_sub(half), ih.saturating_sub(size));
    (x0, y0, smaller_of(size, iw), smaller_of(size, ih))
}

/// The smaller of two numbers.
fn smaller_of(a: usize, b: usize) -> (r: usize)
    ensures
        r == smaller(a as int, b as int),
{
    if a <= b {
        a
    } else {
        b
    }
}

/// Whether the pixel `(x, y)` lies on the three-pixel border `draw_rect`
/// draws for the box at `(x0, y0)` of `bw` x `bh`: the rows `y0 + t` and
/// `y0 + bh - t` across `x0..x0 + bw`, and the columns `x0 + t` and
/// `x0 + bw - t` down `y0..y0 + bh`, for `t` in `0..3`.
pub open spec fn on_border(x: int, y: int, x0: int, y0: int, bw: int, bh: int) -> bool {
    ||| (x0 <= x < x0 + bw && (y == y0 || y == y0 + 1 || y == y0 + 2 || y == y0 + bh || y == y0
        + bh - 1 || y == y0 + bh - 2))
    ||| (y0 <= y < y0 + bh && (x == x0 || x == x0 + 1 || x == x0 + 2 || x == x0 + bw || x == x0
        + bw - 1 || x == x0 + bw - 2))
}

/// The value channel `c` of a border pixel gets: pure red.
pub open spec fn red(c: int) -> u8 {
    if c == 0 {
        255
    } else {
        0
    }
}

/// Whether the pixel `(x, y)` lies on the border, in exact arithmetic.
fn border_at(x: usize, y: usize, x0: i64, y0: i64, bw: i64, bh: i64) -> (r: bool)
    ensures
        r == on_border(x as int, y as int, x0 as int, y0 as int, bw as int, bh as int),
{
    let x = x as i128;
    let y = y as i128;
    let x0 = x0 as i128;
    let y0 = y0 as i128;
    let bw = bw as i128;
    let bh = bh as i128;
    let across = x0 <= x && x < x0 + bw && (y == y0 || y == y0 + 1 || y == y0 + 2 || y == y0 + bh
        || y == y0 + bh - 1 || y == y0 + bh - 2);
    let down = y0 <= y && y < y0 + bh && (x == x0 || x == x0 + 1 || x == x0 + 2 || x == x0 + bw
        || x == x0 + bw - 1 || x == x0 + bw - 2);
    across || down
}

/// Draw the AF box at `(x0, y0)` of `bw` x `bh` in red onto the `w` x `h`
/// RGB image `rgb`, three pixels thick; the parts outside the image are
/// left out.
pub fn draw_rect(rgb: &mut [u8], w: usize, h: usize, x0: i64, y0: i64, bw: i64, bh: i64)
    requires
        old(rgb)@.len() >= 3 * w * h,
    ensures
        final(rgb)@.len() == old(rgb)@.len(),
        forall|q: int, c: int|
            0 <= q < w * h && 0 <= c < 3 ==> #[trigger] final(rgb)@[3 * q + c] == if on_border(
                q % (w as int),
                q / (w as int),
                x0 as int,
                y0 as int,
                bw as int,
                bh as int,
            ) {
                red(c)
            } else {
                old(rgb)@[3 * q + c]
            },
        forall|k: int| 3 * w * h <= k < old(rgb)@.len() ==> #[trigger] final(rgb)@[k] == old(rgb)@[k],
{
    if w == 0 || h == 0 {
        assert(w * h == 0) by (nonlinear_arith)
            requires
                w == 0 || h == 0,
        ;
        return;
    }
    let ghost before = rgb@;
    let n = rgb.len();
    assert(w * h <= n) by (nonlinear_arith)
        requires
            3 * w * h <= n,
    ;
    let total = w * h;
    assert(3 * w * h == 3 * total) by (nonlinear_arith)
        requires
            total == w * h,
    ;
    let mut p: usize = 0;
    let mut x: usize = 0;
    let mut y: usize = 0;
    while p < total
        invariant
            w > 0,
            total == w * h,
            before.len() >= 3 * total,
            rgb@.len() == before.len(),
            before.len() == n,
            p <= total,
            x < w,
            p == y * w + x,
            p < total ==> y < h,
            forall|q: int, c: int|
                0 <= q < p && 0 <= c < 3 ==> #[trigger] rgb@[3 * q + c] == if on_border(
                    q % (w as int),
                    q / (w as int),
                    x0 as int,
                    y0 as int,
                    bw as int,
                    bh as int,
                ) {
                    red(c)
                } else {
                    before[3 * q + c]
                },
            forall|k: int| 3 * p <= k < before.len() ==> #[trigger] rgb@[k] == before[k],
        decreases total - p,
    {
        proof {
            lemma_coordinates(p as int, w as int, x as int, y as int);
        }
        if border_at(x, y, x0, y0, bw, bh) {
            let i = 3 * p;
            rgb[i] = 255;
            rgb[i + 1] = 0;
            rgb[i + 2] = 0;
        }
        p = p + 1;
        if x + 1 < w {
            x = x + 1;
        } else {
            assert((y + 1) * w == y * w + w) by (nonlinear_arith);
            x = 0;
            y = y + 1;
            assert(p < total ==> y < h) by (nonlinear_arith)
                requires
                    p == y * w,
                    total == w * h,
                    w > 0,
            ;
        }
    }
}

/// The pixel `p` of a `w`-wide image at column `x` of row `y` has those
/// coordinates.
proof fn lemma_coordinates(p: int, w: int, x: int, y: int)
    requires
        0 <= x < w,
        0 <= y,
        p == y * w + x,
    ensures
        p % w == x,
        p / w == y,
{
    vstd::arithmetic::div_mod::lemma_fundamental_div_mod_converse(p, w, y, x);
}

} // verus!
