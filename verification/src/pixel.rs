//! Pixel sampling: the average color of a rectangular area of an image,
//! clamped to the image bounds.

use vstd::arithmetic::div_mod::{lemma_div_is_ordered, lemma_div_multiples_vanish};
use vstd::arithmetic::mul::{lemma_mul_inequality, lemma_mul_is_distributive_add};
use vstd::prelude::*;

verus! {

/// An immutable raster: width and height in pixels and one RGB triple per
/// pixel, stored row-major (the pixel at `(x, y)` sits at index
/// `y * width + x`).
pub struct Image {
    /// Width of the raster in pixels.
    pub width: u32,
    /// Height of the raster in pixels.
    pub height: u32,
    /// The pixels, row-major, `width * height` entries of `[r, g, b]`.
    pub pixels: Vec<[u8; 3]>,
}

impl Image {
    /// A well-formed image holds exactly one pixel per coordinate.
    pub open spec fn wf(self) -> bool {
        self.pixels@.len() == self.width as int * self.height as int
    }

    /// The pixel at `(x, y)`, meaningful for in-bounds coordinates.
    pub open spec fn spec_pixel(self, x: int, y: int) -> [u8; 3] {
        self.pixels@[y * self.width as int + x]
    }

    /// Builds an image from its dimensions and row-major pixel data.
    /// Returns `None` when the pixel count does not match the dimensions.
    pub fn new(width: u32, height: u32, pixels: Vec<[u8; 3]>) -> (r: Option<Image>)
        ensures
            r is Some <==> pixels@.len() == width as int * height as int,
            r matches Some(img) ==> img == (Image { width, height, pixels }) && img.wf(),
    {
        proof {
            vstd::arithmetic::mul::lemma_mul_upper_bound(
                width as int,
                u32::MAX as int,
                height as int,
                u32::MAX as int,
            );
        }
        let expected = (width as u64) * (height as u64);
        if pixels.len() as u64 == expected {
            Some(Image { width, height, pixels })
        } else {
            None
        }
    }

    /// Width of the image in pixels.
    pub fn dim_width(&self) -> (w: u32)
        ensures
            w == self.width,
    {
        self.width
    }

    /// Height of the image in pixels.
    pub fn dim_height(&self) -> (h: u32)
        ensures
            h == self.height,
    {
        self.height
    }

    /// Reads the pixel at an in-bounds coordinate.
    pub fn get_pixel(&self, x: u32, y: u32) -> (p: [u8; 3])
        requires
            self.wf(),
            x < self.width,
            y < self.height,
        ensures
            p == self.spec_pixel(x as int, y as int),
    {
        let n = self.pixels.len();
        proof {
            assert(n as int == self.width as int * self.height as int);
            assert((y as int) * (self.width as int) + (x as int) < (self.width as int) * (
            self.height as int)) by (nonlinear_arith)
                requires
                    0 <= (x as int) < (self.width as int),
                    0 <= (y as int) < (self.height as int),
            ;
        }
        self.pixels[(y as usize) * (self.width as usize) + (x as usize)]
    }
}

/// Channel `c` (0 = red, 1 = green, 2 = blue) of a pixel, as an integer.
pub open spec fn chan(p: [u8; 3], c: int) -> int {
    p@[c] as int
}

/// Sum of channel `c` over the pixels `(x, y)` with `x0 <= x < x1` of row `y`.
pub open spec fn row_sum(img: Image, y: int, x0: int, x1: int, c: int) -> int
    decreases x1 - x0,
{
    if x1 <= x0 {
        0
    } else {
        row_sum(img, y, x0, x1 - 1, c) + chan(img.spec_pixel(x1 - 1, y), c)
    }
}

/// Sum of channel `c` over the rectangle `[x0, x1) x [y0, y1)`.
pub open spec fn rect_sum(img: Image, x0: int, x1: int, y0: int, y1: int, c: int) -> int
    decreases y1 - y0,
{
    if y1 <= y0 {
        0
    } else {
        rect_sum(img, x0, x1, y0, y1 - 1, c) + row_sum(img, y1 - 1, x0, x1, c)
    }
}

/// Number of cells of the rectangle `[x0, x1) x [y0, y1)`.
pub open spec fn rect_cells(x0: int, x1: int, y0: int, y1: int) -> int {
    if x0 < x1 && y0 < y1 {
        (x1 - x0) * (y1 - y0)
    } else {
        0
    }
}

/// The rectangle `[x, x + w) x [y, y + h)` clamped to the image bounds:
/// the end of the sampled x range.
pub open spec fn clamped_end_x(img: Image, x: int, w: int) -> int {
    vstd::math::min(x + w, img.width as int)
}

/// The end of the sampled y range, clamped to the image bounds.
pub open spec fn clamped_end_y(img: Image, y: int, h: int) -> int {
    vstd::math::min(y + h, img.height as int)
}

/// How many pixels the clamped rectangle covers.
pub open spec fn sample_count(img: Image, x: int, y: int, w: int, h: int) -> int {
    rect_cells(x, clamped_end_x(img, x, w), y, clamped_end_y(img, y, h))
}

/// The average of channel `c` over the rectangle `[x, x + w) x [y, y + h)`
/// clamped to the image bounds: the integer-truncated mean, or `0` when the
/// clamped rectangle is empty.
pub open spec fn spec_average(img: Image, x: int, y: int, w: int, h: int, c: int) -> int {
    let ex = clamped_end_x(img, x, w);
    let ey = clamped_end_y(img, y, h);
    if rect_cells(x, ex, y, ey) == 0 {
        0
    } else {
        rect_sum(img, x, ex, y, ey, c) / rect_cells(x, ex, y, ey)
    }
}

/// A row sum lies between `0` and `255` per pixel summed.
pub proof fn lemma_row_sum_bound(img: Image, y: int, x0: int, x1: int, c: int)
    ensures
        x0 <= x1 ==> 0 <= row_sum(img, y, x0, x1, c) <= (x1 - x0) * 255,
        x1 <= x0 ==> row_sum(img, y, x0, x1, c) == 0,
    decreases x1 - x0,
{
    if x0 < x1 {
        lemma_row_sum_bound(img, y, x0, x1 - 1, c);
    }
}

/// A rectangle sum lies between `0` and `255` per pixel summed.
pub proof fn lemma_rect_sum_bound(img: Image, x0: int, x1: int, y0: int, y1: int, c: int)
    ensures
        x0 <= x1 && y0 <= y1 ==> 0 <= rect_sum(img, x0, x1, y0, y1, c) <= rect_cells(
            x0,
            x1,
            y0,
            y1,
        ) * 255,
        y1 <= y0 ==> rect_sum(img, x0, x1, y0, y1, c) == 0,
    decreases y1 - y0,
{
    if y0 < y1 && x0 <= x1 {
        lemma_rect_sum_bound(img, x0, x1, y0, y1 - 1, c);
        lemma_row_sum_bound(img, y1 - 1, x0, x1, c);
        assert(rect_cells(x0, x1, y0, y1) * 255 == rect_cells(x0, x1, y0, y1 - 1) * 255 + (x1 - x0)
            * 255) by {
            if x0 < x1 {
                assert((x1 - x0) * (y1 - y0) == (x1 - x0) * (y1 - 1 - y0) + (x1 - x0)) by {
                    lemma_mul_is_distributive_add(x1 - x0, y1 - 1 - y0, 1);
                }
                if y0 < y1 - 1 {
                    assert(((x1 - x0) * (y1 - y0)) * 255 == ((x1 - x0) * (y1 - 1 - y0)) * 255 + (x1
                        - x0) * 255) by {
                        lemma_mul_is_distributive_add(255, (x1 - x0) * (y1 - 1 - y0), x1 - x0);
                    }
                } else {
                    assert((x1 - x0) * (y1 - y0) == x1 - x0);
                }
            }
        }
    }
}

/// The average of each channel lies in `0 ..= 255`.
pub proof fn lemma_average_in_range(img: Image, x: int, y: int, w: int, h: int, c: int)
    ensures
        0 <= spec_average(img, x, y, w, h, c) <= 255,
{
    let ex = clamped_end_x(img, x, w);
    let ey = clamped_end_y(img, y, h);
    let cnt = rect_cells(x, ex, y, ey);
    if cnt != 0 {
        lemma_rect_sum_bound(img, x, ex, y, ey, c);
        let s = rect_sum(img, x, ex, y, ey, c);
        assert(cnt > 0);
        assert(s / cnt >= 0) by {
            vstd::arithmetic::div_mod::lemma_div_pos_is_pos(s, cnt);
        }
        assert(s / cnt <= (cnt * 255) / cnt) by {
            lemma_div_is_ordered(s, cnt * 255, cnt);
        }
        assert((cnt * 255) / cnt == 255) by {
            lemma_div_multiples_vanish(255, cnt);
        }
    }
}

/// Over a rectangle of constant color, a row sum is the pixel count times
/// that color.
proof fn lemma_row_sum_const(img: Image, y: int, x0: int, x1: int, c: int, v: u8)
    requires
        x0 <= x1,
        forall|i: int| x0 <= i < x1 ==> chan(img.spec_pixel(i, y), c) == v,
    ensures
        row_sum(img, y, x0, x1, c) == (x1 - x0) * v,
    decreases x1 - x0,
{
    if x0 < x1 {
        lemma_row_sum_const(img, y, x0, x1 - 1, c, v);
        assert(chan(img.spec_pixel(x1 - 1, y), c) == v);
        assert((x1 - 1 - x0) * (v as int) + v == (x1 - x0) * (v as int)) by (nonlinear_arith);
    } else {
        assert((x1 - x0) * (v as int) == 0) by (nonlinear_arith)
            requires
                x1 == x0,
        ;
    }
}

/// Over a rectangle of constant color, the rectangle sum is the pixel count
/// times that color.
proof fn lemma_rect_sum_const(img: Image, x0: int, x1: int, y0: int, y1: int, c: int, v: u8)
    requires
        x0 < x1,
        y0 <= y1,
        forall|i: int, j: int| x0 <= i < x1 && y0 <= j < y1 ==> chan(img.spec_pixel(i, j), c) == v,
    ensures
        rect_sum(img, x0, x1, y0, y1, c) == rect_cells(x0, x1, y0, y1) * v,
    decreases y1 - y0,
{
    if y0 < y1 {
        lemma_rect_sum_const(img, x0, x1, y0, y1 - 1, c, v);
        lemma_row_sum_const(img, y1 - 1, x0, x1, c, v);
        let a = x1 - x0;
        let b = y1 - y0;
        assert(rect_cells(x0, x1, y0, y1 - 1) * v + a * v == (a * b) * v) by (nonlinear_arith)
            requires
                rect_cells(x0, x1, y0, y1 - 1) == if y0 < y1 - 1 {
                    a * (b - 1)
                } else {
                    0
                },
                a == x1 - x0,
                b == y1 - y0,
                x0 < x1,
                y0 < y1,
        ;
    }
}

/// Over a rectangle lying fully inside the image and covering only pixels of
/// one solid color, the average is exactly that color, channel by channel.
pub proof fn lemma_average_solid(img: Image, x: int, y: int, w: int, h: int, c: int, v: u8)
    requires
        1 <= w,
        1 <= h,
        0 <= x,
        0 <= y,
        x + w <= img.width as int,
        y + h <= img.height as int,
        forall|i: int, j: int|
            x <= i < x + w && y <= j < y + h ==> chan(img.spec_pixel(i, j), c) == v,
    ensures
        spec_average(img, x, y, w, h, c) == v,
{
    let ex = clamped_end_x(img, x, w);
    let ey = clamped_end_y(img, y, h);
    assert(ex == x + w);
    assert(ey == y + h);
    let cnt = rect_cells(x, ex, y, ey);
    assert(cnt == w * h);
    vstd::arithmetic::mul::lemma_mul_strictly_positive(w, h);
    lemma_rect_sum_const(img, x, ex, y, ey, c, v);
    assert((cnt * v) / cnt == v) by {
        lemma_div_multiples_vanish(v as int, cnt);
    }
}

/// Over a rectangle that is empty or lies entirely outside the image bounds,
/// the average of every channel is zero (black).
pub proof fn lemma_average_degenerate(img: Image, x: int, y: int, w: int, h: int, c: int)
    requires
        w <= 0 || h <= 0 || x >= img.width as int || y >= img.height as int,
    ensures
        spec_average(img, x, y, w, h, c) == 0,
{
}

/// The average over any rectangle equals the average over the intersection
/// of that rectangle with the image bounds: parts outside the image are
/// silently discarded.
pub proof fn lemma_average_intersection(img: Image, x: int, y: int, w: int, h: int, c: int)
    requires
        0 <= x,
        0 <= y,
        0 <= w,
        0 <= h,
    ensures
        spec_average(img, x, y, w, h, c) == spec_average(
            img,
            vstd::math::min(x, img.width as int),
            vstd::math::min(y, img.height as int),
            clamped_end_x(img, x, w) - vstd::math::min(x, img.width as int),
            clamped_end_y(img, y, h) - vstd::math::min(y, img.height as int),
            c,
        ),
{
    let iw = img.width as int;
    let ih = img.height as int;
    let x2 = vstd::math::min(x, iw);
    let y2 = vstd::math::min(y, ih);
    let w2 = clamped_end_x(img, x, w) - x2;
    let h2 = clamped_end_y(img, y, h) - y2;
    assert(clamped_end_x(img, x2, w2) == clamped_end_x(img, x, w));
    assert(clamped_end_y(img, y2, h2) == clamped_end_y(img, y, h));
    if x < iw && y < ih {
        assert(x2 == x && y2 == y);
    } else {
        assert(rect_cells(x, clamped_end_x(img, x, w), y, clamped_end_y(img, y, h)) == 0);
        assert(rect_cells(x2, clamped_end_x(img, x, w), y2, clamped_end_y(img, y, h)) == 0);
    }
}

/// Clamping each argument of an average to the image dimensions does not
/// change the average: the sampled region is the intersection with the image
/// either way.
pub proof fn lemma_average_clamp(img: Image, x: int, y: int, w: int, h: int, c: int)
    requires
        0 <= x,
        0 <= y,
        0 <= w,
        0 <= h,
    ensures
        spec_average(
            img,
            vstd::math::min(x, img.width as int),
            vstd::math::min(y, img.height as int),
            vstd::math::min(w, img.width as int),
            vstd::math::min(h, img.height as int),
            c,
        ) == spec_average(img, x, y, w, h, c),
{
    let iw = img.width as int;
    let ih = img.height as int;
    let x2 = vstd::math::min(x, iw);
    let y2 = vstd::math::min(y, ih);
    let w2 = vstd::math::min(w, iw);
    let h2 = vstd::math::min(h, ih);
    if x < iw && y < ih {
        assert(x2 == x && y2 == y);
        assert(clamped_end_x(img, x2, w2) == clamped_end_x(img, x, w));
        assert(clamped_end_y(img, y2, h2) == clamped_end_y(img, y, h));
    } else {
        assert(rect_cells(x, clamped_end_x(img, x, w), y, clamped_end_y(img, y, h)) == 0);
        assert(rect_cells(x2, clamped_end_x(img, x2, w2), y2, clamped_end_y(img, y2, h2)) == 0);
    }
}

/// Calculates the average RGB color for a specific rectangular area of the
/// image. The area is clamped to the image bounds; if nothing of it lies on
/// the image (or it is empty), the result is black.
pub fn get_average_rgb(image: &Image, start_x: u32, start_y: u32, width: u32, height: u32) -> (rgb:
    [u8; 3])
    requires
        image.wf(),
    ensures
        chan(rgb, 0) == spec_average(*image, start_x as int, start_y as int, width as int, height as int, 0),
        chan(rgb, 1) == spec_average(*image, start_x as int, start_y as int, width as int, height as int, 1),
        chan(rgb, 2) == spec_average(*image, start_x as int, start_y as int, width as int, height as int, 2),
{
    let image_width = image.width;
    let image_height = image.height;
    let sx = start_x;
    let sy = start_y;

    // Clamp the rectangle to the image bounds; compute in u64 so the sums
    // `start + extent` cannot overflow.
    let ex64 = {
        let e = sx as u64 + width as u64;
        if e > image_width as u64 {
            image_width as u64
        } else {
            e
        }
    };
    let ey64 = {
        let e = sy as u64 + height as u64;
        if e > image_height as u64 {
            image_height as u64
        } else {
            e
        }
    };
    let ex = ex64 as u32;
    let ey = ey64 as u32;

    proof {
        assert(ex as int == clamped_end_x(*image, sx as int, width as int));
        assert(ey as int == clamped_end_y(*image, sy as int, height as int));
    }

    if sx >= ex || sy >= ey {
        return [0, 0, 0];
    }

    let ghost gx0 = sx as int;
    let ghost gx1 = ex as int;
    let ghost gy0 = sy as int;
    let ghost gy1 = ey as int;

    let mut r_total: u128 = 0;
    let mut g_total: u128 = 0;
    let mut b_total: u128 = 0;

    let mut py = sy;
    while py < ey
        invariant
            image.wf(),
            gx0 == sx as int && gx1 == ex as int && gy0 == sy as int && gy1 == ey as int,
            sx < ex <= image.width,
            sy <= py <= ey <= image.height,
            r_total == rect_sum(*image, gx0, gx1, gy0, py as int, 0),
            g_total == rect_sum(*image, gx0, gx1, gy0, py as int, 1),
            b_total == rect_sum(*image, gx0, gx1, gy0, py as int, 2),
        decreases ey - py,
    {
        let mut px = sx;
        while px < ex
            invariant
                image.wf(),
                gx0 == sx as int && gx1 == ex as int && gy0 == sy as int && gy1 == ey as int,
                sx <= px <= ex <= image.width,
                sy <= py < ey <= image.height,
                r_total == rect_sum(*image, gx0, gx1, gy0, py as int, 0) + row_sum(
                    *image,
                    py as int,
                    gx0,
                    px as int,
                    0,
                ),
                g_total == rect_sum(*image, gx0, gx1, gy0, py as int, 1) + row_sum(
                    *image,
                    py as int,
                    gx0,
                    px as int,
                    1,
                ),
                b_total == rect_sum(*image, gx0, gx1, gy0, py as int, 2) + row_sum(
                    *image,
                    py as int,
                    gx0,
                    px as int,
                    2,
                ),
            decreases ex - px,
        {
            proof {
                lemma_rect_sum_bound(*image, gx0, gx1, gy0, py as int, 0);
                lemma_rect_sum_bound(*image, gx0, gx1, gy0, py as int, 1);
                lemma_rect_sum_bound(*image, gx0, gx1, gy0, py as int, 2);
                lemma_row_sum_bound(*image, py as int, gx0, px as int, 0);
                lemma_row_sum_bound(*image, py as int, gx0, px as int, 1);
                lemma_row_sum_bound(*image, py as int, gx0, px as int, 2);
                lemma_rect_cells_bound(*image, gx0, gx1, gy0, py as int);
                let ghost cells = rect_cells(gx0, gx1, gy0, py as int);
                let ghost w = image.width as int;
                let ghost h = image.height as int;
                let ghost part = px as int - gx0;
                assert(cells * 255 + part * 255 + 255 < u128::MAX) by (nonlinear_arith)
                    requires
                        0 <= cells <= w * h,
                        0 < w <= 0xffff_ffff,
                        0 < h <= 0xffff_ffff,
                        0 <= part <= 0xffff_ffff,
                ;
            }
            let pixel = image.get_pixel(px, py);
            r_total = r_total + pixel[0] as u128;
            g_total = g_total + pixel[1] as u128;
            b_total = b_total + pixel[2] as u128;
            px = px + 1;
        }
        proof {
            assert(rect_sum(*image, gx0, gx1, gy0, py as int + 1, 0) == rect_sum(
                *image,
                gx0,
                gx1,
                gy0,
                py as int,
                0,
            ) + row_sum(*image, py as int, gx0, gx1, 0));
        }
        py = py + 1;
    }

    proof {
        vstd::arithmetic::mul::lemma_mul_upper_bound(
            (ex - sx) as int,
            u32::MAX as int,
            (ey - sy) as int,
            u32::MAX as int,
        );
        vstd::arithmetic::mul::lemma_mul_strictly_positive((ex - sx) as int, (ey - sy) as int);
    }
    let count: u64 = ((ex - sx) as u64) * ((ey - sy) as u64);
    proof {
        assert(count as int == rect_cells(gx0, gx1, gy0, gy1));
    }
    let r_avg = (r_total / count as u128) as u8;
    let g_avg = (g_total / count as u128) as u8;
    let b_avg = (b_total / count as u128) as u8;
    proof {
        lemma_avg_cast_ok(*image, gx0, gy0, width as int, height as int);
    }
    [r_avg, g_avg, b_avg]
}

/// The pixel count of a clamped rectangle prefix never exceeds the image area.
proof fn lemma_rect_cells_bound(img: Image, x0: int, x1: int, y0: int, y1: int)
    requires
        0 <= x0,
        x0 <= x1 <= img.width as int,
        0 <= y0,
        y0 <= y1 <= img.height as int,
    ensures
        rect_cells(x0, x1, y0, y1) <= img.width as int * img.height as int,
{
    if x0 < x1 && y0 < y1 {
        lemma_mul_inequality(y1 - y0, img.height as int, x1 - x0);
        lemma_mul_inequality(x1 - x0, img.width as int, img.height as int);
        vstd::arithmetic::mul::lemma_mul_is_commutative(x1 - x0, y1 - y0);
        vstd::arithmetic::mul::lemma_mul_is_commutative(x1 - x0, img.height as int);
    }
}

/// Helper: each channel average fits in a `u8`.
proof fn lemma_avg_cast_ok(img: Image, x: int, y: int, w: int, h: int)
    ensures
        0 <= spec_average(img, x, y, w, h, 0) <= 255,
        0 <= spec_average(img, x, y, w, h, 1) <= 255,
        0 <= spec_average(img, x, y, w, h, 2) <= 255,
{
    lemma_average_in_range(img, x, y, w, h, 0);
    lemma_average_in_range(img, x, y, w, h, 1);
    lemma_average_in_range(img, x, y, w, h, 2);
}

} // verus!
