//! Viewport geometry and resampling. The zoom scalar drives a symmetric,
//! aspect-aware crop of the source image: with diagonal angle
//! `theta = atan(width / height)`, the offsets are `round(zoom * sin theta)`
//! and `round(zoom * cos theta)`. Here `sin theta = width / sqrt(s2)` and
//! `cos theta = height / sqrt(s2)` with `s2 = width^2 + height^2`, and the
//! square root is realized as the integer square root, so an offset is the
//! exact integer `(2 * zoom * dim + rt) / (2 * rt)` with `rt = isqrt(s2)`.
//! The zoom is clamped to the largest value that keeps both crop sides at
//! least one pixel wide; the cropped rectangle is then scaled back to a
//! target size by nearest-neighbor sampling.

use vstd::arithmetic::div_mod::{
    lemma_basic_div, lemma_div_is_ordered, lemma_div_multiples_vanish, lemma_multiply_divide_lt,
};
use vstd::arithmetic::mul::{lemma_mul_inequality, lemma_mul_is_commutative};
use vstd::prelude::*;

use crate::img::Image;

verus! {

/// A crop window inside a source image: offsets of its top-left corner and
/// its dimensions.
#[derive(Clone, Copy, PartialEq, Eq, Structural, Debug)]
pub struct CropRect {
    pub x: u32,
    pub y: u32,
    pub w: u32,
    pub h: u32,
}

/// The squared diagonal of a `w` by `h` image.
pub open spec fn diag_s2(w: int, h: int) -> int {
    w * w + h * h
}

/// The integer square root, floored.
pub open spec fn sqrt_floor(s: nat) -> nat
    decreases s,
{
    if s == 0 {
        0
    } else {
        let t = sqrt_floor((s - 1) as nat);
        if (t + 1) * (t + 1) <= s {
            t + 1
        } else {
            t
        }
    }
}

/// `round(z * dim / rt)`, written with integer division: the crop offset
/// along an axis of length `dim`, for a diagonal length of `rt`.
pub open spec fn axis_offset(z: int, dim: int, rt: int) -> int {
    (2 * (z * dim) + rt) / (2 * rt)
}

/// Whether zoom `z` keeps both crop sides at least one pixel: each offset
/// may take at most half of its axis, save one pixel.
pub open spec fn zoom_safe(z: int, w: int, h: int, rt: int) -> bool {
    &&& axis_offset(z, w, rt) <= (w - 1) / 2
    &&& axis_offset(z, h, rt) <= (h - 1) / 2
}

/// The largest safe zoom not above `z`: `z` itself when safe, otherwise
/// the nearest safe value below (zero is always safe).
pub open spec fn clamped_zoom(z: int, w: int, h: int, rt: int) -> int
    decreases z,
{
    if z <= 0 {
        0
    } else if zoom_safe(z, w, h, rt) {
        z
    } else {
        clamped_zoom(z - 1, w, h, rt)
    }
}

/// What resampling guarantees: the output has the target dimensions and
/// every output pixel is the nearest source pixel of the crop window,
/// found by flooring the proportional coordinate.
pub open spec fn resample_post(
    src: Image,
    rect: CropRect,
    tw: int,
    th: int,
    out: Image,
) -> bool {
    &&& out.wf()
    &&& out.width == tw
    &&& out.height == th
    &&& forall|x: int, y: int, c: int|
            0 <= x < tw && 0 <= y < th && 0 <= c < 4
                ==> #[trigger] out.chan(x, y, c) == src.chan(
                    rect.x + (x * rect.w) / tw,
                    rect.y + (y * rect.h) / th,
                    c,
                )
}

/// Derives the crop window that zoom `z` selects in a `w` by `h` image,
/// clamping the zoom so that both sides keep at least one pixel.
#[verifier::loop_isolation(false)]
pub fn compute_crop(w: u32, h: u32, zoom: u32) -> (rect: CropRect)
    requires
        w >= 1,
        h >= 1,
    ensures
        ({
            let rt = sqrt_floor(diag_s2(w as int, h as int) as nat) as int;
            let zc = clamped_zoom(zoom as int, w as int, h as int, rt);
            &&& rect.x == axis_offset(zc, w as int, rt)
            &&& rect.y == axis_offset(zc, h as int, rt)
            &&& rect.w == w - 2 * rect.x
            &&& rect.h == h - 2 * rect.y
        }),
        1 <= rect.w,
        1 <= rect.h,
        rect.x + rect.w <= w,
        rect.y + rect.h <= h,
        zoom == 0 ==> rect == (CropRect { x: 0, y: 0, w, h }),
{
    proof {
        lemma_square_bound_u32(w as int);
        lemma_square_bound_u32(h as int);
        assert((w as int) * (w as int) >= 1) by (nonlinear_arith)
            requires w as int >= 1;
        assert((h as int) * (h as int) >= 1) by (nonlinear_arith)
            requires h as int >= 1;
    }
    let s2: u128 = (w as u128) * (w as u128) + (h as u128) * (h as u128);
    let rt: u64 = isqrt(s2);
    proof {
        if rt == 0 {
            assert(s2 < (0 + 1) * (0 + 1));
        }
        assert(rt >= 1);
    }

    let zc: u32 = if zoom_safe_at(zoom, w, h, rt) {
        proof {
            lemma_clamped_zoom_char(
                zoom as int, w as int, h as int, rt as int, zoom as int);
        }
        zoom
    } else {
        proof {
            lemma_zoom_safe_zero(w as int, h as int, rt as int);
        }
        let mut lo: u32 = 0;
        let mut hi: u32 = zoom;
        while hi - lo > 1
            invariant
                lo < hi <= zoom,
                zoom_safe(lo as int, w as int, h as int, rt as int),
                !zoom_safe(hi as int, w as int, h as int, rt as int),
            decreases hi - lo,
        {
            let mid = lo + (hi - lo) / 2;
            if zoom_safe_at(mid, w, h, rt) {
                lo = mid;
            } else {
                hi = mid;
            }
        }
        proof {
            lemma_clamped_zoom_char(zoom as int, w as int, h as int, rt as int, lo as int);
        }
        lo
    };

    let ox128 = axis_offset_at(zc, w, rt);
    let oy128 = axis_offset_at(zc, h, rt);
    proof {
        assert(ox128 <= (w - 1) / 2);
        assert(oy128 <= (h - 1) / 2);
    }
    let ox: u32 = ox128 as u32;
    let oy: u32 = oy128 as u32;
    let cw: u32 = w - 2 * ox;
    let ch: u32 = h - 2 * oy;
    proof {
        if zoom == 0 {
            lemma_zoom_safe_zero(w as int, h as int, rt as int);
        }
    }
    CropRect { x: ox, y: oy, w: cw, h: ch }
}

/// Scales the crop window `rect` of `src` to a `tw` by `th` image by
/// nearest-neighbor sampling.
pub fn resample(src: &Image, rect: CropRect, tw: u32, th: u32) -> (out: Image)
    requires
        src.wf(),
        1 <= rect.w,
        1 <= rect.h,
        rect.x + rect.w <= src.width,
        rect.y + rect.h <= src.height,
        1 <= tw,
        1 <= th,
        4 * ((tw as nat) * (th as nat)) <= usize::MAX,
    ensures
        resample_post(*src, rect, tw as int, th as int, out),
{
    let mut data: Vec<u8> = Vec::new();

    let mut y: u32 = 0;
    while y < th
        invariant
            src.wf(),
            1 <= rect.w,
            1 <= rect.h,
            rect.x + rect.w <= src.width,
            rect.y + rect.h <= src.height,
            1 <= tw,
            1 <= th,
            4 * ((tw as nat) * (th as nat)) <= usize::MAX,
            y <= th,
            data@.len() == 4 * (y * tw),
            forall|px: int, py: int, c: int|
                0 <= px < tw && 0 <= py < y && 0 <= c < 4
                    ==> #[trigger] data@[4 * (py * tw + px) + c] == src.chan(
                        rect.x + (px * rect.w) / (tw as int),
                        rect.y + (py * rect.h) / (th as int),
                        c,
                    ),
        decreases th - y,
    {
        proof {
            lemma_sample_coord_bounds(y as int, rect.h as int, th as int);
        }
        let sy: u32 = rect.y + (((y as u64) * (rect.h as u64)) / (th as u64)) as u32;
        proof {
            assert(sy < src.height);
        }
        let mut x: u32 = 0;
        while x < tw
            invariant
                src.wf(),
                1 <= rect.w,
                1 <= rect.h,
                rect.x + rect.w <= src.width,
                rect.y + rect.h <= src.height,
                1 <= tw,
                1 <= th,
                4 * ((tw as nat) * (th as nat)) <= usize::MAX,
                y < th,
                x <= tw,
                sy == rect.y + (y * rect.h) / (th as int),
                sy < src.height,
                data@.len() == 4 * (y * tw + x),
                forall|px: int, py: int, c: int|
                    0 <= px < tw && 0 <= py < th
                        && (py < y || (py == y && px < x)) && 0 <= c < 4
                        ==> #[trigger] data@[4 * (py * tw + px) + c] == src.chan(
                            rect.x + (px * rect.w) / (tw as int),
                            rect.y + (py * rect.h) / (th as int),
                            c,
                        ),
            decreases tw - x,
        {
            proof {
                lemma_sample_coord_bounds(x as int, rect.w as int, tw as int);
            }
            let sx: u32 = rect.x + (((x as u64) * (rect.w as u64)) / (tw as u64)) as u32;
            proof {
                assert(sx < src.width);
            }
            let v0 = src.channel(sx, sy, 0);
            let v1 = src.channel(sx, sy, 1);
            let v2 = src.channel(sx, sy, 2);
            let v3 = src.channel(sx, sy, 3);

            let ghost before = data@;
            data.push(v0);
            data.push(v1);
            data.push(v2);
            data.push(v3);

            proof {
                let ghost base = 4 * (y * tw + x);
                assert(data@[base + 0] == v0);
                assert(data@[base + 1] == v1);
                assert(data@[base + 2] == v2);
                assert(data@[base + 3] == v3);
                assert forall|px: int, py: int, c: int|
                    0 <= px < tw && 0 <= py < th
                        && (py < y || (py == y && px < x + 1)) && 0 <= c < 4
                        implies #[trigger] data@[4 * (py * tw + px) + c] == src.chan(
                            rect.x + (px * rect.w) / (tw as int),
                            rect.y + (py * rect.h) / (th as int),
                            c,
                        ) by {
                    if py == y && px == x {
                    } else {
                        lemma_pixel_before_crop(tw as int, px, py, x as int, y as int);
                        assert(data@[4 * (py * tw + px) + c] == before[4 * (py * tw + px) + c]);
                    }
                }
            }
            x = x + 1;
        }
        proof {
            assert((y + 1) * tw == y * tw + tw) by (nonlinear_arith);
        }
        y = y + 1;
    }

    proof {
        lemma_mul_is_commutative(th as int, tw as int);
    }
    Image { width: tw, height: th, data }
}

/// Law: at zoom zero the crop covers the whole image, and resampling it to
/// the source's own size returns the source unchanged in content.
pub proof fn lemma_zoom_zero_identity(src: Image, rect: CropRect, out: Image)
    requires
        src.wf(),
        rect == (CropRect { x: 0u32, y: 0u32, w: src.width, h: src.height }),
        resample_post(src, rect, src.width as int, src.height as int, out),
    ensures
        out.same_content(src),
{
    assert forall|x: int, y: int, c: int|
        out.in_bounds(x, y) && 0 <= c < 4
            implies out.chan(x, y, c) == src.chan(x, y, c) by {
        lemma_scale_identity(x, src.width as int);
        lemma_scale_identity(y, src.height as int);
        assert(out.chan(x, y, c) == src.chan(
            rect.x + (x * rect.w) / (src.width as int),
            rect.y + (y * rect.h) / (src.height as int),
            c,
        ));
    }
    assert forall|x: int, y: int, c: int|
        src.in_bounds(x, y) && 0 <= c < 4
            implies src.chan(x, y, c) == out.chan(x, y, c) by {
        assert(out.in_bounds(x, y));
    }
}

/// `(x * d) / d == x`: scaling a full-size crop is the identity.
proof fn lemma_scale_identity(x: int, d: int)
    requires
        1 <= d,
    ensures
        (x * d) / d == x,
{
    lemma_mul_is_commutative(x, d);
    lemma_div_multiples_vanish(x, d);
}

/// The integer square root of `s`, by binary search.
fn isqrt(s: u128) -> (r: u64)
    requires
        s < 0x4_0000_0000_0000_0000,
    ensures
        r as nat == sqrt_floor(s as nat),
        (r as int) * (r as int) <= s,
        s < ((r as int) + 1) * ((r as int) + 1),
        r <= 0x2_0000_0000,
{
    let mut lo: u64 = 0;
    let mut hi: u64 = 0x2_0000_0000;
    proof {
        assert((0x2_0000_0000 as int) * (0x2_0000_0000 as int) == 0x4_0000_0000_0000_0000)
            by (nonlinear_arith);
    }
    while hi - lo > 1
        invariant
            lo < hi <= 0x2_0000_0000,
            (lo as int) * (lo as int) <= s,
            s < (hi as int) * (hi as int),
        decreases hi - lo,
    {
        let mid: u64 = lo + (hi - lo) / 2;
        proof {
            lemma_square_monotone(mid as int, 0x2_0000_0000);
        }
        let m2: u128 = (mid as u128) * (mid as u128);
        if m2 <= s {
            lo = mid;
        } else {
            hi = mid;
        }
    }
    proof {
        assert(hi == lo + 1);
        lemma_sqrt_floor_unique(lo as nat, s as nat);
    }
    lo
}

/// Computes the crop offset `axis_offset(z, dim, rt)` exactly.
fn axis_offset_at(z: u32, dim: u32, rt: u64) -> (o: u128)
    requires
        1 <= rt,
    ensures
        o == axis_offset(z as int, dim as int, rt as int),
{
    proof {
        lemma_mul_bound_u32(z as int, dim as int);
    }
    let num: u128 = 2 * ((z as u128) * (dim as u128)) + (rt as u128);
    let den: u128 = 2 * (rt as u128);
    num / den
}

/// Decides `zoom_safe(z, w, h, rt)`.
fn zoom_safe_at(z: u32, w: u32, h: u32, rt: u64) -> (b: bool)
    requires
        1 <= rt,
        w >= 1,
        h >= 1,
    ensures
        b == zoom_safe(z as int, w as int, h as int, rt as int),
{
    let ox = axis_offset_at(z, w, rt);
    let oy = axis_offset_at(z, h, rt);
    ox <= (((w - 1) / 2) as u128) && oy <= (((h - 1) / 2) as u128)
}

/// A square of a `u32`-sized value stays below two to the sixty-sixth.
proof fn lemma_square_bound_u32(d: int)
    by (nonlinear_arith)
    requires
        0 <= d <= u32::MAX,
    ensures
        0 <= d * d < 0x2_0000_0000_0000_0000,
{
}

/// A product of `u32`-sized values fits in sixty-four bits.
proof fn lemma_mul_bound_u32(a: int, b: int)
    by (nonlinear_arith)
    requires
        0 <= a <= u32::MAX,
        0 <= b <= u32::MAX,
    ensures
        0 <= a * b < 0x1_0000_0000_0000_0000,
{
}

/// Squaring keeps order on the nonnegatives.
proof fn lemma_square_monotone(a: int, b: int)
    by (nonlinear_arith)
    requires
        0 <= a <= b,
    ensures
        a * a <= b * b,
{
}

/// The recursive integer square root is correct: its square is at most
/// `s`, and the next square is beyond `s`.
proof fn lemma_sqrt_floor_bounds(s: nat)
    ensures
        sqrt_floor(s) * sqrt_floor(s) <= s,
        s < (sqrt_floor(s) + 1) * (sqrt_floor(s) + 1),
    decreases s,
{
    if s == 0 {
        assert(sqrt_floor(0) == 0);
        assert((0 + 1) * (0 + 1) == 1) by (nonlinear_arith);
    } else {
        lemma_sqrt_floor_bounds((s - 1) as nat);
        let t = sqrt_floor((s - 1) as nat);
        if (t + 1) * (t + 1) <= s {
            assert(sqrt_floor(s) == t + 1);
            assert(s <= (t + 1) * (t + 1));
            assert(s < (t + 1 + 1) * (t + 1 + 1)) by (nonlinear_arith)
                requires t >= 0 && s <= (t + 1) * (t + 1);
        } else {
            assert(sqrt_floor(s) == t);
        }
    }
}

/// Any value whose square brackets `s` is the integer square root of `s`.
proof fn lemma_sqrt_floor_unique(r: nat, s: nat)
    requires
        r * r <= s,
        s < (r + 1) * (r + 1),
    ensures
        r == sqrt_floor(s),
{
    lemma_sqrt_floor_bounds(s);
    let t = sqrt_floor(s);
    if r < t {
        lemma_square_monotone(r as int + 1, t as int);
    }
    if t < r {
        lemma_square_monotone(t as int + 1, r as int);
    }
}

/// The crop offset grows with the zoom.
proof fn lemma_axis_offset_monotone(z1: int, z2: int, dim: int, rt: int)
    requires
        0 <= z1 <= z2,
        0 <= dim,
        1 <= rt,
    ensures
        axis_offset(z1, dim, rt) <= axis_offset(z2, dim, rt),
{
    lemma_mul_inequality(z1, z2, dim);
    lemma_div_is_ordered(2 * (z1 * dim) + rt, 2 * (z2 * dim) + rt, 2 * rt);
}

/// Zoom values below a safe one are safe as well.
proof fn lemma_zoom_safe_monotone(z1: int, z2: int, w: int, h: int, rt: int)
    requires
        0 <= z1 <= z2,
        w >= 1,
        h >= 1,
        1 <= rt,
        zoom_safe(z2, w, h, rt),
    ensures
        zoom_safe(z1, w, h, rt),
{
    lemma_axis_offset_monotone(z1, z2, w, rt);
    lemma_axis_offset_monotone(z1, z2, h, rt);
}

/// Zoom zero is safe and crops nothing.
proof fn lemma_zoom_safe_zero(w: int, h: int, rt: int)
    requires
        w >= 1,
        h >= 1,
        1 <= rt,
    ensures
        axis_offset(0, w, rt) == 0,
        axis_offset(0, h, rt) == 0,
        zoom_safe(0, w, h, rt),
        clamped_zoom(0, w, h, rt) == 0,
{
    assert(0 * w == 0) by (nonlinear_arith);
    assert(0 * h == 0) by (nonlinear_arith);
    lemma_basic_div(rt, 2 * rt);
}

/// A zoom that is safe, and maximal among the safe values not above `z`,
/// is what `clamped_zoom` returns.
proof fn lemma_clamped_zoom_char(z: int, w: int, h: int, rt: int, zc: int)
    requires
        0 <= zc <= z,
        w >= 1,
        h >= 1,
        1 <= rt,
        zoom_safe(zc, w, h, rt),
        zc == z || !zoom_safe(zc + 1, w, h, rt),
    ensures
        clamped_zoom(z, w, h, rt) == zc,
    decreases z,
{
    if z == zc {
        if z > 0 {
            assert(clamped_zoom(z, w, h, rt) == z);
        }
    } else {
        if zoom_safe(z, w, h, rt) {
            lemma_zoom_safe_monotone(zc + 1, z, w, h, rt);
        }
        assert(!zoom_safe(z, w, h, rt));
        lemma_clamped_zoom_char(z - 1, w, h, rt, zc);
    }
}

/// The sampled source coordinate stays inside the crop window.
proof fn lemma_sample_coord_bounds(x: int, cdim: int, tdim: int)
    requires
        0 <= x < tdim,
        tdim <= u32::MAX,
        1 <= cdim,
        cdim <= u32::MAX,
    ensures
        0 <= (x * cdim) / tdim,
        (x * cdim) / tdim < cdim,
        x * cdim < 0x1_0000_0000_0000_0000,
    {
        lemma_mul_bound_u32_loose(x, cdim, tdim);
        lemma_mul_inequality(x, tdim - 1, cdim);
        assert((tdim - 1) * cdim < tdim * cdim) by (nonlinear_arith)
            requires 1 <= cdim && 1 <= tdim;
        lemma_mul_is_commutative(tdim, cdim);
        lemma_multiply_divide_lt(x * cdim, tdim, cdim);
        assert(x * cdim >= 0) by (nonlinear_arith)
            requires x >= 0 && cdim >= 0;
        lemma_div_is_ordered(0, x * cdim, tdim);
    }

/// Bound used when scaling coordinates: both factors are below the `u32`
/// range in use.
proof fn lemma_mul_bound_u32_loose(x: int, cdim: int, tdim: int)
    by (nonlinear_arith)
    requires
        0 <= x < tdim,
        tdim <= u32::MAX,
        0 <= cdim <= u32::MAX,
    ensures
        x * cdim < 0x1_0000_0000_0000_0000,
{
}

/// An earlier pixel's flat index lies strictly below a later pixel's.
proof fn lemma_pixel_before_crop(w: int, px: int, py: int, x: int, y: int)
    by (nonlinear_arith)
    requires
        0 <= px < w,
        0 <= py,
        0 <= x,
        py < y || (py == y && px < x),
    ensures
        0 <= py * w + px,
        py * w + px < y * w + x,
{
}

} // verus!
