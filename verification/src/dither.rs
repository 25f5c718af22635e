//! The dithering engine: maps an RGBA image, a threshold matrix, a darkness
//! bias and an inversion flag to a two-tone image of the same size.
//!
//! All quantities are exact rationals kept as integers. A pixel's intensity
//! is `(r + g + b) / 765`, a matrix entry `v` of a size-`n` matrix is the
//! threshold `v / n^2`, and the darkness bias `d` counts hundredths, so the
//! comparison `intensity > threshold + darkness` is the integer comparison
//! `100 * n^2 * (r + g + b)  >  765 * (100 * v + d * n^2)`.

use vstd::prelude::*;

use crate::img::Image;
use crate::kernel::{DitherKernel, level_size, level_values};

verus! {

/// Channel value of the foreground color (opaque white).
pub const FG_CHANNEL: u8 = 255;

/// Channel value of the background color's color channels (opaque black).
pub const BG_CHANNEL: u8 = 0;

/// Sum of the three color channels of pixel `(x, y)`: 765 times its
/// intensity.
pub open spec fn luma_sum(img: Image, x: int, y: int) -> int {
    img.chan(x, y, 0) + img.chan(x, y, 1) + img.chan(x, y, 2)
}

/// The matrix entry that applies at `(x, y)` once the size-`n` matrix
/// `vals` is tiled over the plane.
pub open spec fn tile_entry(vals: Seq<u8>, n: int, x: int, y: int) -> u8 {
    vals[(x % n) * n + (y % n)]
}

/// Whether an intensity of `s / 765` strictly exceeds the threshold
/// `v / n2 + d / 100`.
pub open spec fn threshold_exceeded(s: int, v: int, n2: int, d: int) -> bool {
    100 * (n2 * s) > 765 * (100 * v + d * n2)
}

/// Whether pixel `(x, y)` comes out in the foreground color: its intensity
/// exceeds the local threshold, flipped when `inv` is set.
pub open spec fn pixel_fg(
    src: Image,
    vals: Seq<u8>,
    n: int,
    d: int,
    inv: bool,
    x: int,
    y: int,
) -> bool {
    threshold_exceeded(luma_sum(src, x, y), tile_entry(vals, n, x, y) as int, n * n, d) != inv
}

/// Channel `c` of the foreground color when `fg` is set, of the background
/// color otherwise; the alpha channel is fully opaque either way.
pub open spec fn two_tone_chan(fg: bool, c: int) -> u8 {
    if c == 3 {
        255
    } else if fg {
        FG_CHANNEL
    } else {
        BG_CHANNEL
    }
}

/// What dithering guarantees: the output has the source's dimensions and
/// every pixel is the foreground color exactly where its intensity exceeds
/// the local threshold (flipped under inversion), the background color
/// everywhere else.
pub open spec fn dither_post(
    src: Image,
    vals: Seq<u8>,
    n: int,
    d: int,
    inv: bool,
    out: Image,
) -> bool {
    &&& out.wf()
    &&& out.width == src.width
    &&& out.height == src.height
    &&& forall|x: int, y: int, c: int|
            src.in_bounds(x, y) && 0 <= c < 4
                ==> #[trigger] out.chan(x, y, c) == two_tone_chan(
                    pixel_fg(src, vals, n, d, inv, x, y),
                    c,
                )
}

/// Every pixel of the image is one of the two sentinel colors, opaque
/// white or opaque black.
pub open spec fn two_tone_image(out: Image) -> bool {
    forall|x: int, y: int| out.in_bounds(x, y) ==> {
        &&& (#[trigger] out.chan(x, y, 0) == 255 || out.chan(x, y, 0) == 0)
        &&& out.chan(x, y, 1) == out.chan(x, y, 0)
        &&& out.chan(x, y, 2) == out.chan(x, y, 0)
        &&& out.chan(x, y, 3) == 255
    }
}

/// Dithers `src` against the tiled threshold matrix `k`, with a darkness
/// bias of `darkness` hundredths; `inverted` swaps the two output colors.
pub fn dither(src: &Image, k: &DitherKernel, darkness: i32, inverted: bool) -> (out: Image)
    requires
        src.wf(),
        k.wf(),
    ensures
        dither_post(*src, k.values@, k.size as int, darkness as int, inverted, out),
{
    let w = src.width();
    let h = src.height();
    let mut data: Vec<u8> = Vec::new();

    let mut y: u32 = 0;
    while y < h
        invariant
            src.wf(),
            k.wf(),
            w == src.width,
            h == src.height,
            y <= h,
            data@.len() == 4 * (y * w),
            forall|px: int, py: int, c: int|
                0 <= px < w && 0 <= py < y && 0 <= c < 4
                    ==> data@[4 * (py * w + px) + c] == #[trigger] two_tone_chan(
                        pixel_fg(*src, k.values@, k.size as int, darkness as int, inverted, px, py),
                        c,
                    ),
        decreases h - y,
    {
        let mut x: u32 = 0;
        while x < w
            invariant
                src.wf(),
                k.wf(),
                w == src.width,
                h == src.height,
                y < h,
                x <= w,
                data@.len() == 4 * (y * w + x),
                forall|px: int, py: int, c: int|
                    0 <= px < w && 0 <= py < h
                        && (py < y || (py == y && px < x)) && 0 <= c < 4
                        ==> data@[4 * (py * w + px) + c] == #[trigger] two_tone_chan(
                            pixel_fg(*src, k.values@, k.size as int, darkness as int, inverted, px, py),
                            c,
                        ),
            decreases w - x,
        {
            let r = src.channel(x, y, 0);
            let g = src.channel(x, y, 1);
            let b = src.channel(x, y, 2);
            let s: u32 = (r as u32) + (g as u32) + (b as u32);
            let v = k.entry_at(x, y);
            let n2: u32 = k.size * k.size;
            proof {
                lemma_threshold_term_bounds(darkness as int, n2 as int, s as int);
            }
            let dn: i64 = (darkness as i64) * (n2 as i64);
            let lhs: i64 = 100 * ((n2 as i64) * (s as i64));
            let rhs: i64 = 765 * (100 * (v as i64) + dn);
            let fg = (lhs > rhs) != inverted;
            let fgv: u8 = if fg { 255 } else { 0 };

            let ghost before = data@;
            data.push(fgv);
            data.push(fgv);
            data.push(fgv);
            data.push(255);

            proof {
                let ghost base = 4 * (y * w + x);
                assert(data@[base + 0] == fgv);
                assert(data@[base + 1] == fgv);
                assert(data@[base + 2] == fgv);
                assert(data@[base + 3] == 255u8);
                assert(fg == pixel_fg(
                    *src, k.values@, k.size as int, darkness as int, inverted, x as int, y as int));
                assert forall|px: int, py: int, c: int|
                    0 <= px < w && 0 <= py < h
                        && (py < y || (py == y && px < x + 1)) && 0 <= c < 4
                        implies data@[4 * (py * w + px) + c] == #[trigger] two_tone_chan(
                            pixel_fg(*src, k.values@, k.size as int, darkness as int, inverted, px, py),
                            c,
                        ) by {
                    if py == y && px == x {
                    } else {
                        lemma_pixel_before(w as int, px, py, x as int, y as int);
                        assert(data@[4 * (py * w + px) + c] == before[4 * (py * w + px) + c]);
                    }
                }
            }
            x = x + 1;
        }
        proof {
            assert((y + 1) * w == y * w + w) by (nonlinear_arith);
        }
        y = y + 1;
    }

    proof {
        vstd::arithmetic::mul::lemma_mul_is_commutative(h as int, w as int);
    }
    Image { width: w, height: h, data }
}

/// Dithers against the matrix that a detail level selects: levels 1, 2, 3
/// use the 2x2, 4x4 and 8x8 matrices, any other level the 4x4 default.
pub fn ordered_dither(src: &Image, level: i32, darkness: i32, inverted: bool) -> (out: Image)
    requires
        src.wf(),
    ensures
        dither_post(
            *src,
            level_values(level as int),
            level_size(level as int),
            darkness as int,
            inverted,
            out,
        ),
{
    let k = DitherKernel::for_level(level);
    dither(src, &k, darkness, inverted)
}

/// Channel `c` of the opposite two-tone color: color channels flip between
/// 255 and 0, the alpha channel stays opaque.
pub open spec fn complement_chan(v: u8, c: int) -> u8 {
    if c == 3 {
        255
    } else {
        (255 - v) as u8
    }
}

/// Background pixels of a dithered image, counted over the first `m`
/// pixels in row-major order.
pub open spec fn bg_count_to(
    src: Image,
    vals: Seq<u8>,
    n: int,
    d: int,
    inv: bool,
    m: nat,
) -> nat
    decreases m,
{
    if m == 0 {
        0
    } else {
        let p = (m - 1) as int;
        bg_count_to(src, vals, n, d, inv, (m - 1) as nat)
            + if !pixel_fg(src, vals, n, d, inv, p % (src.width as int), p / (src.width as int)) {
                1nat
            } else {
                0nat
            }
    }
}

/// How many pixels of the dithered image come out in the background color.
pub open spec fn bg_count(src: Image, vals: Seq<u8>, n: int, d: int, inv: bool) -> nat {
    bg_count_to(src, vals, n, d, inv, ((src.width as nat) * (src.height as nat)))
}

/// Law: a dithered image is two-tone. Every pixel is opaque white or
/// opaque black; no intermediate value ever appears.
pub proof fn lemma_dither_two_tone(
    src: Image,
    vals: Seq<u8>,
    n: int,
    d: int,
    inv: bool,
    out: Image,
)
    requires
        dither_post(src, vals, n, d, inv, out),
    ensures
        two_tone_image(out),
{
    assert forall|x: int, y: int| out.in_bounds(x, y) implies {
        &&& (#[trigger] out.chan(x, y, 0) == 255 || out.chan(x, y, 0) == 0)
        &&& out.chan(x, y, 1) == out.chan(x, y, 0)
        &&& out.chan(x, y, 2) == out.chan(x, y, 0)
        &&& out.chan(x, y, 3) == 255
    } by {
        assert(src.in_bounds(x, y));
        assert(out.chan(x, y, 0) == two_tone_chan(pixel_fg(src, vals, n, d, inv, x, y), 0));
        assert(out.chan(x, y, 1) == two_tone_chan(pixel_fg(src, vals, n, d, inv, x, y), 1));
        assert(out.chan(x, y, 2) == two_tone_chan(pixel_fg(src, vals, n, d, inv, x, y), 2));
        assert(out.chan(x, y, 3) == two_tone_chan(pixel_fg(src, vals, n, d, inv, x, y), 3));
    }
}

/// Law: for a fixed matrix of size `n`, the dithered value at `(x, y)`
/// depends only on `(x mod n, y mod n)` and the pixel's intensity.
pub proof fn lemma_dither_tiling(
    src: Image,
    vals: Seq<u8>,
    n: int,
    d: int,
    inv: bool,
    x1: int,
    y1: int,
    x2: int,
    y2: int,
)
    requires
        x1 % n == x2 % n,
        y1 % n == y2 % n,
        luma_sum(src, x1, y1) == luma_sum(src, x2, y2),
    ensures
        pixel_fg(src, vals, n, d, inv, x1, y1) == pixel_fg(src, vals, n, d, inv, x2, y2),
{
}

/// Law: raising the darkness bias never decreases the number of
/// background-colored pixels, as long as the output is not inverted (under
/// inversion the effect turns around, so that case is left out).
pub proof fn lemma_darker_never_fewer_background(
    src: Image,
    vals: Seq<u8>,
    n: int,
    d1: int,
    d2: int,
)
    requires
        d1 <= d2,
    ensures
        bg_count(src, vals, n, d1, false) <= bg_count(src, vals, n, d2, false),
{
    lemma_bg_count_to_monotone(
        src, vals, n, d1, d2, ((src.width as nat) * (src.height as nat)));
}

/// Law: dithering with the inversion flag set yields the pixel-wise color
/// complement of dithering without it.
pub proof fn lemma_inversion_complements(
    src: Image,
    vals: Seq<u8>,
    n: int,
    d: int,
    out_plain: Image,
    out_inv: Image,
)
    requires
        dither_post(src, vals, n, d, false, out_plain),
        dither_post(src, vals, n, d, true, out_inv),
    ensures
        out_inv.width == out_plain.width,
        out_inv.height == out_plain.height,
        forall|x: int, y: int, c: int|
            src.in_bounds(x, y) && 0 <= c < 4
                ==> #[trigger] out_inv.chan(x, y, c)
                    == complement_chan(out_plain.chan(x, y, c), c),
{
    assert forall|x: int, y: int, c: int|
        src.in_bounds(x, y) && 0 <= c < 4
            implies #[trigger] out_inv.chan(x, y, c)
                == complement_chan(out_plain.chan(x, y, c), c) by {
        assert(out_plain.chan(x, y, c) == two_tone_chan(pixel_fg(src, vals, n, d, false, x, y), c));
        assert(out_inv.chan(x, y, c) == two_tone_chan(pixel_fg(src, vals, n, d, true, x, y), c));
    }
}

/// A higher darkness bias only raises the threshold: whatever exceeds the
/// raised threshold exceeded the lower one.
proof fn lemma_threshold_monotone(s: int, v: int, n2: int, d1: int, d2: int)
    by (nonlinear_arith)
    requires
        d1 <= d2,
        n2 >= 0,
        100 * (n2 * s) > 765 * (100 * v + d2 * n2),
    ensures
        100 * (n2 * s) > 765 * (100 * v + d1 * n2),
{
}

/// Induction step for the background-count law.
proof fn lemma_bg_count_to_monotone(
    src: Image,
    vals: Seq<u8>,
    n: int,
    d1: int,
    d2: int,
    m: nat,
)
    requires
        d1 <= d2,
    ensures
        bg_count_to(src, vals, n, d1, false, m) <= bg_count_to(src, vals, n, d2, false, m),
    decreases m,
{
    if m > 0 {
        lemma_bg_count_to_monotone(src, vals, n, d1, d2, (m - 1) as nat);
        let p = (m - 1) as int;
        let px = p % (src.width as int);
        let py = p / (src.width as int);
        if pixel_fg(src, vals, n, d2, false, px, py) {
            assert(n * n >= 0) by (nonlinear_arith);
            lemma_threshold_monotone(
                luma_sum(src, px, py), tile_entry(vals, n, px, py) as int, n * n, d1, d2);
            assert(pixel_fg(src, vals, n, d1, false, px, py));
        }
    }
}

/// The terms of the threshold comparison stay far inside `i64`.
proof fn lemma_threshold_term_bounds(d: int, n2: int, s: int)
    by (nonlinear_arith)
    requires
        -0x8000_0000 <= d < 0x8000_0000,
        0 < n2 <= 64,
        0 <= s <= 765,
    ensures
        -0x20_0000_0000_0000 <= d * n2 <= 0x20_0000_0000_0000,
        0 <= n2 * s <= 48960,
{
}

/// An earlier pixel's flat index lies strictly below a later pixel's.
proof fn lemma_pixel_before(w: int, px: int, py: int, x: int, y: int)
    by (nonlinear_arith)
    requires
        0 <= px < w,
        0 <= py,
        0 <= x,
        py < y || (py == y && px < x),
    ensures
        0 <= py * w + px,
        py * w + px < y * w + x,
{
}

} // verus!
