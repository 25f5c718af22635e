//! The per-frame pipeline of the interactive viewer: apply the queued
//! input events, derive the crop window from the zoom, resample the crop
//! back to the full canvas, and dither the result. Polling the events and
//! putting the frame on a screen stay outside the library.

use vstd::prelude::*;

use crate::crop::{
    axis_offset, clamped_zoom, compute_crop, diag_s2, resample, sqrt_floor, CropRect,
};
use crate::dither::{dither, threshold_exceeded, tile_entry, two_tone_chan};
use crate::img::Image;
use crate::kernel::{level_size, level_values, DitherKernel};
use crate::viewport::{drain_events, drain_spec, InputEvent, LoopState, ViewState};

verus! {

/// The floored diagonal length of the source image.
pub open spec fn frame_rt(src: Image) -> int {
    sqrt_floor(diag_s2(src.width as int, src.height as int) as nat) as int
}

/// The zoom actually used for a frame: clamped so both crop sides keep at
/// least one pixel.
pub open spec fn frame_zc(src: Image, zoom: int) -> int {
    clamped_zoom(zoom, src.width as int, src.height as int, frame_rt(src))
}

/// The crop window a frame uses.
pub open spec fn frame_rect(src: Image, zoom: int) -> CropRect {
    let ox = axis_offset(frame_zc(src, zoom), src.width as int, frame_rt(src));
    let oy = axis_offset(frame_zc(src, zoom), src.height as int, frame_rt(src));
    CropRect {
        x: ox as u32,
        y: oy as u32,
        w: (src.width - 2 * ox) as u32,
        h: (src.height - 2 * oy) as u32,
    }
}

/// The source column that canvas column `x` samples.
pub open spec fn frame_src_x(src: Image, zoom: int, x: int) -> int {
    frame_rect(src, zoom).x + (x * frame_rect(src, zoom).w) / (src.width as int)
}

/// The source row that canvas row `y` samples.
pub open spec fn frame_src_y(src: Image, zoom: int, y: int) -> int {
    frame_rect(src, zoom).y + (y * frame_rect(src, zoom).h) / (src.height as int)
}

/// The color-channel sum of the source pixel that lands at `(x, y)`.
pub open spec fn frame_luma(src: Image, zoom: int, x: int, y: int) -> int {
    src.chan(frame_src_x(src, zoom, x), frame_src_y(src, zoom, y), 0)
        + src.chan(frame_src_x(src, zoom, x), frame_src_y(src, zoom, y), 1)
        + src.chan(frame_src_x(src, zoom, x), frame_src_y(src, zoom, y), 2)
}

/// Whether the frame's pixel `(x, y)` comes out in the foreground color,
/// as a function of the source image and the viewer state alone.
pub open spec fn frame_pixel_fg(src: Image, vs: ViewState, x: int, y: int) -> bool {
    threshold_exceeded(
        frame_luma(src, vs.zoom as int, x, y),
        tile_entry(level_values(vs.level as int), level_size(vs.level as int), x, y) as int,
        level_size(vs.level as int) * level_size(vs.level as int),
        vs.darkness as int,
    ) != vs.inverted
}

/// What one rendered frame guarantees: a two-tone image of the source's
/// size whose every pixel is determined by the source and the state.
pub open spec fn frame_image_post(src: Image, vs: ViewState, out: Image) -> bool {
    &&& out.wf()
    &&& out.width == src.width
    &&& out.height == src.height
    &&& forall|x: int, y: int, c: int|
            src.in_bounds(x, y) && 0 <= c < 4
                ==> #[trigger] out.chan(x, y, c) == two_tone_chan(frame_pixel_fg(src, vs, x, y), c)
}

/// Renders one frame: crops the source as the zoom demands, resamples the
/// crop back to the source's size, and dithers with the state's detail
/// level, darkness and inversion flag.
pub fn render_frame(src: &Image, vs: ViewState) -> (out: Image)
    requires
        src.wf(),
    ensures
        frame_image_post(*src, vs, out),
{
    let w = src.width();
    let h = src.height();
    let nbytes: usize = src.raw_bytes().len();
    let rect = compute_crop(w, h, vs.zoom);
    proof {
        vstd::arithmetic::mul::lemma_mul_is_commutative(w as int, h as int);
        assert(4 * ((w as nat) * (h as nat)) == nbytes);
        assert(rect == frame_rect(*src, vs.zoom as int));
    }
    let mid = resample(src, rect, w, h);
    let k = DitherKernel::for_level(vs.level);
    let out = dither(&mid, &k, vs.darkness, vs.inverted);
    proof {
        assert forall|x: int, y: int, c: int|
            src.in_bounds(x, y) && 0 <= c < 4
                implies out.chan(x, y, c) == #[trigger] two_tone_chan(
                    frame_pixel_fg(*src, vs, x, y), c) by {
            assert(mid.chan(x, y, 0) == src.chan(
                rect.x + (x * rect.w) / (w as int), rect.y + (y * rect.h) / (h as int), 0));
            assert(mid.chan(x, y, 1) == src.chan(
                rect.x + (x * rect.w) / (w as int), rect.y + (y * rect.h) / (h as int), 1));
            assert(mid.chan(x, y, 2) == src.chan(
                rect.x + (x * rect.w) / (w as int), rect.y + (y * rect.h) / (h as int), 2));
            assert(out.chan(x, y, c) == two_tone_chan(
                crate::dither::pixel_fg(
                    mid, k.values@, k.size as int, vs.darkness as int, vs.inverted, x, y), c));
        }
    }
    out
}

/// One iteration of the frame loop: applies the frame's queued events,
/// then renders unless a quit arrived. Returns the loop state, whether
/// this frame is to be saved, and the rendered frame.
pub fn frame_step(src: &Image, state: &mut ViewState, events: &Vec<InputEvent>) -> (r: (
    LoopState,
    bool,
    Option<Image>,
))
    requires
        src.wf(),
    ensures
        ({
            let folded = drain_spec(*old(state), events@, false);
            &&& *final(state) == folded.0
            &&& r.0 == folded.1
            &&& r.1 == folded.2
        }),
        match r.2 {
            Some(out) => r.0 == LoopState::Running && frame_image_post(*src, *final(state), out),
            None => r.0 == LoopState::Quitting,
        },
{
    let (ls, save) = drain_events(state, events);
    match ls {
        LoopState::Quitting => (LoopState::Quitting, save, None),
        LoopState::Running => {
            let out = render_frame(src, *state);
            (LoopState::Running, save, Some(out))
        },
    }
}

} // verus!
