use bayer_dither::crop::{compute_crop, resample, CropRect};
use bayer_dither::dither::ordered_dither;
use bayer_dither::frame::{frame_step, render_frame};
use bayer_dither::img::Image;
use bayer_dither::viewport::{InputEvent, LoopState, ViewState};

fn gradient(w: u32, h: u32) -> Image {
    let mut data = Vec::new();
    for y in 0..h {
        for x in 0..w {
            data.push((x * 37 + y * 11) as u8);
            data.push((x * 5 + y * 29) as u8);
            data.push((x + y) as u8);
            data.push(255);
        }
    }
    Image::from_raw(w, h, data).ok().unwrap()
}

fn same_content(a: &Image, b: &Image) -> bool {
    if a.width() != b.width() || a.height() != b.height() {
        return false;
    }
    for y in 0..a.height() {
        for x in 0..a.width() {
            for c in 0..4 {
                if a.channel(x, y, c) != b.channel(x, y, c) {
                    return false;
                }
            }
        }
    }
    true
}

#[test]
fn zoom_zero_crops_nothing() {
    let rect = compute_crop(10, 7, 0);
    assert_eq!(rect, CropRect { x: 0, y: 0, w: 10, h: 7 });
    let rect = compute_crop(1, 1, 0);
    assert_eq!(rect, CropRect { x: 0, y: 0, w: 1, h: 1 });
}

#[test]
fn offsets_follow_the_rounded_diagonal_formula() {
    // For 100 x 50 the diagonal is isqrt(12500) = 111, so zoom 10 gives
    // offsets round(2000 / 222) = 9 and round(1000 / 222 + 1/2) = 5.
    let rect = compute_crop(100, 50, 10);
    assert_eq!(rect, CropRect { x: 9, y: 5, w: 82, h: 40 });
}

#[test]
fn oversized_zoom_is_clamped_to_the_largest_safe_value() {
    // For 10 x 7 the diagonal is isqrt(149) = 12; zoom 5 is the largest
    // value keeping both sides at least one pixel.
    let clamped = compute_crop(10, 7, u32::MAX);
    assert_eq!(clamped, CropRect { x: 4, y: 3, w: 2, h: 1 });
    let at_five = compute_crop(10, 7, 5);
    assert_eq!(at_five, clamped);
    let at_six = compute_crop(10, 7, 6);
    assert_eq!(at_six, clamped);
}

#[test]
fn crop_always_keeps_a_pixel() {
    for (w, h) in [(1u32, 1u32), (2, 9), (640, 480), (3, 1000)] {
        for zoom in [0u32, 1, 5, 1000, 123_456_789, u32::MAX] {
            let rect = compute_crop(w, h, zoom);
            assert!(rect.w >= 1);
            assert!(rect.h >= 1);
            assert_eq!(rect.w, w - 2 * rect.x);
            assert_eq!(rect.h, h - 2 * rect.y);
            assert!(rect.x + rect.w <= w);
            assert!(rect.y + rect.h <= h);
        }
    }
}

#[test]
fn resampling_the_full_rectangle_is_the_identity() {
    let img = gradient(5, 3);
    let rect = CropRect { x: 0, y: 0, w: 5, h: 3 };
    let out = resample(&img, rect, 5, 3);
    assert!(same_content(&img, &out));
}

#[test]
fn nearest_neighbor_upscale_repeats_pixels() {
    let img = gradient(2, 1);
    let rect = CropRect { x: 0, y: 0, w: 2, h: 1 };
    let out = resample(&img, rect, 4, 2);
    for y in 0..2 {
        for c in 0..4 {
            assert_eq!(out.channel(0, y, c), img.channel(0, 0, c));
            assert_eq!(out.channel(1, y, c), img.channel(0, 0, c));
            assert_eq!(out.channel(2, y, c), img.channel(1, 0, c));
            assert_eq!(out.channel(3, y, c), img.channel(1, 0, c));
        }
    }
}

#[test]
fn resampling_a_window_picks_from_inside_it() {
    let img = gradient(6, 6);
    let rect = CropRect { x: 2, y: 1, w: 2, h: 3 };
    let out = resample(&img, rect, 4, 3);
    for y in 0..3 {
        for x in 0..4u32 {
            let sx = 2 + (x * 2) / 4;
            let sy = 1 + (y * 3) / 3;
            for c in 0..4 {
                assert_eq!(out.channel(x, y, c), img.channel(sx, sy, c));
            }
        }
    }
}

#[test]
fn rendered_frame_at_zoom_zero_is_the_plain_dither() {
    let img = gradient(9, 4);
    let state = ViewState { zoom: 0, level: 2, darkness: 1, inverted: false };
    let framed = render_frame(&img, state);
    let direct = ordered_dither(&img, 2, 1, false);
    assert!(same_content(&framed, &direct));
}

#[test]
fn rendered_frame_matches_the_manual_pipeline() {
    let img = gradient(10, 6);
    let state = ViewState { zoom: 6, level: 3, darkness: -2, inverted: true };
    let framed = render_frame(&img, state);
    let rect = compute_crop(10, 6, 6);
    let mid = resample(&img, rect, 10, 6);
    let expected = ordered_dither(&mid, 3, -2, true);
    assert!(same_content(&framed, &expected));
}

#[test]
fn rendered_frame_survives_an_extreme_zoom() {
    let img = gradient(3, 2);
    let state = ViewState { zoom: u32::MAX, level: 1, darkness: 0, inverted: false };
    let out = render_frame(&img, state);
    assert_eq!(out.width(), 3);
    assert_eq!(out.height(), 2);
    for y in 0..2 {
        for x in 0..3 {
            let v = out.channel(x, y, 0);
            assert!(v == 0 || v == 255);
            assert_eq!(out.channel(x, y, 3), 255);
        }
    }
}

#[test]
fn frame_step_renders_while_running() {
    let img = gradient(4, 4);
    let mut state = ViewState::new();
    let events = vec![InputEvent::Save, InputEvent::SelectLevel(1)];
    let (loop_state, save, out) = frame_step(&img, &mut state, &events);
    assert_eq!(loop_state, LoopState::Running);
    assert!(save);
    assert_eq!(state.level, 1);
    let out = out.unwrap();
    assert_eq!(out.width(), 4);
    assert_eq!(out.height(), 4);
}

#[test]
fn frame_step_stops_on_quit_without_rendering() {
    let img = gradient(4, 4);
    let mut state = ViewState::new();
    let events = vec![InputEvent::Save, InputEvent::Quit];
    let (loop_state, save, out) = frame_step(&img, &mut state, &events);
    assert_eq!(loop_state, LoopState::Quitting);
    assert!(!save);
    assert!(out.is_none());
}
