use bayer_dither::dither::{dither, ordered_dither};
use bayer_dither::img::Image;
use bayer_dither::kernel::DitherKernel;

fn solid(w: u32, h: u32, r: u8, g: u8, b: u8) -> Image {
    let mut data = Vec::new();
    for _ in 0..(w * h) {
        data.push(r);
        data.push(g);
        data.push(b);
        data.push(255);
    }
    Image::from_raw(w, h, data).ok().unwrap()
}

/// Builds a w x h image whose pixel (x, y) has the given channel sum,
/// split over the three color channels.
fn image_with_sums(w: u32, h: u32, sum_at: impl Fn(u32, u32) -> u32) -> Image {
    let mut data = Vec::new();
    for y in 0..h {
        for x in 0..w {
            let s = sum_at(x, y);
            assert!(s <= 765);
            let r = s.min(255);
            let g = (s - r).min(255);
            let b = s - r - g;
            data.push(r as u8);
            data.push(g as u8);
            data.push(b as u8);
            data.push(255);
        }
    }
    Image::from_raw(w, h, data).ok().unwrap()
}

fn assert_all_foreground(out: &Image) {
    for y in 0..out.height() {
        for x in 0..out.width() {
            assert_eq!(out.channel(x, y, 0), 255);
            assert_eq!(out.channel(x, y, 1), 255);
            assert_eq!(out.channel(x, y, 2), 255);
            assert_eq!(out.channel(x, y, 3), 255);
        }
    }
}

fn assert_all_background(out: &Image) {
    for y in 0..out.height() {
        for x in 0..out.width() {
            assert_eq!(out.channel(x, y, 0), 0);
            assert_eq!(out.channel(x, y, 1), 0);
            assert_eq!(out.channel(x, y, 2), 0);
            assert_eq!(out.channel(x, y, 3), 255);
        }
    }
}

fn background_count(out: &Image) -> u32 {
    let mut n: u32 = 0;
    for y in 0..out.height() {
        for x in 0..out.width() {
            if out.channel(x, y, 0) == 0 {
                n += 1;
            }
        }
    }
    n
}

#[test]
fn all_white_level1_is_all_foreground() {
    let img = solid(2, 2, 255, 255, 255);
    let out = ordered_dither(&img, 1, 0, false);
    assert_eq!(out.width(), 2);
    assert_eq!(out.height(), 2);
    assert_all_foreground(&out);
}

#[test]
fn all_black_any_level_is_all_background() {
    let img = solid(2, 2, 0, 0, 0);
    for level in [1, 2, 3, 0, 7] {
        let out = ordered_dither(&img, level, 0, false);
        assert_all_background(&out);
    }
}

#[test]
fn intensity_just_above_threshold_is_all_foreground() {
    // Pixel (x, y) gets a channel sum just above 765 * bayer4(x, y) / 16,
    // so with no darkness bias every intensity strictly exceeds its
    // co-located threshold.
    let kernel = DitherKernel::for_level(2);
    let img = image_with_sums(4, 4, |x, y| {
        (765 * kernel.entry_at(x, y) as u32) / 16 + 1
    });
    let out = ordered_dither(&img, 2, 0, false);
    assert_all_foreground(&out);
}

#[test]
fn small_darkness_bias_flips_near_threshold_image() {
    // The same image as above, but a darkness bias of one hundredth now
    // puts every threshold above its pixel's intensity.
    let kernel = DitherKernel::for_level(2);
    let img = image_with_sums(4, 4, |x, y| {
        (765 * kernel.entry_at(x, y) as u32) / 16 + 1
    });
    let out = ordered_dither(&img, 2, 1, false);
    assert_all_background(&out);
}

#[test]
fn output_is_two_tone() {
    let img = image_with_sums(7, 5, |x, y| (x * 131 + y * 97) % 766);
    let out = ordered_dither(&img, 3, 2, false);
    for y in 0..5 {
        for x in 0..7 {
            let v = out.channel(x, y, 0);
            assert!(v == 0 || v == 255);
            assert_eq!(out.channel(x, y, 1), v);
            assert_eq!(out.channel(x, y, 2), v);
            assert_eq!(out.channel(x, y, 3), 255);
        }
    }
}

#[test]
fn inversion_complements_every_pixel() {
    let img = image_with_sums(6, 6, |x, y| (x * 200 + y * 55) % 766);
    let kernel = DitherKernel::for_level(2);
    let plain = dither(&img, &kernel, 3, false);
    let flipped = dither(&img, &kernel, 3, true);
    for y in 0..6 {
        for x in 0..6 {
            for c in 0..3 {
                assert_eq!(flipped.channel(x, y, c), 255 - plain.channel(x, y, c));
            }
            assert_eq!(flipped.channel(x, y, 3), 255);
        }
    }
}

#[test]
fn raising_darkness_never_loses_background_pixels() {
    let img = image_with_sums(8, 8, |x, y| (x * 90 + y * 13) % 766);
    let mut previous: u32 = 0;
    for d in [-5, 0, 1, 4, 20, 1000] {
        let out = ordered_dither(&img, 2, d, false);
        let count = background_count(&out);
        assert!(count >= previous);
        previous = count;
    }
}

#[test]
fn pattern_repeats_with_matrix_period() {
    // The right half of the image copies the left half; with the 4x4
    // matrix the dithered halves must agree.
    let img = image_with_sums(8, 4, |x, y| ((x % 4) * 180 + y * 41) % 766);
    let out = ordered_dither(&img, 2, 0, false);
    for y in 0..4 {
        for x in 0..4 {
            for c in 0..4 {
                assert_eq!(out.channel(x, y, c), out.channel(x + 4, y, c));
            }
        }
    }
}

#[test]
fn equal_intensity_equals_threshold_is_background() {
    // Intensity 0 at a zero threshold: not strictly above, so background.
    let img = solid(1, 1, 0, 0, 0);
    let out = ordered_dither(&img, 1, 0, false);
    assert_eq!(out.channel(0, 0, 0), 0);
    // The same pixel under inversion becomes foreground.
    let out_inv = ordered_dither(&img, 1, 0, true);
    assert_eq!(out_inv.channel(0, 0, 0), 255);
}
