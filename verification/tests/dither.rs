use pic2term::dither::{dither, kernel_entry, nearest_color_index};
use pic2term::pixel::{Pixel, PixelBuffer};

fn px(r: u8, g: u8, b: u8) -> Pixel {
    Pixel { r, g, b }
}

/// A 256-entry palette whose first entries are the given colors and whose
/// remaining entries are all `filler`.
fn palette_with(front: &[Pixel], filler: Pixel) -> Vec<Pixel> {
    let mut pal = Vec::with_capacity(256);
    for &p in front {
        pal.push(p);
    }
    while pal.len() < 256 {
        pal.push(filler);
    }
    pal
}

/// A palette of 256 pairwise-distinct colors: entry i is (i, 0, 0).
fn distinct_palette() -> Vec<Pixel> {
    let mut pal = Vec::with_capacity(256);
    for i in 0..256 {
        pal.push(px(i as u8, 0, 0));
    }
    pal
}

#[test]
fn kernel_weights_sum_to_48() {
    let mut sum: u32 = 0;
    for k in 0..12 {
        let (_, _, w) = kernel_entry(k);
        sum += w as u32;
    }
    assert_eq!(sum, 48);
}

#[test]
fn equidistant_entries_pick_the_lower_index() {
    // (1,0,0) is at squared distance 1 from both entry 0 and entry 1; the
    // scan must keep the first minimum.
    let pal = palette_with(&[px(0, 0, 0), px(2, 0, 0)], px(255, 255, 255));
    let buf = PixelBuffer::try_new(1, 1, vec![px(1, 0, 0)]).unwrap();
    assert_eq!(dither(buf, &pal), vec![0]);
}

#[test]
fn identical_entries_pick_the_lower_index() {
    // Two identical palette entries: the lower index wins.
    let pal = palette_with(&[px(9, 9, 9), px(40, 40, 40), px(40, 40, 40)], px(255, 255, 255));
    let p = px(41, 41, 41);
    let i = nearest_color_index(&p, &pal);
    assert_eq!(i, 1);
}

#[test]
fn exact_match_is_chosen() {
    let pal = distinct_palette();
    let p = px(123, 0, 0);
    assert_eq!(nearest_color_index(&p, &pal), 123);
}

#[test]
fn uniform_image_of_palette_color_maps_to_that_index() {
    // Every pixel equals entry 5 of a duplicate-free palette: the residual
    // is zero everywhere, nothing drifts, and every index is 5.
    let pal = distinct_palette();
    let buf = PixelBuffer::try_new(3, 3, vec![px(5, 0, 0); 9]).unwrap();
    assert_eq!(dither(buf, &pal), vec![5; 9]);
}

#[test]
fn diffused_residual_flips_the_next_pixel() {
    // Black and white palette; two pixels of (125,125,125). The first
    // quantizes to black with residual +125 per channel; its right-hand
    // neighbor takes 125 * 7 / 48 = 18 per channel, reaching (143,143,143),
    // which is nearer to white.
    let pal = palette_with(&[px(0, 0, 0), px(255, 255, 255)], px(0, 0, 0));
    let buf = PixelBuffer::try_new(2, 1, vec![px(125, 125, 125); 2]).unwrap();
    assert_eq!(dither(buf, &pal), vec![0, 1]);
}

#[test]
fn without_diffusion_reach_both_stay_dark() {
    // The same two gray pixels but a shade lighter threshold: (120,120,120)
    // gains 120 * 7 / 48 = 17, reaching 137, still nearer to black
    // (137^2 < 118^2 is false) -- check the exact tip-over.
    // 125 + 18 = 143: 143^2 = 20449 > 112^2 = 12544, flips (covered above);
    // here 100 + 14 = 114: 114^2 = 12996 < 141^2 = 19881, stays black.
    let pal = palette_with(&[px(0, 0, 0), px(255, 255, 255)], px(0, 0, 0));
    let buf = PixelBuffer::try_new(2, 1, vec![px(100, 100, 100); 2]).unwrap();
    assert_eq!(dither(buf, &pal), vec![0, 0]);
}

#[test]
fn try_new_rejects_malformed_buffers() {
    assert!(PixelBuffer::try_new(0, 4, vec![]).is_none());
    assert!(PixelBuffer::try_new(4, 0, vec![]).is_none());
    assert!(PixelBuffer::try_new(2, 2, vec![px(0, 0, 0); 3]).is_none());
    assert!(PixelBuffer::try_new(2, 2, vec![px(0, 0, 0); 4]).is_some());
}
