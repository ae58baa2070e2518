use ritz::image::{logo_from, logo_pixels, PixelLayout, Pixels, Png};

fn encoded(width: u32, height: u32, color: png::ColorType, data: &[u8]) -> Vec<u8> {
    let mut out = Vec::new();
    {
        let mut encoder = png::Encoder::new(&mut out, width, height);
        encoder.set_color(color);
        encoder.set_depth(png::BitDepth::Eight);
        let mut writer = encoder.write_header().unwrap();
        writer.write_image_data(data).unwrap();
    }
    out
}

#[test]
fn a_png_is_decoded() {
    let data = [1, 2, 3, 4, 5, 6, 7, 8];
    let p = logo_pixels(&encoded(2, 1, png::ColorType::Rgba, &data), 256).unwrap();
    assert_eq!((p.width, p.height), (2, 1));
    assert_eq!(p.rgba, data);
}

#[test]
fn a_png_without_alpha_is_opaque() {
    let data = [1, 2, 3, 4, 5, 6];
    let p = logo_pixels(&encoded(1, 2, png::ColorType::Rgb, &data), 256).unwrap();
    assert_eq!((p.width, p.height), (1, 2));
    assert_eq!(p.rgba, [1, 2, 3, 255, 4, 5, 6, 255]);
}

#[test]
fn what_is_no_logo_is_nothing() {
    assert!(logo_pixels(b"no png", 256).is_none());
    assert!(logo_pixels(&encoded(2, 1, png::ColorType::Grayscale, &[1, 2]), 256).is_none());
    assert!(logo_from(None, 256).is_none());
    let short = Png { width: 2, height: 2, layout: PixelLayout::Rgba, data: vec![0; 15] };
    assert!(logo_from(Some(short), 256).is_none());
}

#[test]
fn halving_is_the_mean_by_alpha() {
    let p = Pixels {
        width: 2,
        height: 2,
        rgba: vec![200, 0, 0, 255, 100, 0, 0, 85, 9, 9, 9, 0, 9, 9, 9, 0],
    };
    let h = p.shrink(1);
    assert_eq!((h.width, h.height), (1, 1));
    // (200 * 255 + 100 * 85) / 340, and (255 + 85) / 4.
    assert_eq!(h.rgba, [175, 0, 0, 85]);
    let clear = Pixels { width: 2, height: 2, rgba: [7, 7, 7, 0].repeat(4) };
    assert_eq!(clear.shrink(1).rgba, [0, 0, 0, 0]);
}

#[test]
fn transparent_pixels_do_not_bleed() {
    let with = |c: u8| Pixels {
        width: 2,
        height: 2,
        rgba: vec![10, 20, 30, 255, c, c, c, 0, 10, 20, 30, 255, c, c, c, 0],
    };
    assert_eq!(with(0).shrink(1).rgba, with(255).shrink(1).rgba);
    assert_eq!(with(0).shrink(1).rgba, [10, 20, 30, 127]);
}

#[test]
fn images_are_halved_while_both_sides_are_large_and_even() {
    let size = |w: usize, h: usize, max: usize| {
        let p = Pixels { width: w, height: h, rgba: vec![255; w * h * 4] }.shrink(max);
        assert!(p.rgba.iter().all(|b| *b == 255));
        (p.width, p.height)
    };
    assert_eq!(size(16, 16, 4), (4, 4));
    assert_eq!(size(16, 4, 4), (16, 4));
    assert_eq!(size(12, 12, 2), (3, 3));
    assert_eq!(size(8, 8, 8), (8, 8));
}

#[test]
fn rows_and_columns_keep_their_places() {
    // A four by two image whose two halves differ.
    let left = [255, 0, 0, 255];
    let right = [0, 0, 255, 255];
    let mut rgba = Vec::new();
    for _ in 0..2 {
        for x in 0..4 {
            rgba.extend(if x < 2 { left } else { right });
        }
    }
    let p = Pixels { width: 4, height: 2, rgba }.shrink(1);
    assert_eq!((p.width, p.height), (2, 1));
    assert_eq!(p.rgba, [255, 0, 0, 255, 0, 0, 255, 255]);
}
