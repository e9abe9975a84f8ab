use mt_plotters::image::{color_rgb, pixel_color, rgba_image, PixelColor};

fn palette(n: usize) -> Vec<(u8, u8, u8)> {
    (0..n).map(|i| (i as u8, (2 * i) as u8, (3 * i) as u8)).collect()
}

#[test]
fn escaped_sample_takes_shifted_hue() {
    assert_eq!(pixel_color(3, 100, 5), PixelColor::Hue(8));
    assert_eq!(pixel_color(0, 1, 0), PixelColor::Hue(0));
    assert_eq!(pixel_color(99, 100, 0), PixelColor::Hue(99));
}

#[test]
fn bounded_sample_is_black() {
    assert_eq!(pixel_color(100, 100, 5), PixelColor::Black);
    assert_eq!(pixel_color(0, 0, 0), PixelColor::Black);
}

#[test]
fn color_rgb_reads_palette_or_black() {
    let pal = palette(10);
    assert_eq!(color_rgb(PixelColor::Hue(4), &pal), (4, 8, 12));
    assert_eq!(color_rgb(PixelColor::Black, &pal), (0, 0, 0));
}

#[test]
fn rgba_image_exact_bytes() {
    let pal = palette(10);
    // 2 x 2 image, three samples: escaped at 1 and 3, bounded at 5 (max_iter 5)
    let data = rgba_image((2, 2), &vec![1, 5, 3], 5, 2, &pal);
    assert_eq!(
        data,
        vec![
            3, 6, 9, 255, // hue 1 + 2
            0, 0, 0, 255, // bounded: black
            5, 10, 15, 255, // hue 3 + 2
            255, 255, 255, 255, // no sample: white
        ]
    );
}

#[test]
fn rgba_image_is_opaque_and_sized() {
    let pal = palette(20);
    let counts: Vec<usize> = (0..12).map(|i| i % 13).collect();
    let data = rgba_image((4, 3), &counts, 12, 7, &pal);
    assert_eq!(data.len(), 4 * 4 * 3);
    for p in 0..12 {
        assert_eq!(data[4 * p + 3], 255);
    }
}

#[test]
fn rgba_image_empty() {
    assert!(rgba_image((0, 9), &vec![], 10, 0, &vec![]).is_empty());
}
