use mt_plotters::grid::{pixel_area, pixel_of, sample_pixels};

#[test]
fn pixel_of_is_row_major() {
    assert_eq!(pixel_of(0, 3), (0, 0));
    assert_eq!(pixel_of(2, 3), (2, 0));
    assert_eq!(pixel_of(3, 3), (0, 1));
    assert_eq!(pixel_of(7, 3), (1, 2));
}

#[test]
fn sample_pixels_walks_rows_left_to_right() {
    let pixels = sample_pixels((3, 2));
    assert_eq!(pixels, vec![(0, 0), (1, 0), (2, 0), (0, 1), (1, 1), (2, 1)]);
}

#[test]
fn sample_pixels_of_empty_area() {
    assert!(sample_pixels((0, 5)).is_empty());
    assert!(sample_pixels((4, 0)).is_empty());
}

#[test]
fn sample_pixels_visits_each_pixel_once() {
    let (w, h) = (7usize, 5usize);
    let pixels = sample_pixels((w as i32, h as i32));
    assert_eq!(pixels.len(), w * h);
    for (k, &(col, row)) in pixels.iter().enumerate() {
        assert!(col < w && row < h);
        assert_eq!(row * w + col, k);
    }
    for row in 0..h {
        for col in 0..w {
            assert_eq!(pixels.iter().filter(|&&p| p == (col, row)).count(), 1);
        }
    }
}

#[test]
fn pixel_area_size_and_origin() {
    assert_eq!(pixel_area((20, 580), (30, 410)), ((560, 380), (20, 30)));
    let ((pw, ph), (ox, oy)) = pixel_area((-5, 10), (7, 7));
    assert_eq!((pw, ph), (15, 0));
    assert_eq!((ox + pw, oy + ph), (10, 7));
}
