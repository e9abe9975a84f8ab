//! Painting escape counts into an RGBA image: a sample whose orbit escaped
//! after `count < max_iter` steps takes the palette colour of hue
//! `count + salt`; a sample that stayed bounded for all `max_iter` steps is
//! black. Every pixel is opaque, and pixels that no sample covers stay white.

use vstd::prelude::*;

use crate::grid::{lemma_sample_pixel_in_area, spec_pixel_of};

verus! {

/// What a sample is painted with.
#[derive(Clone, Copy, Debug, PartialEq, Eq, Structural)]
pub enum PixelColor {
    /// Escaped: the palette colour of this hue index.
    Hue(usize),
    /// Bounded for every iteration: black.
    Black,
}

/// Colour of a sample that took `count` iterations out of `max_iter`.
pub open spec fn spec_pixel_color(count: usize, max_iter: usize, salt: u8) -> PixelColor {
    if count < max_iter {
        PixelColor::Hue((count + salt) as usize)
    } else {
        PixelColor::Black
    }
}

/// Colour of a sample that took `count` iterations out of `max_iter`:
/// `Hue(count + salt)` when it escaped, `Black` when it did not.
pub fn pixel_color(count: usize, max_iter: usize, salt: u8) -> (color: PixelColor)
    requires
        count < max_iter ==> count + salt <= usize::MAX,
    ensures
        color == spec_pixel_color(count, max_iter, salt),
{
    if count < max_iter {
        PixelColor::Hue(count + salt as usize)
    } else {
        PixelColor::Black
    }
}

/// An escaped sample (`count < max_iter`) takes hue `count + salt`; any
/// other is black.
pub proof fn lemma_pixel_color_cases(count: usize, max_iter: usize, salt: u8)
    requires
        count < max_iter ==> count + salt <= usize::MAX,
    ensures
        count < max_iter ==> spec_pixel_color(count, max_iter, salt) == PixelColor::Hue(
            (count + salt) as usize,
        ),
        count < max_iter ==> (count + salt) as usize == count + salt,
        count >= max_iter ==> spec_pixel_color(count, max_iter, salt) == PixelColor::Black,
{
}

/// Red, green and blue of a colour, hues read from `palette`.
pub open spec fn spec_rgb(color: PixelColor, palette: Seq<(u8, u8, u8)>) -> (u8, u8, u8) {
    match color {
        PixelColor::Hue(n) => palette[n as int],
        PixelColor::Black => (0u8, 0u8, 0u8),
    }
}

/// Red, green and blue of a colour, hues read from `palette`.
pub fn color_rgb(color: PixelColor, palette: &Vec<(u8, u8, u8)>) -> (rgb: (u8, u8, u8))
    requires
        color matches PixelColor::Hue(n) ==> n < palette@.len(),
    ensures
        rgb == spec_rgb(color, palette@),
{
    match color {
        PixelColor::Hue(n) => palette[n],
        PixelColor::Black => (0, 0, 0),
    }
}

/// Byte `ch` (0 red, 1 green, 2 blue, 3 alpha) of an opaque pixel of colour `rgb`.
pub open spec fn spec_channel(rgb: (u8, u8, u8), ch: int) -> u8 {
    if ch == 0 {
        rgb.0
    } else if ch == 1 {
        rgb.1
    } else if ch == 2 {
        rgb.2
    } else {
        255u8
    }
}

/// Colour of pixel `p` of the image: the colour of sample `p`, or white where
/// there is no such sample.
pub open spec fn spec_pixel_rgb(
    p: int,
    counts: Seq<usize>,
    max_iter: usize,
    salt: u8,
    palette: Seq<(u8, u8, u8)>,
) -> (u8, u8, u8) {
    if p < counts.len() {
        spec_rgb(spec_pixel_color(counts[p], max_iter, salt), palette)
    } else {
        (255u8, 255u8, 255u8)
    }
}

/// The RGBA bytes of an image of `n_pixels` pixels painted from `counts`:
/// four bytes per pixel, pixel `p` at bytes `4 * p .. 4 * p + 4`.
pub open spec fn spec_rgba_image(
    n_pixels: nat,
    counts: Seq<usize>,
    max_iter: usize,
    salt: u8,
    palette: Seq<(u8, u8, u8)>,
) -> Seq<u8> {
    Seq::new(
        4 * n_pixels,
        |i: int| spec_channel(spec_pixel_rgb(i / 4, counts, max_iter, salt, palette), i % 4),
    )
}

/// Every escaped sample's hue has an entry in `palette`.
pub open spec fn palette_covers(
    counts: Seq<usize>,
    max_iter: usize,
    salt: u8,
    palette: Seq<(u8, u8, u8)>,
) -> bool {
    forall|p: int|
        0 <= p < counts.len() && #[trigger] counts[p] < max_iter ==> counts[p] + salt
            < palette.len()
}

/// The RGBA image, `wh.0` x `wh.1` pixels, of the samples' escape counts
/// `counts` (sample `p` painting pixel `p`), hues read from `palette`.
pub fn rgba_image(
    wh: (u32, u32),
    counts: &Vec<usize>,
    max_iter: usize,
    salt: u8,
    palette: &Vec<(u8, u8, u8)>,
) -> (data: Vec<u8>)
    requires
        4 * wh.0 * wh.1 <= u32::MAX,
        counts@.len() <= wh.0 * wh.1,
        palette_covers(counts@, max_iter, salt, palette@),
    ensures
        data@ == spec_rgba_image((wh.0 * wh.1) as nat, counts@, max_iter, salt, palette@),
        data@.len() == 4 * wh.0 * wh.1,
{
    let (width, height) = wh;
    proof {
        assert(wh.0 * wh.1 <= 4 * wh.0 * wh.1) by (nonlinear_arith)
            requires wh.0 >= 0, wh.1 >= 0;
    }
    let n_pixels: u32 = width * height;
    let ghost target = spec_rgba_image(n_pixels as nat, counts@, max_iter, salt, palette@);
    let palette_len: usize = palette.len();
    let mut data: Vec<u8> = Vec::new();
    let mut p: u32 = 0;
    while p < n_pixels
        invariant
            n_pixels as int == wh.0 * wh.1,
            counts@.len() <= n_pixels,
            palette_covers(counts@, max_iter, salt, palette@),
            palette_len == palette@.len(),
            target == spec_rgba_image(n_pixels as nat, counts@, max_iter, salt, palette@),
            p <= n_pixels,
            data@.len() == 4 * p,
            forall|j: int| 0 <= j < 4 * p ==> #[trigger] data@[j] == target[j],
        decreases n_pixels - p,
    {
        let idx: usize = p as usize;
        let rgb: (u8, u8, u8) = if idx < counts.len() {
            let count = counts[idx];
            proof {
                assert(counts@[idx as int] == count);
            }
            let color = pixel_color(count, max_iter, salt);
            color_rgb(color, palette)
        } else {
            (255, 255, 255)
        };
        assert(rgb == spec_pixel_rgb(p as int, counts@, max_iter, salt, palette@));
        data.push(rgb.0);
        data.push(rgb.1);
        data.push(rgb.2);
        data.push(255);
        proof {
            assert forall|j: int| 4 * p <= j < 4 * p + 4 implies #[trigger] data@[j] == target[j] by {
                assert(j / 4 == p && j % 4 == j - 4 * p);
            }
        }
        p = p + 1;
    }
    proof {
        assert(4 * (wh.0 * wh.1) == 4 * wh.0 * wh.1) by (nonlinear_arith);
    }
    data
}


/// A palette with an entry for every hue below `max_iter + salt` has a colour
/// for every escaped sample, whatever the counts.
pub proof fn lemma_full_palette_covers(
    counts: Seq<usize>,
    max_iter: usize,
    salt: u8,
    palette: Seq<(u8, u8, u8)>,
)
    requires
        max_iter + salt <= palette.len(),
    ensures
        palette_covers(counts, max_iter, salt, palette),
{
}

/// Every pixel of the image is opaque: its alpha byte is 255.
pub proof fn lemma_image_opaque(
    n_pixels: nat,
    counts: Seq<usize>,
    max_iter: usize,
    salt: u8,
    palette: Seq<(u8, u8, u8)>,
    p: int,
)
    requires
        0 <= p < n_pixels,
    ensures
        spec_rgba_image(n_pixels, counts, max_iter, salt, palette).len() == 4 * n_pixels,
        spec_rgba_image(n_pixels, counts, max_iter, salt, palette)[4 * p + 3] == 255u8,
{
    assert((4 * p + 3) / 4 == p && (4 * p + 3) % 4 == 3);
}

/// A sample that stayed bounded for all `max_iter` iterations paints its
/// pixel black; one that escaped after `count` paints it the palette colour of
/// hue `count + salt`.
pub proof fn lemma_sample_color(
    n_pixels: nat,
    counts: Seq<usize>,
    max_iter: usize,
    salt: u8,
    palette: Seq<(u8, u8, u8)>,
    p: int,
)
    requires
        0 <= p < counts.len(),
        counts.len() <= n_pixels,
        counts[p] < max_iter ==> counts[p] + salt <= usize::MAX,
    ensures
        ({
            let image = spec_rgba_image(n_pixels, counts, max_iter, salt, palette);
            let rgb = (image[4 * p], image[4 * p + 1], image[4 * p + 2]);
            &&& counts[p] >= max_iter ==> rgb == (0u8, 0u8, 0u8)
            &&& counts[p] < max_iter ==> rgb == palette[counts[p] + salt]
        }),
{
    assert((4 * p) / 4 == p && (4 * p) % 4 == 0);
    assert((4 * p + 1) / 4 == p && (4 * p + 1) % 4 == 1);
    assert((4 * p + 2) / 4 == p && (4 * p + 2) % 4 == 2);
}

/// A pixel that no sample covers stays white.
pub proof fn lemma_unsampled_pixel_white(
    n_pixels: nat,
    counts: Seq<usize>,
    max_iter: usize,
    salt: u8,
    palette: Seq<(u8, u8, u8)>,
    p: int,
)
    requires
        counts.len() <= p < n_pixels,
    ensures
        ({
            let image = spec_rgba_image(n_pixels, counts, max_iter, salt, palette);
            (image[4 * p], image[4 * p + 1], image[4 * p + 2]) == (255u8, 255u8, 255u8)
        }),
{
    assert((4 * p) / 4 == p && (4 * p) % 4 == 0);
    assert((4 * p + 1) / 4 == p && (4 * p + 1) % 4 == 1);
    assert((4 * p + 2) / 4 == p && (4 * p + 2) % 4 == 2);
}


/// Sample `k` of the grid paints the pixel the grid assigns it: the four bytes
/// at row-major position `row * width + column` of pixel
/// `(column, row) == spec_pixel_of(k, width)` are the colour of sample `k`.
pub proof fn lemma_sample_paints_its_grid_pixel(
    width: nat,
    height: nat,
    counts: Seq<usize>,
    max_iter: usize,
    salt: u8,
    palette: Seq<(u8, u8, u8)>,
    k: int,
    ch: int,
)
    requires
        width > 0,
        0 <= k < counts.len(),
        counts.len() <= width * height,
        0 <= ch < 4,
    ensures
        ({
            let (column, row) = spec_pixel_of(k, width as int);
            let image = spec_rgba_image(width * height, counts, max_iter, salt, palette);
            &&& 0 <= 4 * (row * width + column) + ch < image.len()
            &&& image[4 * (row * width + column) + ch] == spec_channel(
                spec_pixel_rgb(k, counts, max_iter, salt, palette),
                ch,
            )
        }),
{
    lemma_sample_pixel_in_area(k, width as int, height as int);
    let i = 4 * k + ch;
    assert(i / 4 == k && i % 4 == ch);
}

} // verus!
