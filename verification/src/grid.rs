//! The sample grid: a plotting area of `width` x `height` pixels is walked in
//! row-major order, sample `k` standing for pixel `(k % width, k / width)`.

use vstd::prelude::*;

verus! {

/// Pixel `(column, row)` that sample `k` stands for in an area `width` pixels wide.
pub open spec fn spec_pixel_of(k: int, width: int) -> (int, int) {
    (k % width, k / width)
}

/// A pixel position read as a pair of mathematical integers.
pub open spec fn pixel_as_int(p: (usize, usize)) -> (int, int) {
    (p.0 as int, p.1 as int)
}

/// Pixel `(column, row)` that sample `k` stands for in an area `width` pixels wide.
pub fn pixel_of(k: usize, width: usize) -> (p: (usize, usize))
    requires
        width > 0,
    ensures
        pixel_as_int(p) == spec_pixel_of(k as int, width as int),
{
    (k % width, k / width)
}


/// Number of samples in an area of `samples.0` x `samples.1` pixels, each
/// dimension read as a `usize`.
pub open spec fn spec_sample_count(samples: (i32, i32)) -> int {
    (samples.0 as usize) * (samples.1 as usize)
}

/// The pixels of an area of `samples.0` x `samples.1` pixels in the order
/// the plot samples them: row by row, left to right.
pub fn sample_pixels(samples: (i32, i32)) -> (pixels: Vec<(usize, usize)>)
    requires
        spec_sample_count(samples) <= usize::MAX,
    ensures
        pixels@.len() == spec_sample_count(samples),
        forall|k: int|
            0 <= k < pixels@.len() ==> {
                pixel_as_int(#[trigger] pixels@[k]) == spec_pixel_of(k, samples.0 as usize as int)
            },
        samples.0 >= 0 && samples.1 >= 0 ==> pixels@.len() == samples.0 * samples.1,
        samples.0 >= 0 && samples.1 >= 0 ==> forall|k: int|
            0 <= k < pixels@.len() ==> {
                &&& 0 <= #[trigger] pixels@[k].0 < samples.0
                &&& 0 <= pixels@[k].1 < samples.1
            },
        samples.0 >= 0 && samples.1 >= 0 ==> forall|column: int, row: int|
            0 <= column < samples.0 && 0 <= row < samples.1 ==> #[trigger] pixels@.contains(
                (column as usize, row as usize),
            ),
{
    let width: usize = samples.0 as usize;
    let height: usize = samples.1 as usize;
    let total: usize = width * height;
    let mut pixels: Vec<(usize, usize)> = Vec::new();
    let mut k: usize = 0;
    while k < total
        invariant
            width == samples.0 as usize,
            total as int == spec_sample_count(samples),
            k <= total,
            pixels@.len() == k,
            forall|j: int|
                0 <= j < k ==> pixel_as_int(#[trigger] pixels@[j]) == spec_pixel_of(j, width as int),
        decreases total - k,
    {
        proof {
            if width == 0 {
                assert(total == 0) by (nonlinear_arith)
                    requires total as int == width * height, width == 0;
            }
        }
        let p = pixel_of(k, width);
        pixels.push(p);
        k = k + 1;
    }
    if samples.0 >= 0 && samples.1 >= 0 {
        proof {
            let w = samples.0 as int;
            let h = samples.1 as int;
            lemma_sample_count_is_area(samples);
            assert forall|j: int| 0 <= j < pixels@.len() implies {
                &&& 0 <= #[trigger] pixels@[j].0 < samples.0
                &&& 0 <= pixels@[j].1 < samples.1
            } by {
                lemma_sample_pixel_in_area(j, w, h);
            }
            assert forall|column: int, row: int|
                0 <= column < samples.0 && 0 <= row < samples.1 implies #[trigger] pixels@.contains(
                (column as usize, row as usize),
            ) by {
                lemma_pixel_is_sampled(column, row, w, h);
                let j = row * w + column;
                assert(pixel_as_int(pixels@[j]) == (column, row));
                assert(pixels@[j] == (column as usize, row as usize));
            }
        }
    }
    pixels
}

/// An area of non-negative dimensions has one sample per pixel: its sample
/// count is its width times its height.
pub proof fn lemma_sample_count_is_area(samples: (i32, i32))
    requires
        samples.0 >= 0,
        samples.1 >= 0,
    ensures
        spec_sample_count(samples) == samples.0 * samples.1,
        spec_sample_count(samples) >= 0,
{
    assert(samples.0 * samples.1 >= 0) by (nonlinear_arith)
        requires samples.0 >= 0, samples.1 >= 0;
}


/// Every sample of a `width` x `height` area stands for a pixel inside it, and
/// sample `k` sits at row-major position `row * width + column == k`.
pub proof fn lemma_sample_pixel_in_area(k: int, width: int, height: int)
    requires
        width > 0,
        0 <= k < width * height,
    ensures
        0 <= spec_pixel_of(k, width).0 < width,
        0 <= spec_pixel_of(k, width).1 < height,
        spec_pixel_of(k, width).1 * width + spec_pixel_of(k, width).0 == k,
{
    vstd::arithmetic::div_mod::lemma_fundamental_div_mod(k, width);
    let row = k / width;
    vstd::arithmetic::mul::lemma_mul_is_commutative(width, row);
    vstd::arithmetic::div_mod::lemma_mod_bound(k, width);
    assert(row < height) by (nonlinear_arith)
        requires
            width > 0,
            k < width * height,
            row * width <= k,
    {
        if row >= height {
            assert(row * width >= height * width);
        }
    }
    assert(0 <= row) by (nonlinear_arith)
        requires width > 0, k >= 0, row == k / width;
}

/// Every pixel of a `width` x `height` area is sampled, by the sample at its
/// row-major position: the grid is a bijection between samples and pixels.
pub proof fn lemma_pixel_is_sampled(column: int, row: int, width: int, height: int)
    requires
        0 <= column < width,
        0 <= row < height,
    ensures
        0 <= row * width + column < width * height,
        spec_pixel_of(row * width + column, width) == (column, row),
{
    assert(0 <= row * width + column < width * height) by (nonlinear_arith)
        requires
            0 <= column < width,
            0 <= row < height,
    {
        assert(row * width <= (height - 1) * width);
    }
    vstd::arithmetic::div_mod::lemma_fundamental_div_mod_converse(
        row * width + column,
        width,
        row,
        column,
    );
}

/// Size and origin of the plotting area, in pixels, from its pixel ranges
/// `x` and `y` (each a half-open `(start, end)` pair): the size is
/// `(x.1 - x.0, y.1 - y.0)` and the origin `(x.0, y.0)`.
pub fn pixel_area(x: (i32, i32), y: (i32, i32)) -> (area: ((i32, i32), (i32, i32)))
    requires
        i32::MIN <= x.1 - x.0 <= i32::MAX,
        i32::MIN <= y.1 - y.0 <= i32::MAX,
    ensures
        area.0 == ((x.1 - x.0) as i32, (y.1 - y.0) as i32),
        area.1 == (x.0, y.0),
{
    ((x.1 - x.0, y.1 - y.0), (x.0, y.0))
}

/// The origin of the area plus its size gives back the end of each pixel range.
pub proof fn lemma_pixel_area_spans_ranges(x: (i32, i32), y: (i32, i32), area: ((i32, i32), (i32, i32)))
    requires
        i32::MIN <= x.1 - x.0 <= i32::MAX,
        i32::MIN <= y.1 - y.0 <= i32::MAX,
        area.0 == ((x.1 - x.0) as i32, (y.1 - y.0) as i32),
        area.1 == (x.0, y.0),
    ensures
        area.1.0 + area.0.0 == x.1,
        area.1.1 + area.0.1 == y.1,
{
}

} // verus!
