//! One pass of a weighted sliding window along the rows of an image.
//!
//! Weights are fixed-point fractions scaled by 256: a window sum is divided
//! by 256 and the quotient is reduced to eight bits. The first `middle`
//! columns and the last `middle + 1` columns of each row are copied.

use vstd::prelude::*;
use crate::layout::{
    channel_of, col_of, frame_len, in_frame, lemma_sample_index_bounds, lemma_sample_index_join,
    lemma_sample_index_split, row_of, sample_index,
};

verus! {

/// Sum of the first `taps` weights of a kernel.
pub open spec fn weight_total(kernel: Seq<usize>, taps: int) -> int
    decreases taps,
{
    if taps <= 0 {
        0
    } else {
        weight_total(kernel, taps - 1) + kernel[taps - 1]
    }
}

/// Sum over the first `taps` weights of a kernel, each multiplied by the
/// sample it meets when the window is centred on column `col` of row `row`:
/// weight `i` meets the sample in column `middle + col - i`.
pub open spec fn row_window_sum(
    image: Seq<u8>,
    width: int,
    kernel: Seq<usize>,
    middle: int,
    row: int,
    col: int,
    channel: int,
    taps: int,
) -> int
    decreases taps,
{
    if taps <= 0 {
        0
    } else {
        row_window_sum(image, width, kernel, middle, row, col, channel, taps - 1) + image[sample_index(
            width,
            row,
            middle + col - (taps - 1),
            channel,
        )] * kernel[taps - 1]
    }
}

/// A window sum brought back to a sample: the quotient by 256, reduced to
/// eight bits.
pub open spec fn scaled_down(sum: int) -> u8 {
    ((sum / 256) % 256) as u8
}

/// Columns whose samples are recomputed by a pass along a line of the given
/// length; the others are copied.
pub open spec fn is_blended(length: int, middle: int, position: int) -> bool {
    middle <= position < length - middle - 1
}

/// One sample of the image after a pass along the rows.
pub open spec fn horz_blurred_sample(
    image: Seq<u8>,
    width: int,
    kernel: Seq<usize>,
    middle: int,
    row: int,
    col: int,
    channel: int,
) -> u8 {
    if is_blended(width, middle, col) {
        scaled_down(
            row_window_sum(image, width, kernel, middle, row, col, channel, kernel.len() as int),
        )
    } else {
        image[sample_index(width, row, col, channel)]
    }
}

/// The image after a pass along the rows.
pub open spec fn horz_blurred(width: int, middle: int, kernel: Seq<usize>, image: Seq<u8>) -> Seq<
    u8,
> {
    Seq::new(
        image.len(),
        |k: int|
            horz_blurred_sample(
                image,
                width,
                kernel,
                middle,
                row_of(width, k),
                col_of(width, k),
                channel_of(k),
            ),
    )
}

/// The weights are not negative, so a longer prefix has a larger total.
pub proof fn lemma_weight_total_grows(kernel: Seq<usize>, fewer: int, taps: int)
    requires
        0 <= fewer <= taps,
    ensures
        0 <= weight_total(kernel, fewer) <= weight_total(kernel, taps),
    decreases taps,
{
    if taps > 0 {
        if fewer < taps {
            lemma_weight_total_grows(kernel, fewer, taps - 1);
        } else {
            lemma_weight_total_grows(kernel, fewer - 1, taps - 1);
        }
    }
}

/// A window sum is at most 255 times the total of the weights used.
pub proof fn lemma_row_window_sum_bounds(
    image: Seq<u8>,
    width: int,
    kernel: Seq<usize>,
    middle: int,
    row: int,
    col: int,
    channel: int,
    taps: int,
)
    ensures
        0 <= row_window_sum(image, width, kernel, middle, row, col, channel, taps) <= 255
            * weight_total(kernel, taps),
    decreases taps,
{
    if taps > 0 {
        lemma_row_window_sum_bounds(image, width, kernel, middle, row, col, channel, taps - 1);
        let sample = image[sample_index(width, row, middle + col - (taps - 1), channel)];
        let weight = kernel[taps - 1];
        assert(0 <= sample * weight <= 255 * weight) by (nonlinear_arith)
            requires
                0 <= sample <= 255,
                0 <= weight,
        ;
    }
}

/// The sample of the blurred image at given coordinates.
pub proof fn lemma_horz_blurred_sample(
    height: int,
    width: int,
    middle: int,
    kernel: Seq<usize>,
    image: Seq<u8>,
    row: int,
    col: int,
    channel: int,
)
    requires
        image.len() == frame_len(height, width),
        in_frame(height, width, row, col, channel),
    ensures
        0 <= sample_index(width, row, col, channel) < image.len(),
        horz_blurred(width, middle, kernel, image)[sample_index(width, row, col, channel)]
            == horz_blurred_sample(image, width, kernel, middle, row, col, channel),
{
    lemma_sample_index_bounds(height, width, row, col, channel);
    lemma_sample_index_split(width, row, col, channel);
}

/// Every pixel of the image holds the same three samples.
pub open spec fn is_uniform(image: Seq<u8>) -> bool {
    forall|i: int, j: int|
        #![trigger image[i], image[j]]
        0 <= i < image.len() && 0 <= j < image.len() && i % 3 == j % 3 ==> image[i] == image[j]
}

/// In an image of one colour, a window sum along a row is the sample at the
/// centre times the total of the weights used.
pub proof fn lemma_row_window_sum_uniform(
    height: int,
    width: int,
    middle: int,
    kernel: Seq<usize>,
    image: Seq<u8>,
    row: int,
    col: int,
    channel: int,
    taps: int,
)
    requires
        image.len() == frame_len(height, width),
        in_frame(height, width, row, col, channel),
        is_uniform(image),
        middle + col < width,
        taps <= middle + col + 1,
    ensures
        row_window_sum(image, width, kernel, middle, row, col, channel, taps) == image[sample_index(
            width,
            row,
            col,
            channel,
        )] * weight_total(kernel, taps),
    decreases taps,
{
    if taps > 0 {
        lemma_row_window_sum_uniform(
            height,
            width,
            middle,
            kernel,
            image,
            row,
            col,
            channel,
            taps - 1,
        );
        lemma_sample_index_bounds(height, width, row, col, channel);
        lemma_sample_index_bounds(height, width, row, middle + col - (taps - 1), channel);
        let centre = image[sample_index(width, row, col, channel)];
        let met = image[sample_index(width, row, middle + col - (taps - 1), channel)];
        assert(met == centre);
        let fewer = weight_total(kernel, taps - 1);
        let weight = kernel[taps - 1];
        assert(centre * fewer + centre * weight == centre * (fewer + weight))
            by (nonlinear_arith);
    }
}

/// A pass along the rows with weights that add up to 256 leaves an image of
/// one colour as it is.
pub proof fn lemma_horz_blurred_uniform(
    height: int,
    width: int,
    middle: int,
    kernel: Seq<usize>,
    image: Seq<u8>,
)
    requires
        0 <= height,
        0 <= width,
        image.len() == frame_len(height, width),
        is_uniform(image),
        kernel.len() == 2 * middle + 1,
        weight_total(kernel, kernel.len() as int) == 256,
    ensures
        horz_blurred(width, middle, kernel, image) == image,
{
    let blurred = horz_blurred(width, middle, kernel, image);
    assert forall|k: int| 0 <= k < image.len() implies blurred[k] == image[k] by {
        lemma_sample_index_join(height, width, k);
        let row = row_of(width, k);
        let col = col_of(width, k);
        let channel = channel_of(k);
        if is_blended(width, middle, col) {
            lemma_row_window_sum_uniform(
                height,
                width,
                middle,
                kernel,
                image,
                row,
                col,
                channel,
                kernel.len() as int,
            );
        }
    }
    assert(blurred =~= image);
}

/// Where the blurred image has been written out as far as the first sample
/// of a copied pixel, the pixel's three samples of the input continue it.
proof fn lemma_copied_pixel(
    height: int,
    width: int,
    middle: int,
    kernel: Seq<usize>,
    image: Seq<u8>,
    row: int,
    col: int,
)
    requires
        image.len() == frame_len(height, width),
        0 <= row < height,
        0 <= col < width,
        !is_blended(width, middle, col),
    ensures
        ({
            let at = sample_index(width, row, col, 0);
            let blurred = horz_blurred(width, middle, kernel, image);
            &&& 0 <= at
            &&& at + 3 <= image.len()
            &&& blurred.take(at).push(image[at]).push(image[at + 1]).push(image[at + 2])
                == blurred.take(at + 3)
        }),
{
    let at = sample_index(width, row, col, 0);
    let blurred = horz_blurred(width, middle, kernel, image);
    lemma_horz_blurred_sample(height, width, middle, kernel, image, row, col, 0);
    lemma_horz_blurred_sample(height, width, middle, kernel, image, row, col, 1);
    lemma_horz_blurred_sample(height, width, middle, kernel, image, row, col, 2);
    assert(blurred.take(at).push(image[at]).push(image[at + 1]).push(image[at + 2])
        =~= blurred.take(at + 3));
}

/// Where the blurred image has been written out as far as the first sample
/// of a recomputed pixel, the three scaled window sums continue it.
proof fn lemma_blended_pixel(
    height: int,
    width: int,
    middle: int,
    kernel: Seq<usize>,
    image: Seq<u8>,
    row: int,
    col: int,
)
    requires
        image.len() == frame_len(height, width),
        0 <= row < height,
        0 <= col < width,
        is_blended(width, middle, col),
    ensures
        ({
            let at = sample_index(width, row, col, 0);
            let blurred = horz_blurred(width, middle, kernel, image);
            let taps = kernel.len() as int;
            &&& 0 <= at
            &&& at + 3 <= image.len()
            &&& blurred.take(at).push(
                scaled_down(row_window_sum(image, width, kernel, middle, row, col, 0, taps)),
            ).push(
                scaled_down(row_window_sum(image, width, kernel, middle, row, col, 1, taps)),
            ).push(scaled_down(row_window_sum(image, width, kernel, middle, row, col, 2, taps)))
                == blurred.take(at + 3)
        }),
{
    let at = sample_index(width, row, col, 0);
    let blurred = horz_blurred(width, middle, kernel, image);
    let taps = kernel.len() as int;
    lemma_horz_blurred_sample(height, width, middle, kernel, image, row, col, 0);
    lemma_horz_blurred_sample(height, width, middle, kernel, image, row, col, 1);
    lemma_horz_blurred_sample(height, width, middle, kernel, image, row, col, 2);
    assert(blurred.take(at).push(
        scaled_down(row_window_sum(image, width, kernel, middle, row, col, 0, taps)),
    ).push(scaled_down(row_window_sum(image, width, kernel, middle, row, col, 1, taps))).push(
        scaled_down(row_window_sum(image, width, kernel, middle, row, col, 2, taps)),
    ) =~= blurred.take(at + 3));
}

/// Appends the three samples of a pixel.
fn push_pixel(samples: &mut Vec<u8>, pixel: (u8, u8, u8))
    ensures
        final(samples)@ == old(samples)@.push(pixel.0).push(pixel.1).push(pixel.2),
{
    samples.push(pixel.0);
    samples.push(pixel.1);
    samples.push(pixel.2);
}

/// Weighs the window centred on column `x` of row `y` with the kernel and
/// scales the three channel sums down to samples.
fn blend_pixel<const N: usize>(
    width: usize,
    middle: usize,
    kernel: &[usize; N],
    raw: &[u8],
    y: usize,
    x: usize,
) -> (pixel: (u8, u8, u8))
    requires
        N % 2 == 1,
        middle == N / 2,
        is_blended(width as int, middle as int, x as int),
        (y * width + width) * 3 <= raw.len(),
        255 * weight_total(kernel@, N as int) <= usize::MAX,
    ensures
        pixel.0 == scaled_down(
            row_window_sum(raw@, width as int, kernel@, middle as int, y as int, x as int, 0, N as int),
        ),
        pixel.1 == scaled_down(
            row_window_sum(raw@, width as int, kernel@, middle as int, y as int, x as int, 1, N as int),
        ),
        pixel.2 == scaled_down(
            row_window_sum(raw@, width as int, kernel@, middle as int, y as int, x as int, 2, N as int),
        ),
{
    let ghost w: int = width as int;
    let ghost m: int = middle as int;
    let ghost row: int = y as int;
    let ghost col: int = x as int;
    assert(0 <= y * width) by (nonlinear_arith);
    let row_start: usize = y * width;
    let mut adding_red: usize = 0;
    let mut adding_green: usize = 0;
    let mut adding_blue: usize = 0;
    let mut index: usize = 0;
    while index < N
        invariant
            index <= N,
            N % 2 == 1,
            m == N / 2,
            m == middle,
            w == width,
            row == y,
            col == x,
            is_blended(w, m, col),
            row_start == row * w,
            (row_start + w) * 3 <= raw.len(),
            255 * weight_total(kernel@, N as int) <= usize::MAX,
            adding_red == row_window_sum(raw@, w, kernel@, m, row, col, 0, index as int),
            adding_green == row_window_sum(raw@, w, kernel@, m, row, col, 1, index as int),
            adding_blue == row_window_sum(raw@, w, kernel@, m, row, col, 2, index as int),
        decreases N - index,
    {
        let offset: usize = (row_start + (middle + x - index)) * 3;
        let z: usize = kernel[index];
        let red: usize = raw[offset] as usize;
        let green: usize = raw[offset + 1] as usize;
        let blue: usize = raw[offset + 2] as usize;
        proof {
            lemma_weight_total_grows(kernel@, index + 1, N as int);
            lemma_row_window_sum_bounds(raw@, w, kernel@, m, row, col, 0, index + 1);
            lemma_row_window_sum_bounds(raw@, w, kernel@, m, row, col, 1, index + 1);
            lemma_row_window_sum_bounds(raw@, w, kernel@, m, row, col, 2, index + 1);
            lemma_row_window_sum_bounds(raw@, w, kernel@, m, row, col, 0, index as int);
            lemma_row_window_sum_bounds(raw@, w, kernel@, m, row, col, 1, index as int);
            lemma_row_window_sum_bounds(raw@, w, kernel@, m, row, col, 2, index as int);
            assert(offset == sample_index(w, row, m + col - index, 0));
            assert(red * z >= 0 && green * z >= 0 && blue * z >= 0) by (nonlinear_arith)
                requires
                    red >= 0,
                    green >= 0,
                    blue >= 0,
                    z >= 0,
            ;
        }
        adding_red += red * z;
        adding_green += green * z;
        adding_blue += blue * z;
        index += 1;
    }
    adding_red /= 256;
    adding_green /= 256;
    adding_blue /= 256;
    ((adding_red % 256) as u8, (adding_green % 256) as u8, (adding_blue % 256) as u8)
}

/// Blurs image consisting of RGB samples, horizontally.
///
/// Every sample in the columns from `middle` up to, but not including,
/// `width - middle - 1` becomes the weighted sum of the samples of its
/// channel in the `N` columns around it, divided by 256 and reduced to eight
/// bits. The samples of the other columns are copied. The weights must not
/// be so large that a window sum could exceed `usize::MAX`.
///
/// Weights that add up to 256 keep the brightness of the image, for instance
/// `[1, 14, 62, 102, 62, 14, 1]`.
pub fn horz_gauss_blur<const N: usize>(
    height: usize,
    width: usize,
    middle: usize,
    kernel: [usize; N],
    raw: &[u8],
) -> (horz_vec: Vec<u8>)
    requires
        N % 2 == 1,
        middle == N / 2,
        width >= N,
        raw@.len() == frame_len(height as int, width as int),
        255 * weight_total(kernel@, N as int) <= usize::MAX,
    ensures
        horz_vec@ == horz_blurred(width as int, middle as int, kernel@, raw@),
        horz_vec@.len() == raw@.len(),
        forall|row: int, col: int, channel: int|
            in_frame(height as int, width as int, row, col, channel) && !is_blended(
                width as int,
                middle as int,
                col,
            ) ==> horz_vec@[#[trigger] sample_index(width as int, row, col, channel)]
                == raw@[sample_index(width as int, row, col, channel)],
        forall|row: int, col: int, channel: int|
            in_frame(height as int, width as int, row, col, channel) && is_blended(
                width as int,
                middle as int,
                col,
            ) ==> horz_vec@[#[trigger] sample_index(width as int, row, col, channel)]
                == scaled_down(
                row_window_sum(raw@, width as int, kernel@, middle as int, row, col, channel, N as int),
            ),
        is_uniform(raw@) && weight_total(kernel@, N as int) == 256 ==> horz_vec@ == raw@,
{
    let ghost h: int = height as int;
    let ghost w: int = width as int;
    let ghost m: int = middle as int;
    let ghost blurred: Seq<u8> = horz_blurred(w, m, kernel@, raw@);
    let mut horz_vec: Vec<u8> = Vec::with_capacity(raw.len());
    let mut y: usize = 0;
    while y < height
        invariant
            y <= height,
            h == height,
            w == width,
            m == middle,
            N % 2 == 1,
            m == N / 2,
            w >= N,
            raw.len() == frame_len(h, w),
            255 * weight_total(kernel@, N as int) <= usize::MAX,
            blurred == horz_blurred(w, m, kernel@, raw@),
            horz_vec@.len() == sample_index(w, y as int, 0, 0),
            horz_vec@ == blurred.take(horz_vec@.len() as int),
        decreases height - y,
    {
        proof {
            lemma_sample_index_bounds(h, w, y as int, 0, 0);
        }
        let row_start: usize = y * width;
        let mut x: usize = 0;
        while x < middle
            invariant
                x <= middle,
                y < height,
                h == height,
                w == width,
                m == middle,
                N % 2 == 1,
                m == N / 2,
                w >= N,
                row_start == y * w,
                (row_start + w) * 3 <= raw.len(),
                raw.len() == frame_len(h, w),
                255 * weight_total(kernel@, N as int) <= usize::MAX,
                blurred == horz_blurred(w, m, kernel@, raw@),
                horz_vec@.len() == sample_index(w, y as int, x as int, 0),
                horz_vec@ == blurred.take(horz_vec@.len() as int),
            decreases middle - x,
        {
            proof {
                lemma_copied_pixel(h, w, m, kernel@, raw@, y as int, x as int);
            }
            let offset: usize = (row_start + x) * 3;
            push_pixel(&mut horz_vec, (raw[offset], raw[offset + 1], raw[offset + 2]));
            x += 1;
        }
        while x < width - middle - 1
            invariant
                middle <= x <= width - middle - 1,
                y < height,
                h == height,
                w == width,
                m == middle,
                N % 2 == 1,
                m == N / 2,
                w >= N,
                row_start == y * w,
                (row_start + w) * 3 <= raw.len(),
                raw.len() == frame_len(h, w),
                255 * weight_total(kernel@, N as int) <= usize::MAX,
                blurred == horz_blurred(w, m, kernel@, raw@),
                horz_vec@.len() == sample_index(w, y as int, x as int, 0),
                horz_vec@ == blurred.take(horz_vec@.len() as int),
            decreases width - x,
        {
            proof {
                lemma_blended_pixel(h, w, m, kernel@, raw@, y as int, x as int);
            }
            let pixel: (u8, u8, u8) = blend_pixel(width, middle, &kernel, raw, y, x);
            push_pixel(&mut horz_vec, pixel);
            x += 1;
        }
        while x < width
            invariant
                width - middle - 1 <= x <= width,
                y < height,
                h == height,
                w == width,
                m == middle,
                N % 2 == 1,
                m == N / 2,
                w >= N,
                row_start == y * w,
                (row_start + w) * 3 <= raw.len(),
                raw.len() == frame_len(h, w),
                255 * weight_total(kernel@, N as int) <= usize::MAX,
                blurred == horz_blurred(w, m, kernel@, raw@),
                horz_vec@.len() == sample_index(w, y as int, x as int, 0),
                horz_vec@ == blurred.take(horz_vec@.len() as int),
            decreases width - x,
        {
            proof {
                lemma_copied_pixel(h, w, m, kernel@, raw@, y as int, x as int);
            }
            let offset: usize = (row_start + x) * 3;
            push_pixel(&mut horz_vec, (raw[offset], raw[offset + 1], raw[offset + 2]));
            x += 1;
        }
        assert((y + 1) * w == y * w + w) by (nonlinear_arith);
        y += 1;
    }
    proof {
        lemma_sample_index_bounds(h + 1, w, h, 0, 0);
        assert(horz_vec@.len() == raw@.len()) by (nonlinear_arith)
            requires
                horz_vec@.len() == (h * w + 0) * 3 + 0,
                raw@.len() == h * w * 3,
        ;
        assert(horz_vec@ =~= blurred);
        assert forall|row: int, col: int, channel: int|
            in_frame(h, w, row, col, channel) implies horz_vec@[#[trigger] sample_index(
            w,
            row,
            col,
            channel,
        )] == horz_blurred_sample(raw@, w, kernel@, m, row, col, channel) by {
            lemma_horz_blurred_sample(h, w, m, kernel@, raw@, row, col, channel);
        }
        if is_uniform(raw@) && weight_total(kernel@, N as int) == 256 {
            lemma_horz_blurred_uniform(h, w, m, kernel@, raw@);
        }
    }
    horz_vec
}

} // verus!
