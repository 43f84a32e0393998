//! Blur along both axes with one kernel.
//!
//! The pass along the rows does all the weighing. To blur along the columns
//! the image is turned clockwise by a quarter, the pass along the rows is
//! applied to the turned image, and the result is turned back. Seen from the
//! image that was not turned, this is a pass along the columns in which
//! weight `i` meets the sample `middle - i` rows above, and in which the first
//! `middle + 1` rows and the last `middle` rows are copied.

use vstd::prelude::*;
use crate::convolve::{
    horz_blurred, horz_gauss_blur, is_uniform, lemma_horz_blurred_sample,
    lemma_horz_blurred_uniform, row_window_sum, scaled_down, weight_total,
};
use crate::layout::{
    channel_of, col_of, frame_len, in_frame, lemma_frame_len_swap, lemma_sample_index_bounds,
    lemma_sample_index_join, row_of, sample_index,
};
use crate::rotate::{
    lemma_rotated_clockwise_sample, lemma_rotated_counterclockwise_sample, rotate_90_clockwise,
    rotate_90_counterclockwise, rotated_clockwise, rotated_counterclockwise,
};

verus! {

/// Sum over the first `taps` weights of a kernel, each multiplied by the
/// sample it meets when the window is centred on row `row` of column `col`:
/// weight `i` meets the sample in row `row - middle + i`.
pub open spec fn col_window_sum(
    image: Seq<u8>,
    width: int,
    kernel: Seq<usize>,
    middle: int,
    row: int,
    col: int,
    channel: int,
    taps: int,
) -> int
    decreases taps,
{
    if taps <= 0 {
        0
    } else {
        col_window_sum(image, width, kernel, middle, row, col, channel, taps - 1) + image[sample_index(
            width,
            row - middle + (taps - 1),
            col,
            channel,
        )] * kernel[taps - 1]
    }
}

/// Rows whose samples are recomputed by the pass along the columns; the
/// others are copied.
pub open spec fn is_blended_row(height: int, middle: int, row: int) -> bool {
    middle + 1 <= row < height - middle
}

/// One sample of the image after the pass along the columns.
pub open spec fn vert_blurred_sample(
    image: Seq<u8>,
    height: int,
    width: int,
    kernel: Seq<usize>,
    middle: int,
    row: int,
    col: int,
    channel: int,
) -> u8 {
    if is_blended_row(height, middle, row) {
        scaled_down(
            col_window_sum(image, width, kernel, middle, row, col, channel, kernel.len() as int),
        )
    } else {
        image[sample_index(width, row, col, channel)]
    }
}

/// The image after the pass along the columns.
pub open spec fn vert_blurred(
    height: int,
    width: int,
    middle: int,
    kernel: Seq<usize>,
    image: Seq<u8>,
) -> Seq<u8> {
    Seq::new(
        image.len(),
        |k: int|
            vert_blurred_sample(
                image,
                height,
                width,
                kernel,
                middle,
                row_of(width, k),
                col_of(width, k),
                channel_of(k),
            ),
    )
}

/// The image blurred along both axes: the pass along the rows, then the pass
/// along the columns, with the centre of the kernel as `middle`.
pub open spec fn blurred(height: int, width: int, kernel: Seq<usize>, image: Seq<u8>) -> Seq<u8> {
    let middle = kernel.len() as int / 2;
    vert_blurred(height, width, middle, kernel, horz_blurred(width, middle, kernel, image))
}

/// A window along a row of the image turned clockwise adds up the same
/// products as the window along the matching column of the image itself.
pub proof fn lemma_turned_window_sum(
    height: int,
    width: int,
    middle: int,
    kernel: Seq<usize>,
    image: Seq<u8>,
    row: int,
    col: int,
    channel: int,
    taps: int,
)
    requires
        image.len() == frame_len(height, width),
        in_frame(height, width, row, col, channel),
        is_blended_row(height, middle, row),
        0 <= middle,
        taps <= 2 * middle + 1,
    ensures
        row_window_sum(
            rotated_clockwise(height, width, image),
            height,
            kernel,
            middle,
            col,
            height - 1 - row,
            channel,
            taps,
        ) == col_window_sum(image, width, kernel, middle, row, col, channel, taps),
    decreases taps,
{
    if taps > 0 {
        lemma_turned_window_sum(height, width, middle, kernel, image, row, col, channel, taps - 1);
        lemma_rotated_clockwise_sample(
            height,
            width,
            image,
            col,
            middle + (height - 1 - row) - (taps - 1),
            channel,
        );
    }
}

/// Turning the image clockwise, blurring along the rows and turning the
/// result back is the pass along the columns.
pub proof fn lemma_blur_turned_is_vert_blurred(
    height: int,
    width: int,
    middle: int,
    kernel: Seq<usize>,
    image: Seq<u8>,
)
    requires
        0 <= height,
        0 <= width,
        image.len() == frame_len(height, width),
        0 <= middle,
        kernel.len() == 2 * middle + 1,
    ensures
        rotated_counterclockwise(
            width,
            height,
            horz_blurred(height, middle, kernel, rotated_clockwise(height, width, image)),
        ) == vert_blurred(height, width, middle, kernel, image),
{
    let turned = rotated_clockwise(height, width, image);
    let passed = horz_blurred(height, middle, kernel, turned);
    let back = rotated_counterclockwise(width, height, passed);
    let expected = vert_blurred(height, width, middle, kernel, image);
    lemma_frame_len_swap(height, width);
    assert forall|k: int| 0 <= k < image.len() implies back[k] == expected[k] by {
        lemma_sample_index_join(height, width, k);
        let row = row_of(width, k);
        let col = col_of(width, k);
        let channel = channel_of(k);
        lemma_rotated_counterclockwise_sample(width, height, passed, row, col, channel);
        lemma_horz_blurred_sample(
            width,
            height,
            middle,
            kernel,
            turned,
            col,
            height - 1 - row,
            channel,
        );
        if is_blended_row(height, middle, row) {
            lemma_turned_window_sum(
                height,
                width,
                middle,
                kernel,
                image,
                row,
                col,
                channel,
                kernel.len() as int,
            );
        } else {
            lemma_rotated_clockwise_sample(height, width, image, col, height - 1 - row, channel);
        }
    }
    assert(back =~= expected);
}

/// In an image of one colour, a window sum along a column is the sample at
/// the centre times the total of the weights used.
pub proof fn lemma_col_window_sum_uniform(
    height: int,
    width: int,
    middle: int,
    kernel: Seq<usize>,
    image: Seq<u8>,
    row: int,
    col: int,
    channel: int,
    taps: int,
)
    requires
        image.len() == frame_len(height, width),
        in_frame(height, width, row, col, channel),
        is_uniform(image),
        0 <= row - middle,
        taps <= height - row + middle,
    ensures
        col_window_sum(image, width, kernel, middle, row, col, channel, taps) == image[sample_index(
            width,
            row,
            col,
            channel,
        )] * weight_total(kernel, taps),
    decreases taps,
{
    if taps > 0 {
        lemma_col_window_sum_uniform(
            height,
            width,
            middle,
            kernel,
            image,
            row,
            col,
            channel,
            taps - 1,
        );
        lemma_sample_index_bounds(height, width, row, col, channel);
        lemma_sample_index_bounds(height, width, row - middle + (taps - 1), col, channel);
        let centre = image[sample_index(width, row, col, channel)];
        let met = image[sample_index(width, row - middle + (taps - 1), col, channel)];
        assert(met == centre);
        let fewer = weight_total(kernel, taps - 1);
        let weight = kernel[taps - 1];
        assert(centre * fewer + centre * weight == centre * (fewer + weight))
            by (nonlinear_arith);
    }
}

/// A pass along the columns with weights that add up to 256 leaves an image
/// of one colour as it is.
pub proof fn lemma_vert_blurred_uniform(
    height: int,
    width: int,
    middle: int,
    kernel: Seq<usize>,
    image: Seq<u8>,
)
    requires
        0 <= height,
        0 <= width,
        image.len() == frame_len(height, width),
        is_uniform(image),
        kernel.len() == 2 * middle + 1,
        weight_total(kernel, kernel.len() as int) == 256,
    ensures
        vert_blurred(height, width, middle, kernel, image) == image,
{
    let blurred = vert_blurred(height, width, middle, kernel, image);
    assert forall|k: int| 0 <= k < image.len() implies blurred[k] == image[k] by {
        lemma_sample_index_join(height, width, k);
        let row = row_of(width, k);
        let col = col_of(width, k);
        let channel = channel_of(k);
        if is_blended_row(height, middle, row) {
            lemma_col_window_sum_uniform(
                height,
                width,
                middle,
                kernel,
                image,
                row,
                col,
                channel,
                kernel.len() as int,
            );
        }
    }
    assert(blurred =~= image);
}

/// Blurring an image of one colour with a kernel of odd length whose weights
/// add up to 256 gives the image back.
pub proof fn lemma_blurred_uniform(height: int, width: int, kernel: Seq<usize>, image: Seq<u8>)
    requires
        0 <= height,
        0 <= width,
        image.len() == frame_len(height, width),
        is_uniform(image),
        kernel.len() % 2 == 1,
        weight_total(kernel, kernel.len() as int) == 256,
    ensures
        blurred(height, width, kernel, image) == image,
{
    let middle = kernel.len() as int / 2;
    lemma_horz_blurred_uniform(height, width, middle, kernel, image);
    lemma_vert_blurred_uniform(height, width, middle, kernel, image);
}

/// Blurs image consisting of RGB samples.
///
/// The image is blurred along its rows and then along its columns with the
/// same kernel. The result has the dimensions of the input, which are
/// returned with it as width and height. Both sides of the image must be at
/// least as long as the kernel, and the weights must not be so large that a
/// window sum could exceed `usize::MAX`.
///
/// Weights that add up to 256 keep the brightness of the image, for instance
/// `[1, 14, 62, 102, 62, 14, 1]`.
pub fn blur<const N: usize>(height: usize, width: usize, kernel: [usize; N], raw: Vec<u8>) -> (result:
    (Vec<u8>, usize, usize))
    requires
        N % 2 == 1,
        width >= N,
        height >= N,
        raw@.len() == frame_len(height as int, width as int),
        255 * weight_total(kernel@, N as int) <= usize::MAX,
    ensures
        result.0@ == blurred(height as int, width as int, kernel@, raw@),
        result.0@ == rotated_counterclockwise(
            width as int,
            height as int,
            horz_blurred(
                height as int,
                N as int / 2,
                kernel@,
                rotated_clockwise(
                    height as int,
                    width as int,
                    horz_blurred(width as int, N as int / 2, kernel@, raw@),
                ),
            ),
        ),
        result.0@.len() == raw@.len(),
        result.1 == width,
        result.2 == height,
        is_uniform(raw@) && weight_total(kernel@, N as int) == 256 ==> result.0@ == raw@,
{
    let middle: usize = N / 2;
    proof {
        if is_uniform(raw@) && weight_total(kernel@, N as int) == 256 {
            lemma_blurred_uniform(height as int, width as int, kernel@, raw@);
        }
        lemma_frame_len_swap(height as int, width as int);
        lemma_blur_turned_is_vert_blurred(
            height as int,
            width as int,
            middle as int,
            kernel@,
            horz_blurred(width as int, middle as int, kernel@, raw@),
        );
    }
    let raw: Vec<u8> = horz_gauss_blur(height, width, middle, kernel, raw.as_slice());
    let raw: Vec<u8> = rotate_90_clockwise(height, width, raw);
    let turned_width: usize = height;
    let turned_height: usize = width;
    let raw: Vec<u8> = horz_gauss_blur(turned_height, turned_width, middle, kernel, raw.as_slice());
    let raw: Vec<u8> = rotate_90_counterclockwise(turned_height, turned_width, raw);
    (raw, turned_height, turned_width)
}

} // verus!
