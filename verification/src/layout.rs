//! Addressing of samples in a row-major, channel-interleaved image.
//!
//! An image of `height` rows and `width` columns is a flat sequence of
//! `height * width * 3` samples. The sample of channel `channel` of the pixel
//! in row `row` and column `col` sits at `(row * width + col) * 3 + channel`.

use vstd::prelude::*;
use vstd::arithmetic::div_mod::{
    lemma_fundamental_div_mod, lemma_fundamental_div_mod_converse, lemma_mod_bound,
};

verus! {

/// Number of samples of an image with the given dimensions.
pub open spec fn frame_len(height: int, width: int) -> int {
    height * width * 3
}

/// Flat position of one sample.
pub open spec fn sample_index(width: int, row: int, col: int, channel: int) -> int {
    (row * width + col) * 3 + channel
}

/// The coordinates name a sample of an image with the given dimensions.
pub open spec fn in_frame(height: int, width: int, row: int, col: int, channel: int) -> bool {
    &&& 0 <= row < height
    &&& 0 <= col < width
    &&& 0 <= channel < 3
}

/// Row of the sample at a flat position.
pub open spec fn row_of(width: int, index: int) -> int {
    (index / 3) / width
}

/// Column of the sample at a flat position.
pub open spec fn col_of(width: int, index: int) -> int {
    (index / 3) % width
}

/// Channel of the sample at a flat position.
pub open spec fn channel_of(index: int) -> int {
    index % 3
}

/// The number of samples does not depend on which side is called the height.
pub proof fn lemma_frame_len_swap(height: int, width: int)
    ensures
        frame_len(height, width) == frame_len(width, height),
{
    assert(height * width == width * height) by (nonlinear_arith);
}

/// A sample inside the frame has a flat position inside the buffer, and so
/// has every sample of its row.
pub proof fn lemma_sample_index_bounds(height: int, width: int, row: int, col: int, channel: int)
    requires
        in_frame(height, width, row, col, channel),
    ensures
        0 <= row * width <= row * width + col < row * width + width <= height * width,
        0 <= sample_index(width, row, col, channel) < frame_len(height, width),
{
    assert(0 <= row * width && row * width + width <= height * width) by (nonlinear_arith)
        requires
            0 <= row < height,
            0 <= width,
    ;
}

/// Coordinates can be read back from the flat position they give.
pub proof fn lemma_sample_index_split(width: int, row: int, col: int, channel: int)
    requires
        0 <= col < width,
        0 <= channel < 3,
    ensures
        row_of(width, sample_index(width, row, col, channel)) == row,
        col_of(width, sample_index(width, row, col, channel)) == col,
        channel_of(sample_index(width, row, col, channel)) == channel,
{
    let pixel = row * width + col;
    assert(sample_index(width, row, col, channel) / 3 == pixel);
    lemma_fundamental_div_mod_converse(pixel, width, row, col);
}

/// Every flat position inside the buffer is the position of exactly the
/// sample whose coordinates are read from it.
pub proof fn lemma_sample_index_join(height: int, width: int, index: int)
    requires
        0 <= height,
        0 <= width,
        0 <= index < frame_len(height, width),
    ensures
        in_frame(height, width, row_of(width, index), col_of(width, index), channel_of(index)),
        sample_index(width, row_of(width, index), col_of(width, index), channel_of(index))
            == index,
{
    let pixel = index / 3;
    let pixels = height * width;
    assert(0 <= pixel < pixels);
    assert(width > 0) by (nonlinear_arith)
        requires
            0 <= width,
            0 < height * width,
    ;
    lemma_fundamental_div_mod(pixel, width);
    lemma_mod_bound(pixel, width);
    let row = pixel / width;
    let col = pixel % width;
    assert(0 <= row < height) by (nonlinear_arith)
        requires
            pixel == width * row + col,
            0 <= col < width,
            0 <= pixel < height * width,
            0 <= height,
    ;
    assert(row * width == width * row) by (nonlinear_arith);
}

} // verus!
