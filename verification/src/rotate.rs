//! Quarter turns of an image.

use vstd::prelude::*;
use crate::layout::{
    channel_of, col_of, frame_len, in_frame, lemma_frame_len_swap, lemma_sample_index_bounds,
    lemma_sample_index_join, lemma_sample_index_split, row_of, sample_index,
};

verus! {

/// Where a clockwise quarter turn puts a sample, as a flat position in the
/// turned image. The turned image has `height` columns: the sample moves to
/// row `col` and column `height - 1 - row`.
pub open spec fn clockwise_target(height: int, row: int, col: int, channel: int) -> int {
    sample_index(height, col, height - 1 - row, channel)
}

/// Where a counterclockwise quarter turn puts a sample, as a flat position in
/// the turned image. The turned image has `height` columns: the sample moves
/// to row `width - 1 - col` and column `row`.
pub open spec fn counterclockwise_target(
    height: int,
    width: int,
    row: int,
    col: int,
    channel: int,
) -> int {
    sample_index(height, width - 1 - col, row, channel)
}

/// The image turned clockwise by a quarter: `width` rows of `height` columns.
pub open spec fn rotated_clockwise(height: int, width: int, image: Seq<u8>) -> Seq<u8> {
    Seq::new(
        image.len(),
        |k: int|
            image[sample_index(
                width,
                height - 1 - col_of(height, k),
                row_of(height, k),
                channel_of(k),
            )],
    )
}

/// The image turned counterclockwise by a quarter: `width` rows of `height`
/// columns.
pub open spec fn rotated_counterclockwise(height: int, width: int, image: Seq<u8>) -> Seq<u8> {
    Seq::new(
        image.len(),
        |k: int|
            image[sample_index(
                width,
                col_of(height, k),
                width - 1 - row_of(height, k),
                channel_of(k),
            )],
    )
}

/// The sample found at row `row` and column `col` of the image turned
/// clockwise is the one at row `height - 1 - col` and column `row` of the
/// image it was turned from.
pub proof fn lemma_rotated_clockwise_sample(
    height: int,
    width: int,
    image: Seq<u8>,
    row: int,
    col: int,
    channel: int,
)
    requires
        image.len() == frame_len(height, width),
        in_frame(width, height, row, col, channel),
    ensures
        0 <= sample_index(height, row, col, channel) < image.len(),
        0 <= sample_index(width, height - 1 - col, row, channel) < image.len(),
        rotated_clockwise(height, width, image)[sample_index(height, row, col, channel)]
            == image[sample_index(width, height - 1 - col, row, channel)],
{
    lemma_frame_len_swap(height, width);
    lemma_sample_index_bounds(width, height, row, col, channel);
    lemma_sample_index_bounds(height, width, height - 1 - col, row, channel);
    lemma_sample_index_split(height, row, col, channel);
}

/// The sample found at row `row` and column `col` of the image turned
/// counterclockwise is the one at row `col` and column `width - 1 - row` of
/// the image it was turned from.
pub proof fn lemma_rotated_counterclockwise_sample(
    height: int,
    width: int,
    image: Seq<u8>,
    row: int,
    col: int,
    channel: int,
)
    requires
        image.len() == frame_len(height, width),
        in_frame(width, height, row, col, channel),
    ensures
        0 <= sample_index(height, row, col, channel) < image.len(),
        0 <= sample_index(width, col, width - 1 - row, channel) < image.len(),
        rotated_counterclockwise(height, width, image)[sample_index(height, row, col, channel)]
            == image[sample_index(width, col, width - 1 - row, channel)],
{
    lemma_frame_len_swap(height, width);
    lemma_sample_index_bounds(width, height, row, col, channel);
    lemma_sample_index_bounds(height, width, col, width - 1 - row, channel);
    lemma_sample_index_split(height, row, col, channel);
}

/// Turning an image clockwise and then counterclockwise gives the image
/// back. The second turn is given the dimensions of the turned image.
pub proof fn lemma_clockwise_then_counterclockwise(height: int, width: int, image: Seq<u8>)
    requires
        0 <= height,
        0 <= width,
        image.len() == frame_len(height, width),
    ensures
        rotated_counterclockwise(width, height, rotated_clockwise(height, width, image)) == image,
{
    let turned = rotated_clockwise(height, width, image);
    let back = rotated_counterclockwise(width, height, turned);
    lemma_frame_len_swap(height, width);
    assert forall|k: int| 0 <= k < image.len() implies back[k] == image[k] by {
        lemma_sample_index_join(height, width, k);
        let row = row_of(width, k);
        let col = col_of(width, k);
        let channel = channel_of(k);
        lemma_rotated_counterclockwise_sample(width, height, turned, row, col, channel);
        lemma_rotated_clockwise_sample(height, width, image, col, height - 1 - row, channel);
    }
    assert(back =~= image);
}

/// Turning an image counterclockwise and then clockwise gives the image
/// back. The second turn is given the dimensions of the turned image.
pub proof fn lemma_counterclockwise_then_clockwise(height: int, width: int, image: Seq<u8>)
    requires
        0 <= height,
        0 <= width,
        image.len() == frame_len(height, width),
    ensures
        rotated_clockwise(width, height, rotated_counterclockwise(height, width, image)) == image,
{
    let turned = rotated_counterclockwise(height, width, image);
    let back = rotated_clockwise(width, height, turned);
    lemma_frame_len_swap(height, width);
    assert forall|k: int| 0 <= k < image.len() implies back[k] == image[k] by {
        lemma_sample_index_join(height, width, k);
        let row = row_of(width, k);
        let col = col_of(width, k);
        let channel = channel_of(k);
        lemma_rotated_clockwise_sample(width, height, turned, row, col, channel);
        lemma_rotated_counterclockwise_sample(height, width, image, width - 1 - col, row, channel);
    }
    assert(back =~= image);
}

/// In row-major order, the sample at (`row`, `col`, `channel`) comes before
/// the one at (`y`, `x`, `z`).
spec fn comes_before(row: int, col: int, channel: int, y: int, x: int, z: int) -> bool {
    row < y || (row == y && (col < x || (col == x && channel < z)))
}

/// Two samples that a clockwise turn sends to the same place are the same
/// sample.
pub proof fn lemma_clockwise_target_distinct(
    height: int,
    row: int,
    col: int,
    channel: int,
    y: int,
    x: int,
    z: int,
)
    requires
        0 <= row < height,
        0 <= y < height,
        0 <= channel < 3,
        0 <= z < 3,
        clockwise_target(height, row, col, channel) == clockwise_target(height, y, x, z),
    ensures
        row == y,
        col == x,
        channel == z,
{
    lemma_sample_index_split(height, col, height - 1 - row, channel);
    lemma_sample_index_split(height, x, height - 1 - y, z);
}

/// Rotates image 90 degrees clockwise.
///
/// The result has `width` rows of `height` columns. The sample at row `row`
/// and column `col` of the input is found at row `col` and column
/// `height - 1 - row` of the result.
pub fn rotate_90_clockwise(height: usize, width: usize, vector: Vec<u8>) -> (output_image: Vec<u8>)
    requires
        vector@.len() == frame_len(height as int, width as int),
    ensures
        output_image@ == rotated_clockwise(height as int, width as int, vector@),
        output_image@.len() == vector@.len(),
        forall|row: int, col: int, channel: int|
            in_frame(height as int, width as int, row, col, channel) ==> output_image@[#[trigger] clockwise_target(
                height as int,
                row,
                col,
                channel,
            )] == vector@[sample_index(width as int, row, col, channel)],
{
    let new_width: usize = height;
    let mut output_image: Vec<u8> = vec![0u8; vector.len()];
    let ghost h: int = height as int;
    let ghost w: int = width as int;
    proof {
        lemma_frame_len_swap(h, w);
    }
    let mut y: usize = 0;
    while y < height
        invariant
            y <= height,
            h == height,
            w == width,
            new_width == height,
            vector.len() == frame_len(h, w),
            output_image.len() == vector.len(),
            forall|row: int, col: int, channel: int|
                in_frame(h, w, row, col, channel) && comes_before(row, col, channel, y as int, 0, 0)
                    ==> output_image@[#[trigger] clockwise_target(h, row, col, channel)]
                    == vector@[sample_index(w, row, col, channel)],
        decreases height - y,
    {
        let mut x: usize = 0;
        while x < width
            invariant
                y < height,
                x <= width,
                h == height,
                w == width,
                new_width == height,
                vector.len() == frame_len(h, w),
                output_image.len() == vector.len(),
                forall|row: int, col: int, channel: int|
                    in_frame(h, w, row, col, channel) && comes_before(
                        row,
                        col,
                        channel,
                        y as int,
                        x as int,
                        0,
                    ) ==> output_image@[#[trigger] clockwise_target(h, row, col, channel)]
                        == vector@[sample_index(w, row, col, channel)],
            decreases width - x,
        {
            proof {
                lemma_sample_index_bounds(h, w, y as int, x as int, 0);
                lemma_sample_index_bounds(w, h, x as int, h - 1 - y, 0);
                lemma_frame_len_swap(h, w);
            }
            let new_x: usize = new_width - 1 - y;
            let new_y: usize = x;
            let input_pixel: usize = y * width + x;
            let output_pixel: usize = new_y * new_width + new_x;
            let mut z: usize = 0;
            while z < 3
                invariant
                    y < height,
                    x < width,
                    z <= 3,
                    h == height,
                    w == width,
                    vector.len() == frame_len(h, w),
                    output_image.len() == vector.len(),
                    input_pixel * 3 == sample_index(w, y as int, x as int, 0),
                    output_pixel * 3 == clockwise_target(h, y as int, x as int, 0),
                    input_pixel * 3 + 2 < vector.len(),
                    output_pixel * 3 + 2 < vector.len(),
                    forall|row: int, col: int, channel: int|
                        in_frame(h, w, row, col, channel) && comes_before(
                            row,
                            col,
                            channel,
                            y as int,
                            x as int,
                            z as int,
                        ) ==> output_image@[#[trigger] clockwise_target(h, row, col, channel)]
                            == vector@[sample_index(w, row, col, channel)],
                decreases 3 - z,
            {
                output_image[output_pixel * 3 + z] = vector[input_pixel * 3 + z];
                proof {
                    assert forall|row: int, col: int, channel: int|
                        in_frame(h, w, row, col, channel) && comes_before(
                            row,
                            col,
                            channel,
                            y as int,
                            x as int,
                            z + 1,
                        ) implies output_image@[#[trigger] clockwise_target(h, row, col, channel)]
                        == vector@[sample_index(w, row, col, channel)] by {
                        lemma_sample_index_bounds(w, h, col, h - 1 - row, channel);
                        if clockwise_target(h, row, col, channel) == clockwise_target(
                            h,
                            y as int,
                            x as int,
                            z as int,
                        ) {
                            lemma_clockwise_target_distinct(
                                h,
                                row,
                                col,
                                channel,
                                y as int,
                                x as int,
                                z as int,
                            );
                        }
                    }
                }
                z += 1;
            }
            x += 1;
        }
        y += 1;
    }
    proof {
        assert forall|k: int| 0 <= k < output_image@.len() implies output_image@[k]
            == rotated_clockwise(h, w, vector@)[k] by {
            lemma_sample_index_join(w, h, k);
            let row = h - 1 - col_of(h, k);
            let col = row_of(h, k);
            assert(clockwise_target(h, row, col, channel_of(k)) == k);
        }
        assert(output_image@ =~= rotated_clockwise(h, w, vector@));
    }
    output_image
}

/// Two samples that a counterclockwise turn sends to the same place are the
/// same sample.
pub proof fn lemma_counterclockwise_target_distinct(
    height: int,
    width: int,
    row: int,
    col: int,
    channel: int,
    y: int,
    x: int,
    z: int,
)
    requires
        0 <= row < height,
        0 <= y < height,
        0 <= channel < 3,
        0 <= z < 3,
        counterclockwise_target(height, width, row, col, channel) == counterclockwise_target(
            height,
            width,
            y,
            x,
            z,
        ),
    ensures
        row == y,
        col == x,
        channel == z,
{
    lemma_sample_index_split(height, width - 1 - col, row, channel);
    lemma_sample_index_split(height, width - 1 - x, y, z);
}

/// Rotates image 90 degrees counterclockwise.
///
/// The result has `width` rows of `height` columns. The sample at row `row`
/// and column `col` of the input is found at row `width - 1 - col` and column
/// `row` of the result.
pub fn rotate_90_counterclockwise(height: usize, width: usize, vector: Vec<u8>) -> (output_image:
    Vec<u8>)
    requires
        vector@.len() == frame_len(height as int, width as int),
    ensures
        output_image@ == rotated_counterclockwise(height as int, width as int, vector@),
        output_image@.len() == vector@.len(),
        forall|row: int, col: int, channel: int|
            in_frame(height as int, width as int, row, col, channel)
                ==> output_image@[#[trigger] counterclockwise_target(
                height as int,
                width as int,
                row,
                col,
                channel,
            )] == vector@[sample_index(width as int, row, col, channel)],
{
    let new_width: usize = height;
    let new_height: usize = width;
    let mut output_image: Vec<u8> = vec![0u8; vector.len()];
    let ghost h: int = height as int;
    let ghost w: int = width as int;
    proof {
        lemma_frame_len_swap(h, w);
    }
    let mut y: usize = 0;
    while y < height
        invariant
            y <= height,
            h == height,
            w == width,
            new_width == height,
            new_height == width,
            vector.len() == frame_len(h, w),
            output_image.len() == vector.len(),
            forall|row: int, col: int, channel: int|
                in_frame(h, w, row, col, channel) && comes_before(row, col, channel, y as int, 0, 0)
                    ==> output_image@[#[trigger] counterclockwise_target(h, w, row, col, channel)]
                    == vector@[sample_index(w, row, col, channel)],
        decreases height - y,
    {
        let mut x: usize = 0;
        while x < width
            invariant
                y < height,
                x <= width,
                h == height,
                w == width,
                new_width == height,
                new_height == width,
                vector.len() == frame_len(h, w),
                output_image.len() == vector.len(),
                forall|row: int, col: int, channel: int|
                    in_frame(h, w, row, col, channel) && comes_before(
                        row,
                        col,
                        channel,
                        y as int,
                        x as int,
                        0,
                    ) ==> output_image@[#[trigger] counterclockwise_target(
                        h,
                        w,
                        row,
                        col,
                        channel,
                    )] == vector@[sample_index(w, row, col, channel)],
            decreases width - x,
        {
            proof {
                lemma_sample_index_bounds(h, w, y as int, x as int, 0);
                lemma_sample_index_bounds(w, h, w - 1 - x, y as int, 0);
                lemma_frame_len_swap(h, w);
            }
            let new_x: usize = y;
            let new_y: usize = new_height - 1 - x;
            let input_pixel: usize = y * width + x;
            let output_pixel: usize = new_y * new_width + new_x;
            let mut z: usize = 0;
            while z < 3
                invariant
                    y < height,
                    x < width,
                    z <= 3,
                    h == height,
                    w == width,
                    vector.len() == frame_len(h, w),
                    output_image.len() == vector.len(),
                    input_pixel * 3 == sample_index(w, y as int, x as int, 0),
                    output_pixel * 3 == counterclockwise_target(h, w, y as int, x as int, 0),
                    input_pixel * 3 + 2 < vector.len(),
                    output_pixel * 3 + 2 < vector.len(),
                    forall|row: int, col: int, channel: int|
                        in_frame(h, w, row, col, channel) && comes_before(
                            row,
                            col,
                            channel,
                            y as int,
                            x as int,
                            z as int,
                        ) ==> output_image@[#[trigger] counterclockwise_target(
                            h,
                            w,
                            row,
                            col,
                            channel,
                        )] == vector@[sample_index(w, row, col, channel)],
                decreases 3 - z,
            {
                output_image[output_pixel * 3 + z] = vector[input_pixel * 3 + z];
                proof {
                    assert forall|row: int, col: int, channel: int|
                        in_frame(h, w, row, col, channel) && comes_before(
                            row,
                            col,
                            channel,
                            y as int,
                            x as int,
                            z + 1,
                        ) implies output_image@[#[trigger] counterclockwise_target(
                        h,
                        w,
                        row,
                        col,
                        channel,
                    )] == vector@[sample_index(w, row, col, channel)] by {
                        lemma_sample_index_bounds(w, h, w - 1 - col, row, channel);
                        if counterclockwise_target(h, w, row, col, channel)
                            == counterclockwise_target(h, w, y as int, x as int, z as int) {
                            lemma_counterclockwise_target_distinct(
                                h,
                                w,
                                row,
                                col,
                                channel,
                                y as int,
                                x as int,
                                z as int,
                            );
                        }
                    }
                }
                z += 1;
            }
            x += 1;
        }
        y += 1;
    }
    proof {
        assert forall|k: int| 0 <= k < output_image@.len() implies output_image@[k]
            == rotated_counterclockwise(h, w, vector@)[k] by {
            lemma_sample_index_join(w, h, k);
            let row = col_of(h, k);
            let col = w - 1 - row_of(h, k);
            assert(counterclockwise_target(h, w, row, col, channel_of(k)) == k);
        }
        assert(output_image@ =~= rotated_counterclockwise(h, w, vector@));
    }
    output_image
}

} // verus!
