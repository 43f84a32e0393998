use gaussian_blur::{rotate_90_clockwise, rotate_90_counterclockwise};

/// An image whose pixel number `p` holds the samples `10p`, `10p + 1`, `10p + 2`.
fn labelled(pixels: usize) -> Vec<u8> {
    let mut image = Vec::new();
    for p in 0..pixels {
        for c in 0..3 {
            image.push((10 * p + c) as u8);
        }
    }
    image
}

fn pixel(image: &[u8], index: usize) -> [u8; 3] {
    [image[index * 3], image[index * 3 + 1], image[index * 3 + 2]]
}

fn ramp(len: usize) -> Vec<u8> {
    (0..len).map(|i| ((i * 37 + 11) % 256) as u8).collect()
}

#[test]
fn clockwise_puts_the_first_pixel_in_row_0_column_1() {
    let turned = rotate_90_clockwise(2, 3, labelled(6));
    // The turned image is 3 rows of 2 columns.
    assert_eq!(pixel(&turned, 0 * 2 + 1), [0, 1, 2]);
}

#[test]
fn clockwise_places_every_pixel() {
    let turned = rotate_90_clockwise(2, 3, labelled(6));
    let order: Vec<[u8; 3]> = (0..6).map(|p| pixel(&turned, p)).collect();
    assert_eq!(
        order,
        vec![[30, 31, 32], [0, 1, 2], [40, 41, 42], [10, 11, 12], [50, 51, 52], [20, 21, 22]]
    );
}

#[test]
fn clockwise_on_consecutive_bytes() {
    let image: Vec<u8> = (0..18).collect();
    assert_eq!(
        rotate_90_clockwise(2, 3, image),
        vec![9, 10, 11, 0, 1, 2, 12, 13, 14, 3, 4, 5, 15, 16, 17, 6, 7, 8]
    );
}

#[test]
fn counterclockwise_places_every_pixel() {
    let turned = rotate_90_counterclockwise(2, 3, labelled(6));
    let order: Vec<[u8; 3]> = (0..6).map(|p| pixel(&turned, p)).collect();
    assert_eq!(
        order,
        vec![[20, 21, 22], [50, 51, 52], [10, 11, 12], [40, 41, 42], [0, 1, 2], [30, 31, 32]]
    );
}

#[test]
fn counterclockwise_on_consecutive_bytes() {
    let image: Vec<u8> = (0..18).collect();
    assert_eq!(
        rotate_90_counterclockwise(2, 3, image),
        vec![6, 7, 8, 15, 16, 17, 3, 4, 5, 12, 13, 14, 0, 1, 2, 9, 10, 11]
    );
}

#[test]
fn clockwise_follows_the_mapping_for_every_pixel() {
    let (height, width) = (4usize, 7usize);
    let image = ramp(height * width * 3);
    let turned = rotate_90_clockwise(height, width, image.clone());
    for y in 0..height {
        for x in 0..width {
            let (row, col) = (x, height - 1 - y);
            assert_eq!(pixel(&turned, row * height + col), pixel(&image, y * width + x));
        }
    }
}

#[test]
fn counterclockwise_follows_the_mapping_for_every_pixel() {
    let (height, width) = (4usize, 7usize);
    let image = ramp(height * width * 3);
    let turned = rotate_90_counterclockwise(height, width, image.clone());
    for y in 0..height {
        for x in 0..width {
            let (row, col) = (width - 1 - x, y);
            assert_eq!(pixel(&turned, row * height + col), pixel(&image, y * width + x));
        }
    }
}

#[test]
fn a_single_column_is_reversed_clockwise_and_kept_counterclockwise() {
    let image: Vec<u8> = (0..9).collect();
    assert_eq!(rotate_90_clockwise(3, 1, image.clone()), vec![6, 7, 8, 3, 4, 5, 0, 1, 2]);
    assert_eq!(rotate_90_counterclockwise(3, 1, image.clone()), image);
}

#[test]
fn a_single_row_is_kept_clockwise_and_reversed_counterclockwise() {
    let image: Vec<u8> = (0..9).collect();
    assert_eq!(rotate_90_clockwise(1, 3, image.clone()), image);
    assert_eq!(rotate_90_counterclockwise(1, 3, image), vec![6, 7, 8, 3, 4, 5, 0, 1, 2]);
}

#[test]
fn counterclockwise_undoes_clockwise() {
    for (height, width) in [(2usize, 3usize), (3, 2), (1, 5), (5, 1), (4, 4), (6, 9)] {
        let image = ramp(height * width * 3);
        let turned = rotate_90_clockwise(height, width, image.clone());
        assert_eq!(rotate_90_counterclockwise(width, height, turned), image);
    }
}

#[test]
fn clockwise_undoes_counterclockwise() {
    for (height, width) in [(2usize, 3usize), (3, 2), (1, 5), (5, 1), (4, 4), (6, 9)] {
        let image = ramp(height * width * 3);
        let turned = rotate_90_counterclockwise(height, width, image.clone());
        assert_eq!(rotate_90_clockwise(width, height, turned), image);
    }
}

#[test]
fn four_clockwise_turns_give_the_image_back() {
    let (height, width) = (3usize, 5usize);
    let image = ramp(height * width * 3);
    let once = rotate_90_clockwise(height, width, image.clone());
    let twice = rotate_90_clockwise(width, height, once);
    let thrice = rotate_90_clockwise(height, width, twice);
    assert_eq!(rotate_90_clockwise(width, height, thrice), image);
}

#[test]
fn two_clockwise_turns_reverse_the_pixels() {
    let once = rotate_90_clockwise(2, 3, labelled(6));
    let twice = rotate_90_clockwise(3, 2, once);
    let order: Vec<[u8; 3]> = (0..6).map(|p| pixel(&twice, p)).collect();
    assert_eq!(
        order,
        vec![[50, 51, 52], [40, 41, 42], [30, 31, 32], [20, 21, 22], [10, 11, 12], [0, 1, 2]]
    );
}

#[test]
fn rotations_keep_the_length() {
    for (height, width) in [(0usize, 0usize), (0, 4), (4, 0), (1, 1), (2, 3), (7, 5)] {
        let image = ramp(height * width * 3);
        assert_eq!(rotate_90_clockwise(height, width, image.clone()).len(), image.len());
        assert_eq!(rotate_90_counterclockwise(height, width, image.clone()).len(), image.len());
    }
}

#[test]
fn an_empty_image_stays_empty() {
    assert_eq!(rotate_90_clockwise(0, 3, Vec::new()), Vec::<u8>::new());
    assert_eq!(rotate_90_counterclockwise(3, 0, Vec::new()), Vec::<u8>::new());
}

#[test]
fn a_single_pixel_is_kept() {
    assert_eq!(rotate_90_clockwise(1, 1, vec![7, 8, 9]), vec![7, 8, 9]);
    assert_eq!(rotate_90_counterclockwise(1, 1, vec![7, 8, 9]), vec![7, 8, 9]);
}
