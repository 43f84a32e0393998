use gaussian_blur::{blur, horz_gauss_blur, rotate_90_clockwise, rotate_90_counterclockwise};

fn squares(len: usize) -> Vec<u8> {
    (0..len).map(|i| ((i * i * 7 + 3 * i + 5) % 256) as u8).collect()
}

#[test]
fn blur_returns_width_then_height() {
    let image = squares(5 * 4 * 3);
    let (_, width, height) = blur(5, 4, [27, 201, 27], image);
    assert_eq!((width, height), (4, 5));
}

#[test]
fn blur_keeps_the_length() {
    for (height, width) in [(3usize, 3usize), (3, 7), (7, 3), (6, 5)] {
        let image = squares(height * width * 3);
        let (blurred, _, _) = blur(height, width, [27, 201, 27], image.clone());
        assert_eq!(blurred.len(), image.len());
    }
}

#[test]
fn blur_of_five_rows_of_four() {
    let (blurred, width, height) = blur(5, 4, [27, 201, 27], squares(5 * 4 * 3));
    assert_eq!((width, height), (4, 5));
    assert_eq!(
        blurred,
        vec![
            5, 15, 39, 62, 114, 180, 19, 113, 221, 87, 223, 117, 25, 203, 139, 74, 66, 44, 23, 29,
            49, 83, 131, 193, 36, 126, 202, 78, 160, 99, 219, 137, 97, 70, 30, 232, 193, 195, 238,
            71, 91, 127, 186, 44, 117, 203, 103, 244, 149, 63, 247, 174, 130, 127, 99, 97, 109,
            135, 175, 229
        ]
    );
}

#[test]
fn blur_with_unequal_weights() {
    let image: Vec<u8> = (0..60).map(|i| ((i * 91 + 13) % 256) as u8).collect();
    let (blurred, width, height) = blur(4, 5, [10, 200, 46], image);
    assert_eq!((width, height), (5, 4));
    assert_eq!(
        blurred,
        vec![
            13, 104, 195, 27, 118, 209, 44, 135, 226, 64, 155, 246, 81, 172, 7, 98, 189, 24, 112,
            203, 38, 129, 220, 55, 149, 240, 75, 166, 1, 92, 148, 39, 120, 162, 53, 134, 179, 70,
            151, 199, 90, 171, 216, 97, 142, 12, 103, 194, 26, 117, 208, 43, 134, 225, 63, 154,
            245, 80, 171, 6
        ]
    );
}

#[test]
fn blur_with_five_weights() {
    let image: Vec<u8> = (0..168).map(|i| ((i * i * 3 + i * 17 + 9) % 256) as u8).collect();
    let (blurred, width, height) = blur(7, 8, [8, 32, 176, 32, 8], image);
    assert_eq!((width, height), (8, 7));
    assert_eq!(
        blurred,
        vec![
            9, 29, 55, 87, 125, 169, 184, 64, 86, 154, 188, 60, 138, 190, 72, 171, 25, 141, 7, 135,
            13, 153, 43, 195, 97, 5, 175, 95, 21, 209, 152, 96, 86, 218, 180, 156, 162, 142, 128,
            115, 113, 117, 127, 143, 165, 193, 227, 11, 57, 109, 167, 231, 45, 121, 200, 48, 134,
            202, 84, 164, 98, 142, 96, 187, 73, 221, 119, 23, 189, 105, 27, 211, 129, 101, 55, 215,
            173, 145, 147, 102, 106, 111, 99, 99, 111, 106, 102, 147, 145, 173, 215, 55, 101, 129,
            163, 75, 121, 165, 47, 135, 197, 89, 153, 99, 137, 109, 147, 101, 185, 121, 64, 187,
            137, 69, 207, 143, 93, 73, 67, 179, 193, 165, 143, 127, 117, 113, 128, 128, 142, 162,
            156, 180, 218, 86, 96, 147, 209, 21, 95, 175, 5, 97, 195, 43, 153, 13, 135, 7, 141, 25,
            144, 72, 190, 138, 60, 188, 154, 86, 64, 219, 169, 125, 87, 55, 29, 9, 251, 243
        ]
    );
}

#[test]
fn blur_with_one_weight_halves_rows_then_columns() {
    let image: Vec<u8> = (0..18).map(|i| ((i * 29 + 100) % 256) as u8).collect();
    let (blurred, width, height) = blur(2, 3, [128], image);
    assert_eq!((width, height), (3, 2));
    // The last column is copied by the pass along the rows and the first row
    // by the pass along the columns.
    assert_eq!(
        blurred,
        vec![50, 64, 79, 93, 108, 122, 18, 47, 76, 26, 33, 40, 48, 55, 62, 11, 26, 40]
    );
}

#[test]
fn blur_of_an_image_as_small_as_the_kernel_copies_it() {
    let image: Vec<u8> = (0..27).map(|i| ((i * 53 + 7) % 256) as u8).collect();
    let (blurred, width, height) = blur(3, 3, [10, 200, 46], image.clone());
    assert_eq!((width, height), (3, 3));
    assert_eq!(blurred, image);
}

#[test]
fn blur_with_a_single_full_weight_keeps_the_image() {
    let image: Vec<u8> = (0..18).collect();
    let (blurred, width, height) = blur(2, 3, [256], image.clone());
    assert_eq!((width, height), (3, 2));
    assert_eq!(blurred, image);
}

#[test]
fn blur_leaves_a_uniform_image_unchanged() {
    let mut image = Vec::new();
    for _ in 0..(16 * 17) {
        image.extend_from_slice(&[100, 3, 251]);
    }
    let kernel = [2, 5, 9, 14, 21, 27, 32, 36, 32, 27, 21, 14, 9, 5, 2];
    assert_eq!(kernel.iter().sum::<usize>(), 256);
    let (blurred, width, height) = blur(16, 17, kernel, image.clone());
    assert_eq!((width, height), (17, 16));
    assert_eq!(blurred, image);
}

#[test]
fn blur_is_the_four_stages_in_turn() {
    let (height, width) = (6usize, 9usize);
    let kernel = [1, 14, 226, 14, 1];
    let image = squares(height * width * 3);
    let rows = horz_gauss_blur(height, width, 2, kernel, &image);
    let turned = rotate_90_clockwise(height, width, rows);
    let columns = horz_gauss_blur(width, height, 2, kernel, &turned);
    let back = rotate_90_counterclockwise(width, height, columns);
    let (blurred, _, _) = blur(height, width, kernel, image);
    assert_eq!(blurred, back);
}

#[test]
fn blur_weighs_columns_from_top_to_bottom() {
    // Rows as long as the kernel are copied by the pass along the rows. The
    // pass along the columns recomputes rows 2 and 3, and the first weight
    // meets the row above.
    let image: Vec<u8> = (0..45).map(|i| ((i * 41 + 3) % 256) as u8).collect();
    let (first, _, _) = blur(5, 3, [256, 0, 0], image.clone());
    assert_eq!(&first[..18], &image[..18]);
    assert_eq!(&first[18..36], &image[9..27]);
    assert_eq!(&first[36..], &image[36..]);
    let (last, _, _) = blur(5, 3, [0, 0, 256], image.clone());
    assert_eq!(&last[..18], &image[..18]);
    assert_eq!(&last[18..36], &image[27..45]);
    assert_eq!(&last[36..], &image[36..]);
    let (centre, _, _) = blur(5, 3, [0, 256, 0], image.clone());
    assert_eq!(centre, image);
}
