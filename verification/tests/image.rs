use mirkobo::image::{bgra_to_rgba, monochrome_threshold};

#[test]
fn bgra_frame_with_row_padding() {
    // two rows of two pixels, each row padded to 10 bytes
    let frame: Vec<u8> = vec![
        1, 2, 3, 4, 5, 6, 7, 8, 0, 0, //
        11, 12, 13, 14, 15, 16, 17, 18, 0, 0,
    ];
    let rgba = bgra_to_rgba(&frame, 2, 2);
    assert_eq!(
        rgba,
        vec![3, 2, 1, 255, 7, 6, 5, 255, 13, 12, 11, 255, 17, 16, 15, 255]
    );
}

#[test]
fn bgra_frame_narrower_than_rows() {
    let frame: Vec<u8> = (0..24).collect();
    // 3 rows of 8 bytes, only the first pixel of each row is kept
    assert_eq!(bgra_to_rgba(&frame, 1, 3), vec![2, 1, 0, 255, 10, 9, 8, 255, 18, 17, 16, 255]);
}

#[test]
fn bgra_empty_width() {
    assert_eq!(bgra_to_rgba(&[1, 2, 3], 0, 3), Vec::<u8>::new());
}

#[test]
fn threshold_below_two_colors() {
    assert!(monochrome_threshold(0));
    assert!(monochrome_threshold(1));
    assert!(!monochrome_threshold(2));
    assert!(!monochrome_threshold(16));
}
