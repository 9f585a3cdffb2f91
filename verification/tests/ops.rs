use texture::ops::{alpha_to_rgba8, flip_vertical};
use texture::TextureError;

#[test]
fn flip_three_rows_one_channel() {
    let src = vec![1u8, 2, 3, 4, 5, 6];
    let out = flip_vertical(&src, 2, 3, 1).unwrap();
    assert_eq!(out, vec![5, 6, 3, 4, 1, 2]);
}

#[test]
fn flip_single_pixel_four_channels() {
    let src = vec![1u8, 2, 3, 4];
    let out = flip_vertical(&src, 1, 1, 4).unwrap();
    assert_eq!(out, vec![1, 2, 3, 4]);
}

#[test]
fn flip_single_row_is_no_op() {
    let src = vec![9u8, 8, 7, 6, 5];
    let out = flip_vertical(&src, 5, 1, 1).unwrap();
    assert_eq!(out, src);
}

#[test]
fn flip_two_rows_two_channels() {
    let src = vec![1u8, 2, 3, 4, 5, 6, 7, 8];
    let out = flip_vertical(&src, 2, 2, 2).unwrap();
    assert_eq!(out, vec![5, 6, 7, 8, 1, 2, 3, 4]);
}

#[test]
fn flip_preserves_length() {
    let src = vec![0u8; 3 * 4 * 2];
    let out = flip_vertical(&src, 3, 4, 2).unwrap();
    assert_eq!(out.len(), src.len());
}

#[test]
fn flip_twice_restores_input() {
    let src: Vec<u8> = (0u8..24).collect();
    let once = flip_vertical(&src, 2, 4, 3).unwrap();
    let twice = flip_vertical(&once, 2, 4, 3).unwrap();
    assert_eq!(twice, src);
}

#[test]
fn flip_row_content_preserved() {
    let src: Vec<u8> = (10u8..22).collect();
    let out = flip_vertical(&src, 2, 3, 2).unwrap();
    // stride is 4; row y of the output is row 2 - y of the input
    for y in 0..3 {
        assert_eq!(out[y * 4..(y + 1) * 4], src[(2 - y) * 4..(3 - y) * 4]);
    }
}

#[test]
fn flip_empty_buffer() {
    let out = flip_vertical(&[], 0, 0, 4).unwrap();
    assert_eq!(out, Vec::<u8>::new());
}

#[test]
fn flip_rejects_short_buffer() {
    let src = vec![1u8, 2, 3];
    let err = flip_vertical(&src, 2, 2, 1).unwrap_err();
    assert_eq!(
        err,
        TextureError::InvalidBufferSize {
            expected: 4,
            actual: 3
        }
    );
}

#[test]
fn flip_rejects_long_buffer() {
    let src = vec![0u8; 10];
    let err = flip_vertical(&src, 3, 3, 1).unwrap_err();
    assert_eq!(
        err,
        TextureError::InvalidBufferSize {
            expected: 9,
            actual: 10
        }
    );
}

#[test]
fn flip_rejects_nonempty_buffer_for_zero_area() {
    let src = vec![1u8];
    let err = flip_vertical(&src, 0, 5, 4).unwrap_err();
    assert_eq!(
        err,
        TextureError::InvalidBufferSize {
            expected: 0,
            actual: 1
        }
    );
}

#[test]
fn alpha_two_pixels() {
    let src = vec![10u8, 20];
    let out = alpha_to_rgba8(&src, 2, 1).unwrap();
    assert_eq!(out, vec![255, 255, 255, 10, 255, 255, 255, 20]);
}

#[test]
fn alpha_fully_transparent_pixel() {
    let src = vec![0u8];
    let out = alpha_to_rgba8(&src, 1, 1).unwrap();
    assert_eq!(out, vec![255, 255, 255, 0]);
}

#[test]
fn alpha_output_is_four_times_input() {
    let src = vec![7u8; 6];
    let out = alpha_to_rgba8(&src, 3, 2).unwrap();
    assert_eq!(out.len(), 4 * src.len());
}

#[test]
fn alpha_column_buffer() {
    let src = vec![1u8, 2, 3];
    let out = alpha_to_rgba8(&src, 1, 3).unwrap();
    assert_eq!(
        out,
        vec![255, 255, 255, 1, 255, 255, 255, 2, 255, 255, 255, 3]
    );
}

#[test]
fn alpha_empty_buffer() {
    let out = alpha_to_rgba8(&[], 0, 3).unwrap();
    assert_eq!(out, Vec::<u8>::new());
}

#[test]
fn alpha_rejects_wrong_size() {
    let src = vec![1u8, 2, 3];
    let err = alpha_to_rgba8(&src, 2, 2).unwrap_err();
    assert_eq!(
        err,
        TextureError::InvalidBufferSize {
            expected: 4,
            actual: 3
        }
    );
}

#[test]
fn flip_commutes_with_alpha_expansion() {
    // flipping first and expanding after gives the same buffer as
    // expanding first and flipping the four-channel result
    let src: Vec<u8> = (1u8..=6).collect();
    let flipped = flip_vertical(&src, 3, 2, 1).unwrap();
    let a = alpha_to_rgba8(&flipped, 3, 2).unwrap();
    let expanded = alpha_to_rgba8(&src, 3, 2).unwrap();
    let b = flip_vertical(&expanded, 3, 2, 4).unwrap();
    assert_eq!(a, b);
}
