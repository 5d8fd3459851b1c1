use elevation_map::render::{
    height_range, normalize_heights, render_image, rotate_ccw, RenderError, MID_GRAY,
};

#[test]
fn range_of_heights() {
    let heights = vec![30, 10, 40, 20];
    assert_eq!(height_range(&heights), (10, 40));
    let single = vec![-7];
    assert_eq!(height_range(&single), (-7, -7));
}

#[test]
fn normalize_exact_levels() {
    // min 10, max 40: levels floor(256 * (h - 10) / 30), saturated at 255.
    let heights = vec![10, 20, 30, 40];
    assert_eq!(normalize_heights(&heights), vec![0, 85, 170, 255]);
}

#[test]
fn normalize_scale_invariant() {
    // Scaling all heights by a positive constant scales min and max with
    // them and leaves the 8-bit output unchanged.
    let heights = vec![10, 20, 30, 40];
    let scaled: Vec<i64> = heights.iter().map(|h| h * 3).collect();
    assert_eq!(normalize_heights(&heights), normalize_heights(&scaled));
    let scaled_more: Vec<i64> = heights.iter().map(|h| h * 1000).collect();
    assert_eq!(normalize_heights(&heights), normalize_heights(&scaled_more));
}

#[test]
fn normalize_degenerate_range_is_mid_gray() {
    let heights = vec![7, 7, 7, 7];
    assert_eq!(normalize_heights(&heights), vec![MID_GRAY; 4]);
}

#[test]
fn normalize_negative_heights() {
    let heights = vec![-40, -10];
    assert_eq!(normalize_heights(&heights), vec![0, 255]);
}

#[test]
fn rotate_two_by_two() {
    // Quarter turn counter-clockwise: the right column becomes the top row.
    let buf = vec![1, 2, 3, 4];
    assert_eq!(rotate_ccw(&buf, 2), vec![2, 4, 1, 3]);
}

#[test]
fn rotate_three_by_three() {
    let buf = vec![
        1, 2, 3, //
        4, 5, 6, //
        7, 8, 9,
    ];
    let expected = vec![
        3, 6, 9, //
        2, 5, 8, //
        1, 4, 7,
    ];
    assert_eq!(rotate_ccw(&buf, 3), expected);
}

#[test]
fn render_image_rotates_normalized_heights() {
    let heights = vec![10, 20, 30, 40];
    let img = render_image(&heights, 2).unwrap();
    // normalize -> [0, 85, 170, 255], then a quarter turn counter-clockwise.
    assert_eq!(img, vec![85, 255, 0, 170]);
}

#[test]
fn render_image_shape_mismatch() {
    let heights = vec![10, 20, 30];
    assert_eq!(render_image(&heights, 2), Err(RenderError::ShapeMismatch));
    let empty: Vec<i64> = Vec::new();
    assert_eq!(render_image(&empty, 1), Err(RenderError::ShapeMismatch));
}

#[test]
fn render_image_empty_grid() {
    let empty: Vec<i64> = Vec::new();
    assert_eq!(render_image(&empty, 0), Ok(Vec::new()));
}
