use elevation_map::grid::{build_axis, build_positions, METERS_PER_LAT_DEGREE};

// Meters per longitude degree at latitude 45.0: round(111000 * cos(45 deg)).
const MPD_LON_45: i64 = 78489;

#[test]
fn axis_values_at_45_5() {
    // Center (45.0, 5.0), size 100 m, resolution 50 m: two points per axis.
    let lon_axis = build_axis(5_000_000, 100, 50, MPD_LON_45);
    assert_eq!(lon_axis, vec![4_999_363, 5_000_000]);
    let lat_axis = build_axis(45_000_000, 100, 50, METERS_PER_LAT_DEGREE);
    assert_eq!(lat_axis, vec![44_999_550, 45_000_000]);
}

#[test]
fn axis_length_is_floor_of_ratio() {
    assert_eq!(build_axis(0, 1000, 50, 111000).len(), 20);
    assert_eq!(build_axis(0, 1000, 300, 111000).len(), 3);
    assert_eq!(build_axis(0, 49, 50, 111000).len(), 0);
}

#[test]
fn axis_empty_when_resolution_exceeds_size() {
    let axis = build_axis(45_000_000, 100, 150, 111000);
    assert!(axis.is_empty());
}

#[test]
fn axis_strictly_increasing() {
    let axis = build_axis(45_000_000, 1000, 50, 111000);
    for w in axis.windows(2) {
        assert!(w[0] < w[1]);
    }
}

#[test]
fn axis_centered_on_input() {
    // Size an exact multiple of the resolution: every symmetric pair of
    // points sums to twice the center minus one step (up to one unit), so
    // the axis mean sits half a step below the center.
    let center: i64 = 45_000_000;
    let axis = build_axis(center, 1000, 50, 111000);
    let step_num: i64 = 50 * 1_000_000;
    let step: i64 = step_num / 111000;
    let n = axis.len();
    for i in 0..n {
        let pair = axis[i] + axis[n - 1 - i];
        assert!(2 * center - step <= pair && pair <= 2 * center - step + 1);
    }
}

#[test]
fn positions_row_major_cross_product() {
    let lon = vec![1, 2];
    let lat = vec![3, 4];
    let pts = build_positions(&lon, &lat);
    assert_eq!(pts, vec![(1, 3), (1, 4), (2, 3), (2, 4)]);
}

#[test]
fn positions_length_is_axis_length_squared() {
    let lon = build_axis(5_000_000, 1000, 50, MPD_LON_45);
    let lat = build_axis(45_000_000, 1000, 50, METERS_PER_LAT_DEGREE);
    let pts = build_positions(&lon, &lat);
    assert_eq!(pts.len(), lon.len() * lat.len());
    assert_eq!(pts.len(), 400);
}

#[test]
fn positions_deterministic() {
    let lon = build_axis(5_000_000, 500, 50, MPD_LON_45);
    let lat = build_axis(45_000_000, 500, 50, METERS_PER_LAT_DEGREE);
    let first = build_positions(&lon, &lat);
    let second = build_positions(&lon, &lat);
    assert_eq!(first, second);
}

#[test]
fn positions_empty_axes() {
    let empty: Vec<i64> = Vec::new();
    let pts = build_positions(&empty, &empty);
    assert!(pts.is_empty());
}
