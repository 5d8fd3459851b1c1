use elevation_map::codec::{batch_query_lists, elevation_query};

fn as_text(bytes: Vec<u8>) -> String {
    String::from_utf8(bytes).unwrap()
}

#[test]
fn single_point_lists() {
    let batch = vec![(4_999_363, 44_999_550)];
    let (lons, lats) = batch_query_lists(&batch);
    assert_eq!(as_text(lons), "4.999363");
    assert_eq!(as_text(lats), "44.999550");
}

#[test]
fn pipe_delimited_in_point_order() {
    let batch = vec![(1_000_000, 45_000_000), (2_500_000, 46_250_000), (0, 7)];
    let (lons, lats) = batch_query_lists(&batch);
    assert_eq!(as_text(lons), "1.000000|2.500000|0.000000");
    assert_eq!(as_text(lats), "45.000000|46.250000|0.000007");
}

#[test]
fn negative_coordinates() {
    let batch = vec![(-500_000, -1_500_000)];
    let (lons, lats) = batch_query_lists(&batch);
    assert_eq!(as_text(lons), "-0.500000");
    assert_eq!(as_text(lats), "-1.500000");
}

#[test]
fn empty_batch_gives_empty_lists() {
    let batch: Vec<(i64, i64)> = Vec::new();
    let (lons, lats) = batch_query_lists(&batch);
    assert!(lons.is_empty());
    assert!(lats.is_empty());
}

#[test]
fn query_fragment_framing() {
    let batch = vec![(4_999_363, 44_999_550), (5_000_000, 45_000_000)];
    let query = elevation_query(&batch);
    assert_eq!(
        as_text(query),
        "lon=4.999363|5.000000&lat=44.999550|45.000000&zonly=true"
    );
}

#[test]
fn fractional_zero_padding() {
    let batch = vec![(5_000_001, -45)];
    let (lons, lats) = batch_query_lists(&batch);
    assert_eq!(as_text(lons), "5.000001");
    assert_eq!(as_text(lats), "-0.000045");
}
