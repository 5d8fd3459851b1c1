//! End-to-end scenarios over the in-memory pipeline: grid, batched fetch,
//! output record.

use elevation_map::fetch::FetchRun;
use elevation_map::grid::{build_axis, build_positions, METERS_PER_LAT_DEGREE};
use elevation_map::output::OutputRecord;

// Meters per longitude degree at latitude 45.0: round(111000 * cos(45 deg)).
const MPD_LON_45: i64 = 78489;

fn grid_45_5() -> Vec<(i64, i64)> {
    let lon_axis = build_axis(5_000_000, 100, 50, MPD_LON_45);
    let lat_axis = build_axis(45_000_000, 100, 50, METERS_PER_LAT_DEGREE);
    assert_eq!(lon_axis.len(), 2);
    assert_eq!(lat_axis.len(), 2);
    build_positions(&lon_axis, &lat_axis)
}

#[test]
fn single_batch_success_scenario() {
    // latitude 45.0, longitude 5.0, size 100, resolution 50: axis length 2,
    // 4 points, one batch, one remote call.
    let positions = grid_45_5();
    assert_eq!(positions.len(), 4);

    let mut run = FetchRun::new(positions.clone());
    let mut calls = 0;
    while !run.done() {
        let batch = run.next_batch();
        assert_eq!(batch.len(), 4);
        calls += 1;
        // The one call returns elevations 10.0, 20.0, 30.0, 40.0 meters.
        run.record_success(vec![10_000, 20_000, 30_000, 40_000]);
    }
    assert_eq!(calls, 1);
    assert_eq!(run.heights, vec![10_000, 20_000, 30_000, 40_000]);

    let record = OutputRecord::from_run(run, 50);
    assert_eq!(record.heights().len(), record.positions().len());
    assert_eq!(record.heights(), &vec![10_000, 20_000, 30_000, 40_000]);
    assert_eq!(record.positions(), &positions);
    assert_eq!(record.resolution(), 50);
}

#[test]
fn single_batch_failure_scenario() {
    // Same grid, but the one batch call fails: heights come out empty while
    // positions keep their 4 entries — the documented misalignment of the
    // best-effort policy.
    let positions = grid_45_5();
    let mut run = FetchRun::new(positions.clone());
    let mut calls = 0;
    while !run.done() {
        let batch = run.next_batch();
        assert_eq!(batch.len(), 4);
        calls += 1;
        run.record_failure();
    }
    assert_eq!(calls, 1);
    assert_eq!(run.failed, 1);
    assert!(run.heights.is_empty());

    let record = OutputRecord::from_run(run, 50);
    assert!(record.heights().is_empty());
    assert_eq!(record.positions().len(), 4);
    assert_eq!(record.resolution(), 50);
}

#[test]
fn record_round_trip() {
    let heights = vec![1, 2, 3];
    let positions = vec![(10, 20), (30, 40), (50, 60)];
    let record = OutputRecord::new(heights.clone(), positions.clone(), 25);
    assert_eq!(record.heights(), &heights);
    assert_eq!(record.positions(), &positions);
    assert_eq!(record.resolution(), 25);
}
