use elevation_map::fetch::{accept_elevations, status_is_success, FetchError, FetchRun, BATCH_SIZE};

fn dummy_points(n: usize) -> Vec<(i64, i64)> {
    (0..n).map(|k| (k as i64, -(k as i64))).collect()
}

/// Drives a run to completion, failing the batches whose index is in
/// `fail`; returns the number of batches resolved.
fn drive(run: &mut FetchRun, fail: &[usize]) -> usize {
    let mut batch_index = 0;
    while !run.done() {
        let batch = run.next_batch();
        assert!(!batch.is_empty());
        assert!(batch.len() <= BATCH_SIZE);
        if fail.contains(&batch_index) {
            run.record_failure();
        } else {
            let elevations: Vec<i64> = batch.iter().map(|p| p.0 * 1000).collect();
            run.record_success(elevations);
        }
        batch_index += 1;
    }
    batch_index
}

#[test]
fn batch_count_exact_multiple() {
    let mut run = FetchRun::new(dummy_points(100));
    let batches = drive(&mut run, &[]);
    assert_eq!(batches, 2);
    assert_eq!(run.batches_done, 2);
}

#[test]
fn batch_count_with_remainder() {
    let mut run = FetchRun::new(dummy_points(120));
    let mut last_len = 0;
    while !run.done() {
        let batch = run.next_batch();
        last_len = batch.len();
        let elevations = vec![0i64; batch.len()];
        run.record_success(elevations);
    }
    assert_eq!(run.batches_done, 3);
    assert_eq!(last_len, 20);
}

#[test]
fn all_success_aligns_heights_with_positions() {
    let mut run = FetchRun::new(dummy_points(104));
    drive(&mut run, &[]);
    assert_eq!(run.heights.len(), run.positions.len());
    assert_eq!(run.failed, 0);
    // Heights arrive in point order across batches.
    for (k, h) in run.heights.iter().enumerate() {
        assert_eq!(*h, (k as i64) * 1000);
    }
}

#[test]
fn failed_batch_is_skipped_not_padded() {
    let mut run = FetchRun::new(dummy_points(120));
    drive(&mut run, &[1]);
    // The second batch's 50 points are dropped; no placeholder appears.
    assert_eq!(run.heights.len(), 70);
    assert_eq!(run.positions.len(), 120);
    assert_eq!(run.failed, 1);
    assert_eq!(run.succeeded, 2);
    assert!(!run.heights.is_empty());
}

#[test]
fn all_batches_failed_leaves_heights_empty() {
    let mut run = FetchRun::new(dummy_points(60));
    drive(&mut run, &[0, 1]);
    assert!(run.heights.is_empty());
    assert_eq!(run.failed, 2);
    assert_eq!(run.positions.len(), 60);
}

#[test]
fn empty_point_set_is_done_immediately() {
    let run = FetchRun::new(Vec::new());
    assert!(run.done());
    assert_eq!(run.batches_done, 0);
    assert!(run.heights.is_empty());
}

#[test]
fn next_batch_returns_points_in_order() {
    let run = FetchRun::new(dummy_points(7));
    let batch = run.next_batch();
    assert_eq!(batch, dummy_points(7));
}

#[test]
fn accept_elevations_matching_count() {
    let r = accept_elevations(3, vec![1, 2, 3]);
    assert_eq!(r, Ok(vec![1, 2, 3]));
}

#[test]
fn accept_elevations_wrong_count() {
    let r = accept_elevations(4, vec![1, 2, 3]);
    assert_eq!(r, Err(FetchError::WrongCount));
}

#[test]
fn status_classes() {
    assert!(status_is_success(200));
    assert!(status_is_success(204));
    assert!(status_is_success(299));
    assert!(!status_is_success(199));
    assert!(!status_is_success(300));
    assert!(!status_is_success(404));
    assert!(!status_is_success(500));
}
