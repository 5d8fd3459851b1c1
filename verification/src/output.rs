//! The persisted artifact: accumulated elevations, the sample points they
//! were requested for, and the resolution of the grid. Consumers correlate
//! `heights[i]` with `positions[i]` purely by index.

use vstd::prelude::*;
use crate::fetch::FetchRun;

verus! {

/// The triple that is written to the output container. When every batch of
/// the run succeeded, `heights` and `positions` have the same length; after
/// failed batches `heights` is shorter (the dropped batches' points keep
/// their positions but have no elevation).
pub struct OutputRecord {
    /// Accumulated elevations, millimeters, in point order.
    pub heights: Vec<i64>,
    /// All requested sample points, in grid order, millionths of a degree.
    pub positions: Vec<(i64, i64)>,
    /// Grid resolution, meters.
    pub resolution_m: i64,
}

impl OutputRecord {
    /// Assembles the record exactly as given: nothing is transformed
    /// between accumulation and persistence, so what is written is what was
    /// generated.
    pub fn new(heights: Vec<i64>, positions: Vec<(i64, i64)>, resolution_m: i64) -> (r:
        OutputRecord)
        ensures
            r.heights == heights,
            r.positions == positions,
            r.resolution_m == resolution_m,
    {
        OutputRecord { heights, positions, resolution_m }
    }

    /// Closes a finished fetch run into the record to persist. When every
    /// batch succeeded the heights line up one to one with the positions;
    /// after failed batches the heights are shorter, and a run with no
    /// successful batch yields empty heights beside the full point set.
    pub fn from_run(run: FetchRun, resolution_m: i64) -> (r: OutputRecord)
        requires
            run.wf(),
            run.is_done(),
        ensures
            r.heights == run.heights,
            r.positions == run.positions,
            r.resolution_m == resolution_m,
            run.failed == 0 ==> r.heights@.len() == r.positions@.len(),
            run.succeeded == 0 ==> r.heights@.len() == 0,
    {
        OutputRecord { heights: run.heights, positions: run.positions, resolution_m }
    }

    /// The resolution that a reader of the container gets back: the exact
    /// value the record was built with.
    pub fn resolution(&self) -> (r: i64)
        ensures
            r == self.resolution_m,
    {
        self.resolution_m
    }

    /// The heights that a reader of the container gets back.
    pub fn heights(&self) -> (r: &Vec<i64>)
        ensures
            r == self.heights,
    {
        &self.heights
    }

    /// The positions that a reader of the container gets back.
    pub fn positions(&self) -> (r: &Vec<(i64, i64)>)
        ensures
            r == self.positions,
    {
        &self.positions
    }
}

} // verus!
