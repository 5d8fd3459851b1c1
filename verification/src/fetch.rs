//! Batch orchestration: partitions the sample points into fixed-size
//! batches, accumulates per-point elevations batch by batch, and tolerates
//! the failure of individual batches without aborting the run.
//!
//! The network round-trip itself is outside work; this module is the state
//! machine that decides what each round-trip asks for and what its outcome
//! does to the accumulated heights. Elevations are fixed point: millimeters.

use vstd::prelude::*;

verus! {

/// Number of sample points sent in one remote query.
pub const BATCH_SIZE: usize = 50;

/// How a single batch fetch can fail. All causes are tolerated alike: the
/// batch's contribution is dropped and the run continues.
#[derive(Clone, Copy, Debug, PartialEq, Eq, Structural)]
pub enum FetchError {
    /// The request never produced a response.
    Transport,
    /// The response carried a non-success HTTP status.
    BadStatus(u16),
    /// The response body was not the expected elevation list.
    Malformed,
    /// The response parsed but held the wrong number of elevations.
    WrongCount,
}

/// Total number of batches needed for `n` points: `ceil(n / BATCH_SIZE)`.
pub open spec fn num_batches(n: int) -> int {
    (n + BATCH_SIZE - 1) / (BATCH_SIZE as int)
}

/// Number of points covered by the first `k` batches: `min(n, k * BATCH_SIZE)`.
pub open spec fn covered(n: int, k: int) -> int {
    if k * BATCH_SIZE <= n {
        k * BATCH_SIZE
    } else {
        n
    }
}

/// Length of batch `k` out of `n` points: a full `BATCH_SIZE`, except that
/// the last batch receives the remainder.
pub open spec fn batch_len_at(n: int, k: int) -> int {
    covered(n, k + 1) - covered(n, k)
}

/// State of one best-effort fetch run over a fixed point sequence.
pub struct FetchRun {
    /// The full point set, in grid order; never changed by the run.
    pub positions: Vec<(i64, i64)>,
    /// Index of the first point not yet covered by a batch.
    pub cursor: usize,
    /// Batches resolved so far, successful or not.
    pub batches_done: usize,
    /// Batches whose elevations were accumulated.
    pub succeeded: usize,
    /// Batches whose contribution was dropped; one error was reported for each.
    pub failed: usize,
    /// Accumulated elevations of the successful batches, in point order.
    pub heights: Vec<i64>,
}

impl FetchRun {
    /// Invariant of the run, established by `new` and preserved by every
    /// step: the cursor tracks the resolved batches, every resolved batch
    /// either succeeded or failed, and the heights hold exactly the points
    /// of the successful batches.
    pub open spec fn wf(self) -> bool {
        let n = self.positions@.len() as int;
        &&& self.cursor == covered(n, self.batches_done as int)
        &&& self.succeeded + self.failed == self.batches_done
        &&& self.batches_done <= num_batches(n)
        &&& self.heights@.len() <= self.cursor
        &&& (self.failed == 0 ==> self.heights@.len() == self.cursor)
        &&& (self.succeeded == 0 ==> self.heights@.len() == 0)
        &&& (self.succeeded > 0 ==> self.heights@.len() > 0)
    }

    /// The run is finished once every point is covered.
    pub open spec fn is_done(self) -> bool {
        self.cursor == self.positions@.len()
    }

    /// Starts a run over `positions`: nothing fetched yet.
    pub fn new(positions: Vec<(i64, i64)>) -> (run: FetchRun)
        ensures
            run.wf(),
            run.positions == positions,
            run.cursor == 0,
            run.batches_done == 0,
            run.succeeded == 0,
            run.failed == 0,
            run.heights@.len() == 0,
    {
        proof {
            assert(0int * BATCH_SIZE == 0) by (nonlinear_arith);
            lemma_num_batches_bounds(positions@.len() as int);
        }
        FetchRun {
            positions,
            cursor: 0,
            batches_done: 0,
            succeeded: 0,
            failed: 0,
            heights: Vec::new(),
        }
    }

    /// Whether every batch has been resolved.
    pub fn done(&self) -> (r: bool)
        requires
            self.wf(),
        ensures
            r == self.is_done(),
    {
        self.cursor == self.positions.len()
    }

    /// The next batch to query: the at most `BATCH_SIZE` points starting at
    /// the cursor, in point order.
    pub fn next_batch(&self) -> (batch: Vec<(i64, i64)>)
        requires
            self.wf(),
            !self.is_done(),
        ensures
            batch@ == self.positions@.subrange(
                self.cursor as int,
                covered(self.positions@.len() as int, self.batches_done + 1),
            ),
            batch@.len() == batch_len_at(self.positions@.len() as int, self.batches_done as int),
            0 < batch@.len() <= BATCH_SIZE,
    {
        proof {
            lemma_covered_step(self.positions@.len() as int, self.batches_done as int);
        }
        let n = self.positions.len();
        let end: usize = if n - self.cursor < BATCH_SIZE {
            n
        } else {
            self.cursor + BATCH_SIZE
        };
        let mut batch: Vec<(i64, i64)> = Vec::new();
        let mut k: usize = self.cursor;
        while k < end
            invariant
                self.cursor <= k <= end <= self.positions@.len(),
                batch@ == self.positions@.subrange(self.cursor as int, k as int),
            decreases end - k,
        {
            batch.push(self.positions[k]);
            proof {
                assert(batch@ =~= self.positions@.subrange(self.cursor as int, k + 1));
            }
            k = k + 1;
        }
        batch
    }

    /// Records a successful batch: its elevations, one per point of the
    /// batch, are appended to the heights in point order.
    pub fn record_success(&mut self, elevations: Vec<i64>)
        requires
            old(self).wf(),
            !old(self).is_done(),
            elevations@.len() == batch_len_at(
                old(self).positions@.len() as int,
                old(self).batches_done as int,
            ),
        ensures
            final(self).wf(),
            final(self).positions == old(self).positions,
            final(self).heights@ == old(self).heights@ + elevations@,
            final(self).batches_done == old(self).batches_done + 1,
            final(self).succeeded == old(self).succeeded + 1,
            final(self).failed == old(self).failed,
            final(self).cursor == covered(
                old(self).positions@.len() as int,
                old(self).batches_done + 1,
            ),
    {
        proof {
            lemma_covered_step(self.positions@.len() as int, self.batches_done as int);
        }
        let mut elevations = elevations;
        self.heights.append(&mut elevations);
        self.advance_cursor();
        self.succeeded = self.succeeded + 1;
        self.batches_done = self.batches_done + 1;
    }

    /// Records a failed batch: the heights are left untouched, so the
    /// contribution of these points is dropped for the rest of the run.
    pub fn record_failure(&mut self)
        requires
            old(self).wf(),
            !old(self).is_done(),
        ensures
            final(self).wf(),
            final(self).positions == old(self).positions,
            final(self).heights == old(self).heights,
            final(self).batches_done == old(self).batches_done + 1,
            final(self).succeeded == old(self).succeeded,
            final(self).failed == old(self).failed + 1,
            final(self).cursor == covered(
                old(self).positions@.len() as int,
                old(self).batches_done + 1,
            ),
    {
        proof {
            lemma_covered_step(self.positions@.len() as int, self.batches_done as int);
        }
        self.advance_cursor();
        self.failed = self.failed + 1;
        self.batches_done = self.batches_done + 1;
    }

    /// Moves the cursor past the current batch.
    fn advance_cursor(&mut self)
        requires
            old(self).cursor == covered(
                old(self).positions@.len() as int,
                old(self).batches_done as int,
            ),
            old(self).cursor < old(self).positions@.len(),
            old(self).batches_done <= num_batches(old(self).positions@.len() as int),
        ensures
            final(self).cursor == covered(
                old(self).positions@.len() as int,
                old(self).batches_done + 1,
            ),
            final(self).positions == old(self).positions,
            final(self).batches_done == old(self).batches_done,
            final(self).succeeded == old(self).succeeded,
            final(self).failed == old(self).failed,
            final(self).heights == old(self).heights,
    {
        proof {
            lemma_covered_step(self.positions@.len() as int, self.batches_done as int);
        }
        let n = self.positions.len();
        if n - self.cursor < BATCH_SIZE {
            self.cursor = n;
        } else {
            self.cursor = self.cursor + BATCH_SIZE;
        }
    }
}

/// `num_batches` is nonnegative and covers all points exactly.
pub proof fn lemma_num_batches_bounds(n: int)
    requires
        0 <= n,
    ensures
        0 <= num_batches(n),
        covered(n, num_batches(n)) == n,
{
    let b = BATCH_SIZE as int;
    vstd::arithmetic::div_mod::lemma_div_pos_is_pos(n + b - 1, b);
    vstd::arithmetic::div_mod::lemma_fundamental_div_mod(n + b - 1, b);
    vstd::arithmetic::div_mod::lemma_mod_division_less_than_divisor(n + b - 1, b);
    let q = num_batches(n);
    let r = (n + b - 1) % b;
    assert(n + b - 1 == b * q + r);
    assert(q * b == b * q) by (nonlinear_arith);
    // n <= q * b <= n + b - 1, so covered(n, q) == n.
    assert(n <= q * b);
}

/// Stepping one batch from a cursor that is not yet at the end covers
/// between one and `BATCH_SIZE` further points and never passes the end;
/// only the final step may cover fewer than `BATCH_SIZE`.
pub proof fn lemma_covered_step(n: int, k: int)
    requires
        0 <= k,
        0 <= covered(n, k) < n,
        k <= num_batches(n),
    ensures
        covered(n, k + 1) == if n - covered(n, k) < BATCH_SIZE {
            n
        } else {
            covered(n, k) + BATCH_SIZE
        },
        0 < batch_len_at(n, k) <= BATCH_SIZE,
        k + 1 <= num_batches(n),
        covered(n, k + 1) < n ==> batch_len_at(n, k) == BATCH_SIZE,
{
    let b = BATCH_SIZE as int;
    assert((k + 1) * b == k * b + b) by (nonlinear_arith);
    assert(covered(n, k) == k * b);
    lemma_num_batches_bounds(n);
    // k + 1 <= num_batches(n): k * b < n <= num_batches(n) * b.
    let q = num_batches(n);
    vstd::arithmetic::div_mod::lemma_fundamental_div_mod(n + b - 1, b);
    vstd::arithmetic::div_mod::lemma_mod_division_less_than_divisor(n + b - 1, b);
    assert(n <= q * b) by {
        assert(q * b == b * q) by (nonlinear_arith);
    };
    assert(k < q) by {
        assert(k * b < q * b ==> k < q) by (nonlinear_arith)
            requires
                b > 0,
        ;
    };
}

/// Checks that a response carries exactly one elevation per requested
/// point; a response of any other length is rejected as non-matching.
pub fn accept_elevations(expected: usize, elevations: Vec<i64>) -> (r: Result<
    Vec<i64>,
    FetchError,
>)
    ensures
        elevations@.len() == expected ==> r == Ok::<Vec<i64>, FetchError>(elevations),
        elevations@.len() != expected ==> r == Err::<Vec<i64>, FetchError>(FetchError::WrongCount),
{
    if elevations.len() == expected {
        Ok(elevations)
    } else {
        Err(FetchError::WrongCount)
    }
}

/// Whether an HTTP status code counts as success: the 2xx class.
pub fn status_is_success(status: u16) -> (r: bool)
    ensures
        r == (200 <= status < 300),
{
    200 <= status && status < 300
}

/// If all batches succeed, the accumulated heights line up one to one with
/// the positions: `len(heights) == len(positions)`.
pub proof fn lemma_all_success_alignment(run: FetchRun)
    requires
        run.wf(),
        run.is_done(),
        run.failed == 0,
    ensures
        run.heights@.len() == run.positions@.len(),
{
}

/// If some batches fail but at least one succeeds, the run still produces a
/// non-empty output; and every failure was counted, one reported error per
/// failed batch.
pub proof fn lemma_partial_failure_output(run: FetchRun)
    requires
        run.wf(),
        run.succeeded > 0,
    ensures
        run.heights@.len() > 0,
        run.failed == run.batches_done - run.succeeded,
{
}

/// A finished run has resolved exactly `ceil(n / BATCH_SIZE)` batches: one
/// remote query per batch, no more and no fewer.
pub proof fn lemma_done_batch_count(run: FetchRun)
    requires
        run.wf(),
        run.is_done(),
    ensures
        run.batches_done == num_batches(run.positions@.len() as int),
{
    let n = run.positions@.len() as int;
    let b = BATCH_SIZE as int;
    let k = run.batches_done as int;
    lemma_num_batches_bounds(n);
    if k < num_batches(n) {
        // covered(n, k) == n would make batch k empty, which lemma_covered_step
        // rules out below num_batches.
        if covered(n, k) < n {
            lemma_covered_step(n, k);
            assert(false);
        } else {
            assert(k * b >= n || covered(n, k) == n);
            if k * b <= n {
                assert(covered(n, k) == k * b == n);
                let q = num_batches(n);
                vstd::arithmetic::div_mod::lemma_fundamental_div_mod(n + b - 1, b);
                vstd::arithmetic::div_mod::lemma_mod_division_less_than_divisor(n + b - 1, b);
                assert(q * b <= n + b - 1) by {
                    assert(q * b == b * q) by (nonlinear_arith);
                };
                assert(k < q ==> (k + 1) * b <= q * b) by (nonlinear_arith)
                    requires
                        b > 0,
                ;
                assert((k + 1) * b == k * b + b) by (nonlinear_arith);
                assert(false);
            } else {
                assert(covered(n, k) == n);
            }
        }
    }
}

/// The batch partition: a point count that is a multiple of `BATCH_SIZE`
/// takes exactly `n / BATCH_SIZE` full batches; any other count takes one
/// more, whose final batch receives the remainder.
pub proof fn lemma_batch_schedule(n: int)
    requires
        0 < n,
    ensures
        n % (BATCH_SIZE as int) == 0 ==> num_batches(n) == n / (BATCH_SIZE as int)
            && batch_len_at(n, num_batches(n) - 1) == BATCH_SIZE,
        n % (BATCH_SIZE as int) != 0 ==> num_batches(n) == n / (BATCH_SIZE as int) + 1
            && batch_len_at(n, num_batches(n) - 1) == n % (BATCH_SIZE as int),
{
    let b = BATCH_SIZE as int;
    vstd::arithmetic::div_mod::lemma_fundamental_div_mod(n, b);
    vstd::arithmetic::div_mod::lemma_mod_division_less_than_divisor(n, b);
    let q = n / b;
    let r = n % b;
    if r == 0 {
        vstd::arithmetic::div_mod::lemma_fundamental_div_mod_converse(n + b - 1, b, q, b - 1);
        assert(num_batches(n) == q);
        assert((q - 1) * b == b * q - b) by (nonlinear_arith);
        assert(q * b == b * q) by (nonlinear_arith);
        assert(covered(n, q - 1) == n - b);
        assert(covered(n, q) == n);
    } else {
        vstd::arithmetic::div_mod::lemma_fundamental_div_mod_converse(n + b - 1, b, q + 1, r - 1);
        assert(num_batches(n) == q + 1);
        assert(q * b == b * q) by (nonlinear_arith);
        assert((q + 1) * b == b * q + b) by (nonlinear_arith);
        assert(covered(n, q) == n - r);
        assert(covered(n, q + 1) == n);
    }
}

} // verus!
