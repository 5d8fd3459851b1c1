//! Image rendering: normalizes the accumulated elevations to 8-bit
//! grayscale intensities and rotates the square raster a quarter turn
//! counter-clockwise, so that image rows and columns line up with the
//! geographic east/north conventions.

use vstd::prelude::*;
use vstd::arithmetic::div_mod::{
    lemma_fundamental_div_mod, lemma_fundamental_div_mod_converse, lemma_div_multiples_vanish,
    lemma_div_denominator, lemma_div_is_ordered, lemma_div_by_multiple, lemma_div_pos_is_pos,
};

verus! {

/// Number of gray levels of the output raster.
pub const GRAY_LEVELS: i64 = 256;

/// Intensity used for every pixel when all elevations are equal and the
/// normalization range collapses.
pub const MID_GRAY: u8 = 128;

/// Largest magnitude of an elevation, in millimeters, that the renderer
/// accepts; keeps `GRAY_LEVELS * (h - min)` inside `i64`.
pub const HEIGHT_LIMIT: i64 = 0x100_0000_0000;

/// Why rendering can fail.
#[derive(Clone, Copy, Debug, PartialEq, Eq, Structural)]
pub enum RenderError {
    /// The flat height buffer does not hold `side * side` values.
    ShapeMismatch,
}

/// Smallest value of a non-empty sequence.
pub open spec fn seq_min(s: Seq<i64>) -> int
    recommends
        s.len() > 0,
    decreases s.len(),
{
    if s.len() <= 1 {
        s[0] as int
    } else if s.last() as int <= seq_min(s.drop_last()) {
        s.last() as int
    } else {
        seq_min(s.drop_last())
    }
}

/// Largest value of a non-empty sequence.
pub open spec fn seq_max(s: Seq<i64>) -> int
    recommends
        s.len() > 0,
    decreases s.len(),
{
    if s.len() <= 1 {
        s[0] as int
    } else if s.last() as int >= seq_max(s.drop_last()) {
        s.last() as int
    } else {
        seq_max(s.drop_last())
    }
}

/// `seq_min` and `seq_max` bound every element of the sequence.
pub proof fn lemma_min_max_bound(s: Seq<i64>, i: int)
    requires
        0 <= i < s.len(),
    ensures
        seq_min(s) <= s[i] <= seq_max(s),
    decreases s.len(),
{
    if s.len() > 1 {
        if i < s.len() - 1 {
            lemma_min_max_bound(s.drop_last(), i);
        }
    }
}

/// A bound that holds of every element also holds of `seq_min` and `seq_max`.
pub proof fn lemma_min_max_in_range(s: Seq<i64>, bound: int)
    requires
        s.len() > 0,
        forall|i: int| 0 <= i < s.len() ==> -bound <= #[trigger] s[i] <= bound,
    ensures
        -bound <= seq_min(s) <= seq_max(s) <= bound,
    decreases s.len(),
{
    lemma_min_max_bound(s, 0);
    if s.len() > 1 {
        lemma_min_max_in_range(s.drop_last(), bound);
    }
}

/// 8-bit intensity of elevation `h` within the closed range `[lo, hi]`:
/// `floor(GRAY_LEVELS * (h - lo) / (hi - lo))`, saturated at 255 so that
/// `h == hi` lands on the brightest level.
pub open spec fn norm_level(h: int, lo: int, hi: int) -> int
    recommends
        lo < hi,
{
    let q = GRAY_LEVELS * (h - lo) / (hi - lo);
    if q > 255 {
        255
    } else {
        q
    }
}

/// Finds the smallest and largest accumulated elevation.
pub fn height_range(heights: &Vec<i64>) -> (r: (i64, i64))
    requires
        heights@.len() > 0,
    ensures
        r.0 == seq_min(heights@),
        r.1 == seq_max(heights@),
{
    let mut lo: i64 = heights[0];
    let mut hi: i64 = heights[0];
    let mut i: usize = 1;
    proof {
        assert(heights@.take(1).len() == 1);
        assert(heights@.take(1)[0] == heights@[0]);
    }
    while i < heights.len()
        invariant
            1 <= i <= heights@.len(),
            lo == seq_min(heights@.take(i as int)),
            hi == seq_max(heights@.take(i as int)),
        decreases heights@.len() - i,
    {
        let h = heights[i];
        proof {
            let t = heights@.take(i + 1);
            assert(t.drop_last() =~= heights@.take(i as int));
            assert(t.last() == heights@[i as int]);
        }
        if h < lo {
            lo = h;
        }
        if h > hi {
            hi = h;
        }
        i = i + 1;
    }
    proof {
        assert(heights@.take(heights@.len() as int) =~= heights@);
    }
    (lo, hi)
}

/// Normalizes every elevation to an 8-bit gray level over the range the
/// heights actually span. A collapsed range (all elevations equal) is an
/// explicit degenerate branch: the raster comes out uniformly mid-gray.
pub fn normalize_heights(heights: &Vec<i64>) -> (out: Vec<u8>)
    requires
        heights@.len() > 0,
        forall|i: int|
            0 <= i < heights@.len() ==> -HEIGHT_LIMIT <= #[trigger] heights@[i] <= HEIGHT_LIMIT,
    ensures
        out@.len() == heights@.len(),
        seq_min(heights@) < seq_max(heights@) ==> forall|i: int|
            0 <= i < out@.len() ==> #[trigger] out@[i] as int == norm_level(
                heights@[i] as int,
                seq_min(heights@),
                seq_max(heights@),
            ),
        seq_min(heights@) == seq_max(heights@) ==> forall|i: int|
            0 <= i < out@.len() ==> #[trigger] out@[i] == MID_GRAY,
{
    let (lo, hi) = height_range(heights);
    let mut out: Vec<u8> = Vec::new();
    let mut i: usize = 0;
    if lo == hi {
        while i < heights.len()
            invariant
                0 <= i <= heights@.len(),
                out@.len() == i,
                forall|k: int| 0 <= k < i ==> #[trigger] out@[k] == MID_GRAY,
            decreases heights@.len() - i,
        {
            out.push(MID_GRAY);
            i = i + 1;
        }
        return out;
    }
    proof {
        lemma_min_max_in_range(heights@, HEIGHT_LIMIT as int);
    }
    let d: i64 = hi - lo;
    while i < heights.len()
        invariant
            0 <= i <= heights@.len(),
            out@.len() == i,
            lo == seq_min(heights@),
            hi == seq_max(heights@),
            d == hi - lo,
            0 < d,
            -HEIGHT_LIMIT <= lo <= hi <= HEIGHT_LIMIT,
            forall|k: int|
                0 <= k < heights@.len() ==> -HEIGHT_LIMIT <= #[trigger] heights@[k]
                    <= HEIGHT_LIMIT,
            forall|k: int|
                0 <= k < i ==> #[trigger] out@[k] as int == norm_level(
                    heights@[k] as int,
                    lo as int,
                    hi as int,
                ),
        decreases heights@.len() - i,
    {
        let h = heights[i];
        proof {
            lemma_min_max_bound(heights@, i as int);
            assert(0 <= GRAY_LEVELS * ((h - lo) as int) <= GRAY_LEVELS * 2 * HEIGHT_LIMIT)
                by (nonlinear_arith)
                requires
                    0 <= h - lo <= 2 * HEIGHT_LIMIT,
                    GRAY_LEVELS == 256,
                    HEIGHT_LIMIT == 0x100_0000_0000,
            ;
        }
        let num: i64 = GRAY_LEVELS * (h - lo);
        let q: i64 = ((num as u64) / (d as u64)) as i64;
        proof {
            lemma_div_pos_is_pos(num as int, d as int);
            // num <= GRAY_LEVELS * d, so q <= GRAY_LEVELS.
            assert(num <= GRAY_LEVELS * (d as int)) by (nonlinear_arith)
                requires
                    num == GRAY_LEVELS * ((h - lo) as int),
                    h - lo <= d,
                    GRAY_LEVELS == 256,
            ;
            lemma_div_is_ordered(num as int, GRAY_LEVELS * (d as int), d as int);
            lemma_div_by_multiple(GRAY_LEVELS as int, d as int);
            assert((GRAY_LEVELS * (d as int)) / (d as int) == GRAY_LEVELS);
        }
        let level: u8 = if q > 255 {
            255
        } else {
            q as u8
        };
        out.push(level);
        i = i + 1;
    }
    out
}

/// Normalization is invariant under rescaling: scaling an elevation and the
/// range bounds by the same positive constant leaves its gray level
/// unchanged, because the numerator and the denominator scale together.
pub proof fn lemma_norm_scale_invariant(h: int, lo: int, hi: int, c: int)
    requires
        lo <= h <= hi,
        lo < hi,
        0 < c,
    ensures
        norm_level(c * h, c * lo, c * hi) == norm_level(h, lo, hi),
{
    let a = GRAY_LEVELS * (h - lo);
    let b = hi - lo;
    assert(GRAY_LEVELS * (c * h - c * lo) == c * a) by (nonlinear_arith)
        requires
            a == GRAY_LEVELS * (h - lo),
    ;
    assert(c * hi - c * lo == c * b) by (nonlinear_arith)
        requires
            b == hi - lo,
    ;
    assert(0 <= c * a) by (nonlinear_arith)
        requires
            0 <= a,
            0 < c,
    ;
    // (c * a) / (c * b) == ((c * a) / c) / b == a / b.
    lemma_div_denominator(c * a, c, b);
    lemma_div_multiples_vanish(a, c);
    assert((c * a) / (c * b) == a / b);
}

/// Scaling every element by the same positive constant scales `seq_min`
/// and `seq_max` by it.
pub proof fn lemma_min_max_scale(s: Seq<i64>, t: Seq<i64>, c: int)
    requires
        0 < c,
        s.len() > 0,
        t.len() == s.len(),
        forall|k: int| 0 <= k < s.len() ==> #[trigger] t[k] as int == c * s[k],
    ensures
        seq_min(t) == c * seq_min(s),
        seq_max(t) == c * seq_max(s),
    decreases s.len(),
{
    if s.len() > 1 {
        assert(t.drop_last().len() == s.drop_last().len());
        lemma_min_max_scale(s.drop_last(), t.drop_last(), c);
        assert(t.last() as int == c * s.last());
        // Multiplying by a positive constant preserves the order of the
        // last element against the extremes of the rest.
        assert((s.last() as int <= seq_min(s.drop_last())) == (c * s.last() <= c * seq_min(
            s.drop_last(),
        ))) by (nonlinear_arith)
            requires
                0 < c,
        ;
        assert((s.last() as int >= seq_max(s.drop_last())) == (c * s.last() >= c * seq_max(
            s.drop_last(),
        ))) by (nonlinear_arith)
            requires
                0 < c,
        ;
    }
}

/// Normalization is invariant under rescaling of the whole height buffer:
/// if every element of `t` is the corresponding element of `s` scaled by
/// the same positive constant, both buffers normalize to the same 8-bit
/// output — including the degenerate all-equal case, which collapses for
/// both or for neither.
pub proof fn lemma_normalize_scale_seq(s: Seq<i64>, t: Seq<i64>, c: int, k: int)
    requires
        0 < c,
        s.len() > 0,
        t.len() == s.len(),
        forall|j: int| 0 <= j < s.len() ==> #[trigger] t[j] as int == c * s[j],
        0 <= k < s.len(),
    ensures
        (seq_min(s) == seq_max(s)) == (seq_min(t) == seq_max(t)),
        seq_min(s) < seq_max(s) ==> norm_level(t[k] as int, seq_min(t), seq_max(t)) == norm_level(
            s[k] as int,
            seq_min(s),
            seq_max(s),
        ),
{
    lemma_min_max_scale(s, t, c);
    assert((seq_min(s) == seq_max(s)) == (c * seq_min(s) == c * seq_max(s))) by (nonlinear_arith)
        requires
            0 < c,
    ;
    if seq_min(s) < seq_max(s) {
        lemma_min_max_bound(s, k);
        lemma_norm_scale_invariant(s[k] as int, seq_min(s), seq_max(s), c);
    }
}

/// Source index of output pixel `k` under a quarter-turn counter-clockwise
/// rotation of a square raster of side `side`: output pixel at column
/// `k % side`, row `k / side` shows the input pixel at column
/// `side - 1 - (k / side)`, row `k % side`.
pub open spec fn rotated_source(side: int, k: int) -> int {
    (k % side) * side + (side - 1 - k / side)
}

/// Rotates a square row-major raster a quarter turn counter-clockwise.
pub fn rotate_ccw(buf: &Vec<u8>, side: usize) -> (out: Vec<u8>)
    requires
        buf@.len() == side * side,
    ensures
        out@.len() == side * side,
        forall|k: int|
            0 <= k < out@.len() ==> #[trigger] out@[k] == buf@[rotated_source(side as int, k)],
{
    let total: usize = buf.len();
    proof {
        // Materializes that the raster size fits in `usize`.
        assert(total == side * side);
    }
    let mut out: Vec<u8> = Vec::new();
    let mut y: usize = 0;
    while y < side
        invariant
            0 <= y <= side,
            buf@.len() == side * side,
            side * side <= usize::MAX,
            out@.len() == y * side,
            forall|k: int|
                0 <= k < out@.len() ==> #[trigger] out@[k] == buf@[rotated_source(side as int, k)],
        decreases side - y,
    {
        let mut x: usize = 0;
        while x < side
            invariant
                0 <= y < side,
                0 <= x <= side,
                buf@.len() == side * side,
                side * side <= usize::MAX,
                out@.len() == y * side + x,
                forall|k: int|
                    0 <= k < out@.len() ==> #[trigger] out@[k] == buf@[rotated_source(
                        side as int,
                        k,
                    )],
            decreases side - x,
        {
            proof {
                assert((x as int) * (side as int) + (side as int) <= (side as int) * (side as int))
                    by (nonlinear_arith)
                    requires
                        0 <= x < side,
                ;
                assert((y as int) * (side as int) + (side as int) <= (side as int) * (side as int))
                    by (nonlinear_arith)
                    requires
                        0 <= y < side,
                ;
                lemma_fundamental_div_mod_converse(
                    (y as int) * (side as int) + (x as int),
                    side as int,
                    y as int,
                    x as int,
                );
            }
            let src: usize = x * side + (side - 1 - y);
            out.push(buf[src]);
            x = x + 1;
        }
        proof {
            assert((y as int) * (side as int) + (side as int) == ((y + 1) as int) * (side as int))
                by (nonlinear_arith);
        }
        y = y + 1;
    }
    proof {
        if side == 0 {
            assert(0int * 0 == 0) by (nonlinear_arith);
        }
    }
    out
}

/// Gray level of output pixel `k` of the finished rendering of `heights`
/// as a square raster of side `side`: the normalized elevation of the
/// rotated source point.
pub open spec fn rendered_pixel(heights: Seq<i64>, side: int, k: int) -> int {
    let h = heights[rotated_source(side, k)] as int;
    if seq_min(heights) == seq_max(heights) {
        MID_GRAY as int
    } else {
        norm_level(h, seq_min(heights), seq_max(heights))
    }
}

/// Renders the accumulated elevations as a square grayscale raster of side
/// `side`: normalizes them to 8-bit intensities and rotates the raster a
/// quarter turn counter-clockwise. Fails if the flat height buffer does
/// not hold exactly `side * side` values.
pub fn render_image(heights: &Vec<i64>, side: usize) -> (r: Result<Vec<u8>, RenderError>)
    requires
        forall|i: int|
            0 <= i < heights@.len() ==> -HEIGHT_LIMIT <= #[trigger] heights@[i] <= HEIGHT_LIMIT,
    ensures
        match r {
            Ok(img) => {
                &&& heights@.len() == side * side
                &&& img@.len() == side * side
                &&& forall|k: int|
                    0 <= k < img@.len() ==> #[trigger] img@[k] as int == rendered_pixel(
                        heights@,
                        side as int,
                        k,
                    )
            },
            Err(e) => heights@.len() != side * side && e == RenderError::ShapeMismatch,
        },
{
    proof {
        if side > 0 {
            assert((side as int) * (side as int) > 0) by (nonlinear_arith)
                requires
                    side >= 1,
            ;
        } else {
            assert(0int * 0 == 0) by (nonlinear_arith);
        }
    }
    let hlen: usize = heights.len();
    let shape_ok: bool = match side.checked_mul(side) {
        Some(expected) => hlen == expected,
        None => false,
    };
    if !shape_ok {
        return Err(RenderError::ShapeMismatch);
    }
    if side == 0 {
        return Ok(Vec::new());
    }
    let flat = normalize_heights(heights);
    let img = rotate_ccw(&flat, side);
    proof {
        assert forall|k: int| 0 <= k < img@.len() implies #[trigger] img@[k] as int
            == rendered_pixel(heights@, side as int, k) by {
            let s = side as int;
            vstd::arithmetic::div_mod::lemma_mod_division_less_than_divisor(k, s);
            lemma_fundamental_div_mod(k, s);
            assert(0 <= k / s < s) by (nonlinear_arith)
                requires
                    0 <= k < s * s,
                    s > 0,
                    k == s * (k / s) + k % s,
                    0 <= k % s < s,
            ;
            assert(0 <= rotated_source(s, k) < s * s) by (nonlinear_arith)
                requires
                    0 <= k % s < s,
                    0 <= k / s < s,
                    rotated_source(s, k) == (k % s) * s + (s - 1 - k / s),
            ;
        }
    }
    Ok(img)
}

} // verus!
