//! Wire encoding of a batch: each coordinate is rendered as a decimal
//! degree value with six fractional digits, and the batch becomes two
//! pipe-delimited lists (longitudes and latitudes) in point order, ready to
//! be placed in the `lon=` and `lat=` query parameters of the remote
//! elevation request.

use vstd::prelude::*;

verus! {

/// Number of fractional digits of a rendered coordinate; matches the
/// fixed-point scale of one millionth of a degree.
pub const COORD_FRAC_DIGITS: usize = 6;

/// ASCII bytes of `n` in decimal, most significant digit first, no leading
/// zeros (a single `0` for zero).
pub open spec fn dec_digits(n: nat) -> Seq<u8>
    decreases n,
{
    if n < 10 {
        seq![(48 + n) as u8]
    } else {
        dec_digits(n / 10) + seq![(48 + n % 10) as u8]
    }
}

/// ASCII bytes of `n` in decimal, zero-padded on the left to exactly
/// `width` digits (the `width` lowest digits of `n`).
pub open spec fn dec_digits_fixed(n: nat, width: nat) -> Seq<u8>
    decreases width,
{
    if width == 0 {
        Seq::empty()
    } else {
        dec_digits_fixed(n / 10, (width - 1) as nat) + seq![(48 + n % 10) as u8]
    }
}

/// ASCII bytes of the fixed-point coordinate `v` (millionths of a degree)
/// as a decimal degree value: optional minus sign, integer degrees, a dot,
/// and six fractional digits.
pub open spec fn dec_coord(v: int) -> Seq<u8> {
    let m = if v < 0 {
        -v
    } else {
        v
    };
    let sign: Seq<u8> = if v < 0 {
        seq![45u8]
    } else {
        Seq::empty()
    };
    sign + dec_digits((m / 1_000_000) as nat) + seq![46u8] + dec_digits_fixed(
        (m % 1_000_000) as nat,
        COORD_FRAC_DIGITS as nat,
    )
}

/// Renders `n` in decimal.
fn push_decimal(out: &mut Vec<u8>, n: u64)
    ensures
        final(out)@ == old(out)@ + dec_digits(n as nat),
    decreases n,
{
    if n < 10 {
        out.push(48 + (n as u8));
    } else {
        push_decimal(out, n / 10);
        out.push(48 + ((n % 10) as u8));
    }
}

/// Renders the `width` lowest decimal digits of `n`, zero-padded.
fn push_decimal_fixed(out: &mut Vec<u8>, n: u64, width: usize)
    ensures
        final(out)@ == old(out)@ + dec_digits_fixed(n as nat, width as nat),
    decreases width,
{
    if width > 0 {
        push_decimal_fixed(out, n / 10, width - 1);
        out.push(48 + ((n % 10) as u8));
    }
}

/// Renders one fixed-point coordinate as a decimal degree value.
fn push_coord(out: &mut Vec<u8>, v: i64)
    requires
        i64::MIN < v,
    ensures
        final(out)@ == old(out)@ + dec_coord(v as int),
{
    let m: u64 = if v < 0 {
        out.push(45);
        (-v) as u64
    } else {
        v as u64
    };
    push_decimal(out, m / 1_000_000);
    out.push(46);
    push_decimal_fixed(out, m % 1_000_000, COORD_FRAC_DIGITS);
    proof {
        assert(final(out)@ =~= old(out)@ + dec_coord(v as int));
    }
}

/// The pipe-delimited list of rendered values: one rendering per value, a
/// `|` between neighbours, nothing before the first or after the last.
pub open spec fn piped_coords(vals: Seq<int>) -> Seq<u8>
    decreases vals.len(),
{
    if vals.len() == 0 {
        Seq::empty()
    } else if vals.len() == 1 {
        dec_coord(vals[0])
    } else {
        piped_coords(vals.drop_last()) + seq![124u8] + dec_coord(vals.last())
    }
}

/// The longitudes of a batch, in point order.
pub open spec fn batch_lons(batch: Seq<(i64, i64)>) -> Seq<int> {
    batch.map_values(|p: (i64, i64)| p.0 as int)
}

/// The latitudes of a batch, in point order.
pub open spec fn batch_lats(batch: Seq<(i64, i64)>) -> Seq<int> {
    batch.map_values(|p: (i64, i64)| p.1 as int)
}

/// Serializes a batch of sample points into the two pipe-delimited
/// coordinate lists of the remote query, both in the batch's point order:
/// the remote service answers with one elevation per point, in this order.
pub fn batch_query_lists(batch: &Vec<(i64, i64)>) -> (r: (Vec<u8>, Vec<u8>))
    requires
        forall|k: int|
            0 <= k < batch@.len() ==> i64::MIN < #[trigger] batch@[k].0 && i64::MIN
                < batch@[k].1,
    ensures
        r.0@ == piped_coords(batch_lons(batch@)),
        r.1@ == piped_coords(batch_lats(batch@)),
{
    let mut lons: Vec<u8> = Vec::new();
    let mut lats: Vec<u8> = Vec::new();
    let mut k: usize = 0;
    while k < batch.len()
        invariant
            0 <= k <= batch@.len(),
            forall|j: int|
                0 <= j < batch@.len() ==> i64::MIN < #[trigger] batch@[j].0 && i64::MIN
                    < batch@[j].1,
            lons@ == piped_coords(batch_lons(batch@.take(k as int))),
            lats@ == piped_coords(batch_lats(batch@.take(k as int))),
        decreases batch@.len() - k,
    {
        if k > 0 {
            lons.push(124);
            lats.push(124);
        }
        let p = batch[k];
        push_coord(&mut lons, p.0);
        push_coord(&mut lats, p.1);
        proof {
            let prev = batch@.take(k as int);
            let cur = batch@.take(k + 1);
            assert(batch_lons(cur).drop_last() =~= batch_lons(prev));
            assert(batch_lats(cur).drop_last() =~= batch_lats(prev));
            assert(batch_lons(cur).last() == batch@[k as int].0 as int);
            assert(batch_lats(cur).last() == batch@[k as int].1 as int);
        }
        k = k + 1;
    }
    proof {
        assert(batch@.take(batch@.len() as int) =~= batch@);
    }
    (lons, lats)
}

/// ASCII bytes of `lon=`.
pub open spec fn lon_key() -> Seq<u8> {
    seq![108u8, 111u8, 110u8, 61u8]
}

/// ASCII bytes of `&lat=`.
pub open spec fn lat_key() -> Seq<u8> {
    seq![38u8, 108u8, 97u8, 116u8, 61u8]
}

/// ASCII bytes of `&zonly=true`, the flag that asks the remote service for
/// elevation-only output.
pub open spec fn zonly_flag() -> Seq<u8> {
    seq![38u8, 122u8, 111u8, 110u8, 108u8, 121u8, 61u8, 116u8, 114u8, 117u8, 101u8]
}

/// The whole query fragment of one remote request for `batch`:
/// `lon=<v>|<v>|...&lat=<v>|<v>|...&zonly=true`, both lists in point order.
pub open spec fn elevation_query_bytes(batch: Seq<(i64, i64)>) -> Seq<u8> {
    lon_key() + piped_coords(batch_lons(batch)) + lat_key() + piped_coords(batch_lats(batch))
        + zonly_flag()
}

/// Frames one batch as the query fragment of the remote elevation request.
#[verifier::rlimit(50)]
pub fn elevation_query(batch: &Vec<(i64, i64)>) -> (out: Vec<u8>)
    requires
        forall|k: int|
            0 <= k < batch@.len() ==> i64::MIN < #[trigger] batch@[k].0 && i64::MIN
                < batch@[k].1,
    ensures
        out@ == elevation_query_bytes(batch@),
{
    let (mut lons, mut lats) = batch_query_lists(batch);
    let mut out: Vec<u8> = Vec::new();
    out.push(108);
    out.push(111);
    out.push(110);
    out.push(61);
    proof {
        assert(out@ =~= lon_key());
    }
    out.append(&mut lons);
    out.push(38);
    out.push(108);
    out.push(97);
    out.push(116);
    out.push(61);
    proof {
        assert(out@ =~= lon_key() + piped_coords(batch_lons(batch@)) + lat_key());
    }
    out.append(&mut lats);
    out.push(38);
    out.push(122);
    out.push(111);
    out.push(110);
    out.push(108);
    out.push(121);
    out.push(61);
    out.push(116);
    out.push(114);
    out.push(117);
    out.push(101);
    proof {
        assert(out@ =~= elevation_query_bytes(batch@));
    }
    out
}

} // verus!
