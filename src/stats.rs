//! Nearest-rank summary statistics of trial values.

use vstd::prelude::*;

verus! {

/// The rank selected for the `pct`-th percentile of `n` sorted values:
/// `(n - 1) * pct / 100` rounded to the nearest integer, a tie going to the
/// even rank.
pub open spec fn percentile_rank(n: nat, pct: nat) -> nat {
    let x = (n - 1) * pct;
    let q = x / 100;
    let rem = x % 100;
    if rem < 50 {
        q as nat
    } else if rem > 50 {
        (q + 1) as nat
    } else if q % 2 == 0 {
        q as nat
    } else {
        (q + 1) as nat
    }
}

/// Mean and percentiles of a set of trial values. The percentile names
/// follow the exceedance convention of reserve estimates: `p90` is the value
/// that nine trials in ten reach or exceed, that is the 10th percentile of
/// the sorted values, and `p10` the 90th.
#[derive(Debug, PartialEq)]
pub struct Stats<T> {
    pub mean: T,
    pub p90: T,
    pub p50: T,
    pub p10: T,
}

/// Why no statistics could be extracted.
#[derive(Debug, Clone, Copy, PartialEq, Eq)]
pub enum StatsError {
    /// There were no values.
    EmptyInput,
}

/// The index of the `pct`-th percentile among `n` sorted values.
pub fn percentile_index(n: usize, pct: u64) -> (r: usize)
    requires
        n > 0,
        pct <= 100,
    ensures
        r == percentile_rank(n as nat, pct as nat),
        r < n,
{
    let m: u128 = n as u128 - 1;
    let p: u128 = pct as u128;
    proof {
        assert(m * p <= m * 100) by (nonlinear_arith)
            requires
                p <= 100,
        ;
        assert(m * 100 <= 0x1_0000_0000_0000_0000 * 100) by (nonlinear_arith)
            requires
                m < 0x1_0000_0000_0000_0000,
        ;
    }
    let x: u128 = m * p;
    let q: u128 = x / 100;
    let rem: u128 = x % 100;
    let r: u128 = if rem < 50 {
        q
    } else if rem > 50 {
        q + 1
    } else if q % 2 == 0 {
        q
    } else {
        q + 1
    };
    proof {
        assert(x == (n - 1) * pct);
        if r > q {
            assert(q * 100 + rem == x);
            assert(rem > 0);
            assert(q < n - 1) by (nonlinear_arith)
                requires
                    q * 100 + rem == x,
                    rem > 0,
                    x <= (n - 1) * 100,
            ;
        } else {
            assert(q <= n - 1) by (nonlinear_arith)
                requires
                    q == x / 100,
                    x <= (n - 1) * 100,
            ;
        }
    }
    r as usize
}

/// Mean and percentiles of values already sorted in ascending order, the
/// mean computed by the caller: `p90`, `p50` and `p10` are the values at the
/// ranks of the 10th, 50th and 90th percentiles.
pub fn rank_stats<T: Copy>(sorted: &Vec<T>, mean: T) -> (r: Result<Stats<T>, StatsError>)
    ensures
        r is Err <==> sorted@.len() == 0,
        r matches Err(e) ==> e == StatsError::EmptyInput,
        r matches Ok(s) ==> s.mean == mean
            && s.p90 == sorted@[percentile_rank(sorted@.len(), 10) as int]
            && s.p50 == sorted@[percentile_rank(sorted@.len(), 50) as int]
            && s.p10 == sorted@[percentile_rank(sorted@.len(), 90) as int],
{
    let n = sorted.len();
    if n == 0 {
        return Err(StatsError::EmptyInput);
    }
    let i90 = percentile_index(n, 10);
    let i50 = percentile_index(n, 50);
    let i10 = percentile_index(n, 90);
    Ok(Stats { mean, p90: sorted[i90], p50: sorted[i50], p10: sorted[i10] })
}

} // verus!
