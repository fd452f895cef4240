//! Points arithmetic: time deductions and the trimmed sum of judges' scores.
//!
//! All points are held as whole hundredths of a point: a judge's 9.5 is `950`,
//! a half-point deduction is `50`.

use vstd::prelude::*;

verus! {

/// Longest performance, in seconds, that carries no deduction.
pub const TIME_LIMIT_SECONDS: i32 = 190;

/// Length, in seconds, of one block of overtime.
pub const OVERTIME_BLOCK_SECONDS: i32 = 10;

/// Hundredths of a point deducted for each full block of overtime.
pub const DEDUCTION_PER_BLOCK: i64 = 50;

/// Number of scores at which a performance's result is computed.
pub const SCORES_PER_RESULT: usize = 5;

/// The deduction for a performance of `length` seconds: half a point for each
/// full ten seconds over the limit, and none at or under the limit.
pub open spec fn deduction_of(length: int) -> Option<int> {
    if length > TIME_LIMIT_SECONDS {
        Some(((length - TIME_LIMIT_SECONDS) / (OVERTIME_BLOCK_SECONDS as int)) * DEDUCTION_PER_BLOCK)
    } else {
        None
    }
}

/// Sum of a sequence of scores.
pub open spec fn sum_of(s: Seq<i32>) -> int
    decreases s.len(),
{
    if s.len() == 0 {
        0
    } else {
        sum_of(s.drop_last()) + s.last() as int
    }
}

/// Lowest of a non-empty sequence of scores.
pub open spec fn min_of(s: Seq<i32>) -> int
    decreases s.len(),
{
    if s.len() <= 1 {
        s[0] as int
    } else {
        let m = min_of(s.drop_last());
        if (s.last() as int) < m { s.last() as int } else { m }
    }
}

/// Highest of a non-empty sequence of scores.
pub open spec fn max_of(s: Seq<i32>) -> int
    decreases s.len(),
{
    if s.len() <= 1 {
        s[0] as int
    } else {
        let m = max_of(s.drop_last());
        if (s.last() as int) > m { s.last() as int } else { m }
    }
}

/// The result of a set of scores: the sum of all but one lowest and one
/// highest score (for five scores, the sum of the middle three in ascending
/// order; it is deliberately a sum, not a mean).
pub open spec fn trimmed_sum(s: Seq<i32>) -> int {
    sum_of(s) - min_of(s) - max_of(s)
}

/// Time deduction, in hundredths of a point, for a performance of `length`
/// seconds; `None` at or under the limit.
pub fn time_deduction(length: i32) -> (r: Option<i64>)
    ensures
        r matches Some(d) ==> deduction_of(length as int) == Some(d as int),
        r is None ==> deduction_of(length as int) is None,
{
    if length > TIME_LIMIT_SECONDS {
        let over: i64 = (length as i64) - (TIME_LIMIT_SECONDS as i64);
        let blocks: i64 = over / (OVERTIME_BLOCK_SECONDS as i64);
        assert(0 <= blocks <= over) by (nonlinear_arith)
            requires over >= 0, blocks == over / 10;
        Some(blocks * DEDUCTION_PER_BLOCK)
    } else {
        None
    }
}

/// Trimmed sum of a performance's scores: drops one lowest and one highest
/// value and adds up the rest.
pub fn trimmed_score(values: &Vec<i32>) -> (r: i64)
    requires
        values@.len() == SCORES_PER_RESULT,
    ensures
        r as int == trimmed_sum(values@),
{
    let mut total: i64 = 0;
    let mut low: i32 = values[0];
    let mut high: i32 = values[0];
    let mut i: usize = 0;
    while i < values.len()
        invariant
            values@.len() == SCORES_PER_RESULT,
            0 <= i <= values@.len(),
            total as int == sum_of(values@.take(i as int)),
            -0x8000_0000 * (i as int) <= total <= 0x7fff_ffff * (i as int),
            i > 0 ==> low as int == min_of(values@.take(i as int)),
            i > 0 ==> high as int == max_of(values@.take(i as int)),
            i == 0 ==> low == values@[0] && high == values@[0],
        decreases values@.len() - i,
    {
        let v = values[i];
        proof {
            assert(values@.take(i as int + 1).drop_last() =~= values@.take(i as int));
        }
        total = total + v as i64;
        if i == 0 || v < low {
            low = v;
        }
        if i == 0 || v > high {
            high = v;
        }
        i = i + 1;
    }
    proof {
        assert(values@.take(values@.len() as int) =~= values@);
    }
    total - low as i64 - high as i64
}

} // verus!
