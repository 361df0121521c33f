//! The power of a subsystem that has no sensor of its own, taken as what
//! is left of a total once the known components are subtracted.

use crate::aggregate::{lemma_sum_bounds, sum_of};
use vstd::prelude::*;

verus! {

/// What is left of `total` after `components`, never less than nothing.
pub open spec fn residual(total: int, components: Seq<i64>) -> int {
    if total - sum_of(components) > 0 {
        total - sum_of(components)
    } else {
        0
    }
}

/// A reading that could not be had counts as zero.
pub open spec fn or_zero(reading: Option<i64>) -> i64 {
    match reading {
        Some(v) => v,
        None => 0,
    }
}

/// The readings with zero in place of each one that could not be had.
pub open spec fn all_or_zero(readings: Seq<Option<i64>>) -> Seq<i64> {
    Seq::new(readings.len(), |i: int| or_zero(readings[i]))
}

/// A residual is never negative, and is nothing as soon as the components
/// reach the total.
pub proof fn lemma_residual_non_negative(total: int, components: Seq<i64>)
    ensures
        residual(total, components) >= 0,
        sum_of(components) >= total ==> residual(total, components) == 0,
        sum_of(components) < total ==> residual(total, components) == total - sum_of(components),
{
}

/// The power left of `total` once every component is subtracted, in the
/// unit of the inputs and without rounding; zero where the components
/// come to `total` or more. The result is wide enough for any inputs.
pub fn residual_power(total: i64, components: &[i64]) -> (rest: i128)
    ensures
        rest == residual(total as int, components@),
        rest >= 0,
{
    let mut sum: i128 = 0;
    let mut i: usize = 0;
    assert(components@.take(0) =~= Seq::<i64>::empty());
    while i < components.len()
        invariant
            i <= components.len(),
            sum == sum_of(components@.take(i as int)),
        decreases components.len() - i,
    {
        proof {
            let now = components@.take(i + 1);
            assert(now.drop_last() =~= components@.take(i as int));
            lemma_sum_bounds(components@.take(i as int), i64::MIN as int, i64::MAX as int);
            assert(usize::MAX <= 0xFFFF_FFFF_FFFF_FFFF);
        }
        sum = sum + components[i] as i128;
        i += 1;
    }
    proof {
        assert(components@.take(i as int) =~= components@);
        lemma_sum_bounds(components@, i64::MIN as int, i64::MAX as int);
        assert(usize::MAX <= 0xFFFF_FFFF_FFFF_FFFF);
    }
    let rest: i128 = total as i128 - sum;
    if rest > 0 {
        rest
    } else {
        0
    }
}

/// The residual of readings of which some may be missing: a missing
/// total or component counts as zero.
pub fn residual_of_readings(total: Option<i64>, components: &[Option<i64>]) -> (rest: i128)
    ensures
        rest == residual(or_zero(total) as int, all_or_zero(components@)),
        rest >= 0,
{
    let mut values: Vec<i64> = Vec::new();
    let mut i: usize = 0;
    while i < components.len()
        invariant
            i <= components.len(),
            values@ == all_or_zero(components@.take(i as int)),
        decreases components.len() - i,
    {
        let v: i64 = match components[i] {
            Some(v) => v,
            None => 0,
        };
        values.push(v);
        assert(values@ =~= all_or_zero(components@.take(i + 1)));
        i += 1;
    }
    assert(components@.take(i as int) =~= components@);
    let base: i64 = match total {
        Some(v) => v,
        None => 0,
    };
    residual_power(base, values.as_slice())
}

/// A residual as a sample for the change detector: the value itself where
/// it fits, the largest sample where it does not.
pub fn residual_sample(rest: i128) -> (sample: i64)
    ensures
        i64::MIN <= rest <= i64::MAX ==> sample == rest,
        rest > i64::MAX ==> sample == i64::MAX,
        rest < i64::MIN ==> sample == i64::MIN,
{
    if rest > i64::MAX as i128 {
        i64::MAX
    } else if rest < i64::MIN as i128 {
        i64::MIN
    } else {
        rest as i64
    }
}

} // verus!
