use vstd::prelude::*;

pub mod grammar;
pub mod rules;
pub mod turtle;

verus! {

/// Multiplies a step length by the ratio `num / den`, rounding down.
pub fn scale(step_length: u64, num: u64, den: u64) -> (r: u64)
    requires
        den > 0,
        (step_length as int) * (num as int) / (den as int) <= u64::MAX,
    ensures
        r as int == (step_length as int) * (num as int) / (den as int),
{
    assert((step_length as int) * (num as int) <= (u64::MAX as int) * (u64::MAX as int))
        by (nonlinear_arith)
        requires step_length <= u64::MAX, num <= u64::MAX, step_length >= 0, num >= 0;
    let p: u128 = (step_length as u128) * (num as u128);
    (p / (den as u128)) as u64
}

} // verus!
