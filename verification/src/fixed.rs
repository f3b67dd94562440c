use vstd::prelude::*;

verus! {

/// Number of atomic units in one whole: ratios are fixed-point values with
/// 18 decimal places, stored as their atomic count.
pub const RATIO_ONE: u128 = 1_000_000_000_000_000_000;

/// Atomics of the ratio `num / den`, rounded toward zero.
pub open spec fn ratio_floor(num: int, den: int) -> int {
    num * (RATIO_ONE as int) / den
}

/// `amount` scaled by a ratio given in atomics, rounded toward zero.  This
/// is the single truncating multiply used everywhere reward arithmetic
/// happens, so residuals are never negative.
pub open spec fn mul_ratio_floor(amount: int, ratio: int) -> int {
    amount * ratio / (RATIO_ONE as int)
}

/// Relies on `cosmwasm_std::Decimal::from_ratio`: the atomics of the
/// resulting decimal are `numerator * 10^18 / denominator`, floored.  It
/// panics on a zero denominator or on overflow, so those inputs are
/// excluded here.
#[verifier::external_body]
pub(crate) fn decimal_from_ratio(num: u128, den: u128) -> (r: u128)
    requires
        den != 0,
        ratio_floor(num as int, den as int) <= u128::MAX,
    ensures
        r == ratio_floor(num as int, den as int),
{
    cosmwasm_std::Decimal::from_ratio(num, den).atomics().u128()
}

/// Relies on `cosmwasm_std::Uint128 * cosmwasm_std::Decimal`: the product
/// is `amount * atomics / 10^18`, floored.  It panics when the result does
/// not fit in 128 bits, so that input is excluded here.
#[verifier::external_body]
pub(crate) fn decimal_mul_floor(amount: u128, ratio: u128) -> (r: u128)
    requires
        mul_ratio_floor(amount as int, ratio as int) <= u128::MAX,
    ensures
        r == mul_ratio_floor(amount as int, ratio as int),
{
    (cosmwasm_std::Uint128::new(amount) * cosmwasm_std::Decimal::raw(ratio)).u128()
}

/// Ratio atomics for `p` percent, as `cosmwasm_std::Decimal::percent` makes
/// them.
pub fn percent(p: u64) -> (r: u128)
    ensures
        r == p as int * 10_000_000_000_000_000,
{
    proof {
        assert((p as int) * 10_000_000_000_000_000 <= (u64::MAX as int) * 10_000_000_000_000_000)
            by (nonlinear_arith)
            requires p <= u64::MAX;
    }
    (p as u128) * 10_000_000_000_000_000u128
}

} // verus!
