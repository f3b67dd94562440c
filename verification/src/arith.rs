use vstd::prelude::*;
use vstd::arithmetic::div_mod::{
    lemma_fundamental_div_mod, lemma_div_is_ordered, lemma_div_multiples_vanish,
    lemma_div_pos_is_pos, lemma_mod_pos_bound,
};
use vstd::arithmetic::mul::{
    lemma_mul_inequality, lemma_mul_nonnegative, lemma_mul_is_commutative,
    lemma_mul_is_distributive_add_other_way, lemma_mul_is_distributive_add,
};
use crate::fixed::{RATIO_ONE, ratio_floor, mul_ratio_floor};

verus! {

/// A floored ratio multiply never goes negative.
pub proof fn lemma_mul_ratio_floor_nonneg(amount: int, ratio: int)
    requires
        amount >= 0,
        ratio >= 0,
    ensures
        mul_ratio_floor(amount, ratio) >= 0,
{
    lemma_mul_nonnegative(amount, ratio);
    lemma_div_pos_is_pos(amount * ratio, RATIO_ONE as int);
}

/// A ratio of at most one never pays out more than the amount it scales.
pub proof fn lemma_mul_ratio_floor_le(amount: int, ratio: int)
    requires
        amount >= 0,
        0 <= ratio <= RATIO_ONE,
    ensures
        mul_ratio_floor(amount, ratio) <= amount,
{
    let e = RATIO_ONE as int;
    lemma_mul_inequality(ratio, e, amount);
    lemma_mul_is_commutative(ratio, amount);
    lemma_mul_is_commutative(e, amount);
    lemma_div_is_ordered(amount * ratio, amount * e, e);
    lemma_mul_is_commutative(amount, e);
    lemma_div_multiples_vanish(amount, e);
}

/// Summing two floored quotients stays at or below the floored quotient of
/// the sum.
pub proof fn lemma_div_sum_le(a: int, b: int, d: int)
    requires
        a >= 0,
        b >= 0,
        d > 0,
    ensures
        a / d + b / d <= (a + b) / d,
{
    lemma_fundamental_div_mod(a, d);
    lemma_fundamental_div_mod(b, d);
    lemma_mod_pos_bound(a, d);
    lemma_mod_pos_bound(b, d);
    let q = a / d + b / d;
    assert(d * q == d * (a / d) + d * (b / d)) by {
        lemma_mul_is_distributive_add_other_way(d, a / d, b / d);
        lemma_mul_is_commutative(d, a / d);
        lemma_mul_is_commutative(d, b / d);
        lemma_mul_is_commutative(d, q);
    }
    assert(d * q <= a + b);
    lemma_div_pos_is_pos(a, d);
    lemma_div_pos_is_pos(b, d);
    lemma_div_multiples_vanish(q, d);
    lemma_div_is_ordered(d * q, a + b, d);
}

/// Scaling a total stake by the ratio that was derived from it recovers at
/// most the settled amount: `floor(total * floor(amount*E/total) / E)` is
/// at most `amount`.
pub proof fn lemma_ratio_floor_recover(total: int, amount: int)
    requires
        total > 0,
        amount >= 0,
    ensures
        mul_ratio_floor(total, ratio_floor(amount, total)) <= amount,
        ratio_floor(amount, total) >= 0,
{
    let e = RATIO_ONE as int;
    let r = ratio_floor(amount, total);
    lemma_mul_nonnegative(amount, e);
    lemma_div_pos_is_pos(amount * e, total);
    lemma_fundamental_div_mod(amount * e, total);
    lemma_mod_pos_bound(amount * e, total);
    assert(total * r <= amount * e);
    lemma_div_is_ordered(total * r, amount * e, e);
    lemma_div_multiples_vanish(amount, e);
    lemma_mul_is_commutative(amount, e);
}

/// Total of a list of stakes.
pub open spec fn sum_u128(ws: Seq<u128>) -> int
    decreases ws.len(),
{
    if ws.len() == 0 {
        0
    } else {
        sum_u128(ws.drop_last()) + ws.last()
    }
}

/// A total of stakes is never negative.
pub proof fn lemma_sum_u128_nonneg(ws: Seq<u128>)
    ensures
        sum_u128(ws) >= 0,
    decreases ws.len(),
{
    if ws.len() > 0 {
        lemma_sum_u128_nonneg(ws.drop_last());
    }
}

/// Replacing one element changes the total by the difference.
pub proof fn lemma_sum_u128_update(vs: Seq<u128>, i: int, x: u128)
    requires
        0 <= i < vs.len(),
    ensures
        sum_u128(vs.update(i, x)) == sum_u128(vs) - vs[i] + x,
    decreases vs.len(),
{
    let upd = vs.update(i, x);
    if i == vs.len() - 1 {
        assert(upd.drop_last() =~= vs.drop_last());
        assert(upd.last() == x);
    } else {
        assert(upd.drop_last() =~= vs.drop_last().update(i, x));
        lemma_sum_u128_update(vs.drop_last(), i, x);
        assert(upd.last() == vs.last());
    }
}

/// Appending an element adds it to the total.
pub proof fn lemma_sum_u128_push(vs: Seq<u128>, x: u128)
    ensures
        sum_u128(vs.push(x)) == sum_u128(vs) + x,
{
    assert(vs.push(x).drop_last() =~= vs);
    assert(vs.push(x).last() == x);
}

/// No element exceeds the total.
pub proof fn lemma_sum_u128_element_le(vs: Seq<u128>, i: int)
    requires
        0 <= i < vs.len(),
    ensures
        vs[i] <= sum_u128(vs),
    decreases vs.len(),
{
    lemma_sum_u128_nonneg(vs.drop_last());
    if i == vs.len() - 1 {
    } else {
        lemma_sum_u128_element_le(vs.drop_last(), i);
    }
}

/// Total of the floored payouts of a list of stakes at one ratio.
pub open spec fn sum_payouts(ws: Seq<u128>, ratio: u128) -> int
    decreases ws.len(),
{
    if ws.len() == 0 {
        0
    } else {
        sum_payouts(ws.drop_last(), ratio) + mul_ratio_floor(ws.last() as int, ratio as int)
    }
}

/// The floored payouts of many stakes never exceed the floored payout of
/// their total.
pub proof fn lemma_sum_payouts_le(ws: Seq<u128>, ratio: u128)
    ensures
        0 <= sum_payouts(ws, ratio),
        sum_payouts(ws, ratio) <= mul_ratio_floor(sum_u128(ws), ratio as int),
    decreases ws.len(),
{
    if ws.len() == 0 {
        lemma_mul_ratio_floor_nonneg(0, ratio as int);
    } else {
        let rest = ws.drop_last();
        lemma_sum_payouts_le(rest, ratio);
        lemma_sum_u128_nonneg(rest);
        lemma_mul_ratio_floor_nonneg(ws.last() as int, ratio as int);
        lemma_mul_nonnegative(sum_u128(rest), ratio as int);
        lemma_mul_nonnegative(ws.last() as int, ratio as int);
        lemma_div_sum_le(sum_u128(rest) * ratio, ws.last() * ratio, RATIO_ONE as int);
        assert(sum_u128(rest) * ratio + ws.last() * ratio == sum_u128(ws) * ratio) by {
            lemma_mul_is_distributive_add_other_way(ratio as int, sum_u128(rest), ws.last() as int);
            lemma_mul_is_commutative(ratio as int, sum_u128(rest));
            lemma_mul_is_commutative(ratio as int, ws.last() as int);
            lemma_mul_is_commutative(ratio as int, sum_u128(ws));
        }
    }
}

/// Conservation of a settled round.  When a round is settled with `amount`
/// against a total stake that is the sum of the individual stakes, the
/// stored ratio is `amount / total` (floored to atomics), and the floored
/// payouts of all stakers together never exceed the settled amount and are
/// never negative.
pub proof fn lemma_round_conservation(ws: Seq<u128>, total: u128, amount: u128)
    requires
        sum_u128(ws) == total,
        total > 0,
        ratio_floor(amount as int, total as int) <= u128::MAX,
    ensures
        0 <= sum_payouts(ws, (ratio_floor(amount as int, total as int)) as u128),
        sum_payouts(ws, (ratio_floor(amount as int, total as int)) as u128) <= amount,
        ratio_floor(amount as int, total as int) >= 0,
{
    let r = ratio_floor(amount as int, total as int);
    lemma_ratio_floor_recover(total as int, amount as int);
    lemma_sum_payouts_le(ws, r as u128);
    assert(sum_payouts(ws, r as u128) <= mul_ratio_floor(total as int, r));
}

/// A floored ratio multiply grows with the ratio.
pub proof fn lemma_mul_ratio_floor_mono(amount: int, r1: int, r2: int)
    requires
        amount >= 0,
        0 <= r1 <= r2,
    ensures
        mul_ratio_floor(amount, r1) <= mul_ratio_floor(amount, r2),
{
    lemma_mul_inequality(r1, r2, amount);
    lemma_mul_is_commutative(r1, amount);
    lemma_mul_is_commutative(r2, amount);
    lemma_div_is_ordered(amount * r1, amount * r2, RATIO_ONE as int);
}

/// Total of the floored payouts of one amount at a list of ratios.
pub open spec fn sum_scaled(amount: u128, rs: Seq<u128>) -> int
    decreases rs.len(),
{
    if rs.len() == 0 {
        0
    } else {
        sum_scaled(amount, rs.drop_last()) + mul_ratio_floor(amount as int, rs.last() as int)
    }
}

/// The floored payouts at many ratios never exceed the floored payout at
/// their combined ratio.
pub proof fn lemma_sum_scaled_le(amount: u128, rs: Seq<u128>)
    ensures
        0 <= sum_scaled(amount, rs),
        sum_scaled(amount, rs) <= mul_ratio_floor(amount as int, sum_u128(rs)),
    decreases rs.len(),
{
    if rs.len() == 0 {
        lemma_mul_ratio_floor_nonneg(amount as int, 0);
        lemma_sum_u128_nonneg(rs);
        lemma_mul_nonnegative(amount as int, sum_u128(rs));
        lemma_div_pos_is_pos(amount * sum_u128(rs), RATIO_ONE as int);
    } else {
        let rest = rs.drop_last();
        lemma_sum_scaled_le(amount, rest);
        lemma_sum_u128_nonneg(rest);
        lemma_mul_ratio_floor_nonneg(amount as int, rs.last() as int);
        lemma_mul_nonnegative(amount as int, sum_u128(rest));
        lemma_mul_nonnegative(amount as int, rs.last() as int);
        lemma_div_sum_le(amount * sum_u128(rest), amount * (rs.last() as int), RATIO_ONE as int);
        assert(amount * sum_u128(rest) + amount * (rs.last() as int) == amount * sum_u128(rs)) by {
            lemma_mul_is_distributive_add(amount as int, sum_u128(rest), rs.last() as int);
        }
    }
}

/// A prefix of a list of stakes never sums to more than the whole list.
pub proof fn lemma_sum_u128_take_le(vs: Seq<u128>, i: int)
    requires
        0 <= i <= vs.len(),
    ensures
        sum_u128(vs.take(i)) <= sum_u128(vs),
    decreases vs.len(),
{
    if i == vs.len() {
        assert(vs.take(i) =~= vs);
    } else {
        assert(vs.take(i) =~= vs.drop_last().take(i));
        lemma_sum_u128_take_le(vs.drop_last(), i);
    }
}

/// Extending a prefix of ratios by one adds that ratio's floored payout.
pub proof fn lemma_sum_scaled_step(amount: u128, rs: Seq<u128>, i: int)
    requires
        0 <= i < rs.len(),
    ensures
        sum_scaled(amount, rs.take(i + 1)) == sum_scaled(amount, rs.take(i))
            + mul_ratio_floor(amount as int, rs[i] as int),
{
    assert(rs.take(i + 1).drop_last() =~= rs.take(i));
    assert(rs.take(i + 1).last() == rs[i]);
}

/// Removing one element subtracts it from the total.
pub proof fn lemma_sum_u128_remove(vs: Seq<u128>, i: int)
    requires
        0 <= i < vs.len(),
    ensures
        sum_u128(vs.remove(i)) == sum_u128(vs) - vs[i],
    decreases vs.len(),
{
    let rem = vs.remove(i);
    if i == vs.len() - 1 {
        assert(rem =~= vs.drop_last());
    } else {
        assert(rem.drop_last() =~= vs.drop_last().remove(i));
        lemma_sum_u128_remove(vs.drop_last(), i);
        assert(rem.last() == vs.last());
    }
}

} // verus!
