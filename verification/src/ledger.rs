use vstd::prelude::*;
use crate::ContractError;
use crate::fixed::{mul_ratio_floor, decimal_mul_floor};
use crate::arith::lemma_mul_ratio_floor_nonneg;
use crate::store::{RoundMap, has_round, round_get};

verus! {

/// One settled round: the reward ratio written for it, in atomics.
#[derive(Debug, Clone, Copy, PartialEq, Eq, Structural)]
pub struct RoundInfo {
    pub reward_ratio: u128,
}

/// Append-only store of per-round reward ratios; an entry is written
/// exactly once and never changed, which is what makes range sums safe to
/// replay.
pub struct RewardLedger {
    pub rounds: RoundMap<u128>,
}

/// Accrued reward of a fixed weight over the ledger rounds in
/// `[start, end)`: the floored payouts of every settled round in the
/// range, summed.
pub open spec fn sum_range(s: Seq<(u64, u128)>, start: u64, end: u64, weight: u128) -> int
    decreases s.len(),
{
    if s.len() == 0 {
        0
    } else {
        sum_range(s.drop_last(), start, end, weight) + if start <= s.last().0 < end {
            mul_ratio_floor(weight as int, s.last().1 as int)
        } else {
            0
        }
    }
}

/// Every term of a range sum is a floored payout, so the sum never goes
/// negative.
pub proof fn lemma_sum_range_nonneg(s: Seq<(u64, u128)>, start: u64, end: u64, weight: u128)
    ensures
        sum_range(s, start, end, weight) >= 0,
    decreases s.len(),
{
    if s.len() > 0 {
        lemma_sum_range_nonneg(s.drop_last(), start, end, weight);
        lemma_mul_ratio_floor_nonneg(weight as int, s.last().1 as int);
    }
}

/// A prefix of the ledger never sums to more than the whole ledger.
pub proof fn lemma_sum_range_prefix_le(s: Seq<(u64, u128)>, start: u64, end: u64, weight: u128, i: int)
    requires
        0 <= i <= s.len(),
    ensures
        sum_range(s.take(i), start, end, weight) <= sum_range(s, start, end, weight),
    decreases s.len(),
{
    if i == s.len() {
        assert(s.take(i) =~= s);
    } else {
        assert(s.take(i) =~= s.drop_last().take(i));
        lemma_sum_range_prefix_le(s.drop_last(), start, end, weight, i);
        lemma_mul_ratio_floor_nonneg(weight as int, s.last().1 as int);
    }
}

/// Extending a prefix by one entry adds that entry's term.
pub proof fn lemma_sum_range_step(s: Seq<(u64, u128)>, start: u64, end: u64, weight: u128, i: int)
    requires
        0 <= i < s.len(),
    ensures
        sum_range(s.take(i + 1), start, end, weight) == sum_range(s.take(i), start, end, weight)
            + if start <= s[i].0 < end { mul_ratio_floor(weight as int, s[i].1 as int) } else { 0 },
{
    assert(s.take(i + 1).drop_last() =~= s.take(i));
    assert(s.take(i + 1).last() == s[i]);
}

/// An empty range contributes nothing, whatever the ledger holds.
pub proof fn lemma_sum_range_empty(s: Seq<(u64, u128)>, start: u64, end: u64, weight: u128)
    requires
        start >= end,
    ensures
        sum_range(s, start, end, weight) == 0,
    decreases s.len(),
{
    if s.len() > 0 {
        lemma_sum_range_empty(s.drop_last(), start, end, weight);
    }
}

impl RewardLedger {
    pub open spec fn wf(&self) -> bool {
        self.rounds.wf()
    }

    pub open spec fn spec_has(&self, round: u64) -> bool {
        has_round(self.rounds.entries@, round)
    }

    pub open spec fn spec_ratio(&self, round: u64) -> Option<u128> {
        round_get(self.rounds.entries@, round)
    }

    pub fn new() -> (l: Self)
        ensures
            l.wf(),
            l.rounds.entries@ =~= Seq::<(u64, u128)>::empty(),
    {
        RewardLedger { rounds: RoundMap::new() }
    }

    /// Write the ratio for a round.  Entries are immutable: writing a
    /// round that already has one fails with `AlreadyExist` and changes
    /// nothing.
    pub fn append(&mut self, round: u64, ratio: u128) -> (r: Result<(), ContractError>)
        requires
            old(self).wf(),
        ensures
            final(self).wf(),
            r is Ok <==> !old(self).spec_has(round),
            r is Err ==> r == Result::<(), ContractError>::Err(ContractError::AlreadyExist)
                && final(self).rounds.entries@ == old(self).rounds.entries@,
            r is Ok ==> final(self).spec_ratio(round) == Some(ratio)
                && (forall|r2: u64| r2 != round ==> final(self).spec_ratio(r2) == old(self).spec_ratio(r2))
                && (exists|p: int| 0 <= p <= old(self).rounds.entries@.len()
                    && final(self).rounds.entries@ == old(self).rounds.entries@.insert(p, (round, ratio))),
    {
        if self.rounds.contains_round(round) {
            return Err(ContractError::AlreadyExist);
        }
        let ghost pre = self.rounds.entries@;
        self.rounds.insert_new(round, ratio);
        proof {
            assert forall|r2: u64| r2 != round implies round_get(self.rounds.entries@, r2)
                == round_get(pre, r2) by {
                assert(self.rounds.spec_get(r2) == round_get(self.rounds.entries@, r2));
            }
        }
        Ok(())
    }

    /// Ascending scan of the settled rounds in `[start, end)`,
    /// accumulating the floored payout of `weight` at each stored ratio.
    pub fn range_sum(&self, start: u64, end: u64, weight: u128) -> (r: u128)
        requires
            self.wf(),
            sum_range(self.rounds.entries@, start, end, weight) <= u128::MAX,
        ensures
            r == sum_range(self.rounds.entries@, start, end, weight),
    {
        let ghost s = self.rounds.entries@;
        let mut acc: u128 = 0;
        let mut i: usize = 0;
        proof {
            assert(s.take(0) =~= Seq::<(u64, u128)>::empty());
        }
        while i < self.rounds.entries.len()
            invariant
                i <= s.len(),
                self.wf(),
                s == self.rounds.entries@,
                acc == sum_range(s.take(i as int), start, end, weight),
                sum_range(s, start, end, weight) <= u128::MAX,
            decreases s.len() - i,
        {
            let (round, ratio) = self.rounds.entries[i];
            proof {
                lemma_sum_range_step(s, start, end, weight, i as int);
                lemma_sum_range_prefix_le(s, start, end, weight, i as int + 1);
                lemma_sum_range_nonneg(s.take(i as int), start, end, weight);
                lemma_mul_ratio_floor_nonneg(weight as int, ratio as int);
            }
            if start <= round && round < end {
                let pay = decimal_mul_floor(weight, ratio);
                acc = acc + pay;
            }
            i = i + 1;
        }
        proof {
            assert(s.take(s.len() as int) =~= s);
        }
        acc
    }
}

} // verus!
