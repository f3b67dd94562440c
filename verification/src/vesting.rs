use vstd::prelude::*;
use crate::{ContractError, TokenTransfer};
use crate::fixed::{RATIO_ONE, mul_ratio_floor, decimal_mul_floor};
use crate::arith::{
    sum_u128, sum_scaled, lemma_sum_scaled_le, lemma_sum_scaled_step, lemma_sum_u128_take_le,
    lemma_sum_u128_nonneg, lemma_mul_ratio_floor_mono, lemma_mul_ratio_floor_le,
    lemma_mul_ratio_floor_nonneg,
};
use crate::store::{AddrMap, assoc_get, has_key, key_index};

verus! {

/// One vesting beneficiary: a fixed share of every distributed round.
#[derive(Debug, Clone)]
pub struct Vesting {
    pub address: String,
    pub description: String,
    /// Fraction of each round's amount, in ratio atomics.
    pub share: u128,
    pub unlock_round: u64,
}

/// Cumulative vested rewards of one beneficiary.
#[derive(Debug, Clone, Copy, PartialEq, Eq, Structural)]
pub struct Reward {
    pub total_reward: u128,
    pub claimable_reward: u128,
}

/// Configuration of the vesting module.
#[derive(Debug, Clone)]
pub struct State {
    pub owner: String,
    pub zerosum_token: String,
    pub distributor_contract: String,
    pub vestings: Vec<Vesting>,
}

/// The whole persisted state of the vesting module.
pub struct VestingState {
    pub state: State,
    pub reward: AddrMap<Reward>,
    pub rest_reward: u128,
}

/// Shares of the vesting list, in order.
pub open spec fn vesting_shares(vs: Seq<Vesting>) -> Seq<u128> {
    vs.map_values(|v: Vesting| v.share)
}

/// A valid vesting list: shares sum to at most one and beneficiaries are
/// pairwise distinct.
pub open spec fn vestings_wf(vs: Seq<Vesting>) -> bool {
    &&& sum_u128(vesting_shares(vs)) <= RATIO_ONE
    &&& forall|i: int, j: int| 0 <= i < j < vs.len() ==> vs[i].address@ != vs[j].address@
}

impl VestingState {
    pub open spec fn wf(&self) -> bool {
        &&& vestings_wf(self.state.vestings@)
        &&& self.reward.wf()
    }

    pub open spec fn spec_reward_of(&self, a: Seq<char>) -> Option<Reward> {
        assoc_get(self.reward.entries@, a)
    }
}

/// Claimable commission recorded for an address, zero when absent.
pub open spec fn claimable_in(rw: Seq<(String, Reward)>, a: Seq<char>) -> int {
    match assoc_get(rw, a) {
        Some(r) => r.claimable_reward as int,
        None => 0,
    }
}

/// Cumulative commission recorded for an address, zero when absent.
pub open spec fn total_in(rw: Seq<(String, Reward)>, a: Seq<char>) -> int {
    match assoc_get(rw, a) {
        Some(r) => r.total_reward as int,
        None => 0,
    }
}

/// Whether an address is one of the first `k` vesting beneficiaries.
pub open spec fn is_beneficiary(vs: Seq<Vesting>, k: int, a: Seq<char>) -> bool {
    exists|i: int| 0 <= i < k && vs[i].address@ == a
}

/// Create the module state: no rewards credited yet and nothing left
/// over.
pub fn instantiate(
    sender: String,
    zerosum_token: String,
    distributor_contract: String,
    vestings: Vec<Vesting>,
) -> (s: VestingState)
    requires
        vestings_wf(vestings@),
    ensures
        s.wf(),
        s.state.owner == sender,
        s.state.zerosum_token == zerosum_token,
        s.state.distributor_contract == distributor_contract,
        s.state.vestings == vestings,
        s.reward.entries@ =~= Seq::<(String, Reward)>::empty(),
        s.rest_reward == 0,
{
    VestingState {
        state: State { owner: sender, zerosum_token, distributor_contract, vestings },
        reward: AddrMap::new(),
        rest_reward: 0,
    }
}

/// Change configuration fields; only the owner may do so, and only the
/// fields that are given change.
pub fn execute_update_state(
    s: &mut VestingState,
    sender: &String,
    owner: Option<String>,
    zerosum_token: Option<String>,
    distributor_contract: Option<String>,
    vestings: Option<Vec<Vesting>>,
) -> (r: Result<(), ContractError>)
    requires
        old(s).wf(),
        vestings matches Some(vs) ==> vestings_wf(vs@),
    ensures
        final(s).wf(),
        r is Err <==> sender@ != old(s).state.owner@,
        r is Err ==> r == Result::<(), ContractError>::Err(ContractError::Unauthorized)
            && *final(s) == *old(s),
        r is Ok ==> {
            &&& final(s).state.owner == match owner {
                Some(v) => v,
                None => old(s).state.owner,
            }
            &&& final(s).state.zerosum_token == match zerosum_token {
                Some(v) => v,
                None => old(s).state.zerosum_token,
            }
            &&& final(s).state.distributor_contract == match distributor_contract {
                Some(v) => v,
                None => old(s).state.distributor_contract,
            }
            &&& final(s).state.vestings == match vestings {
                Some(v) => v,
                None => old(s).state.vestings,
            }
        },
        final(s).reward == old(s).reward,
        final(s).rest_reward == old(s).rest_reward,
{
    if !(s.state.owner == *sender) {
        return Err(ContractError::Unauthorized);
    }
    if let Some(v) = owner {
        s.state.owner = v;
    }
    if let Some(v) = zerosum_token {
        s.state.zerosum_token = v;
    }
    if let Some(v) = distributor_contract {
        s.state.distributor_contract = v;
    }
    if let Some(v) = vestings {
        s.state.vestings = v;
    }
    Ok(())
}

/// Distribute one round's amount across the vesting list: each
/// beneficiary is credited its floored share, and whatever the shares do
/// not consume is added to the leftover pot.
pub fn execute_add_round(
    s: &mut VestingState,
    info_sender: &String,
    amount: u128,
) -> (r: Result<(), ContractError>)
    requires
        old(s).wf(),
        old(s).rest_reward + amount <= u128::MAX,
        forall|j: int| 0 <= j < old(s).reward.entries@.len() ==> {
            &&& (#[trigger] old(s).reward.entries@[j]).1.claimable_reward + amount <= u128::MAX
            &&& old(s).reward.entries@[j].1.total_reward + amount <= u128::MAX
        },
    ensures
        final(s).wf(),
        r is Err <==> info_sender@ != old(s).state.zerosum_token@,
        r is Err ==> r == Result::<(), ContractError>::Err(ContractError::Unauthorized)
            && *final(s) == *old(s),
        r is Ok ==> ({
            let vs = old(s).state.vestings@;
            &&& forall|i: int| 0 <= i < vs.len() ==> ({
                let hop = mul_ratio_floor(amount as int, (#[trigger] vs[i]).share as int);
                &&& claimable_in(final(s).reward.entries@, vs[i].address@)
                    == claimable_in(old(s).reward.entries@, vs[i].address@) + hop
                &&& total_in(final(s).reward.entries@, vs[i].address@)
                    == total_in(old(s).reward.entries@, vs[i].address@) + hop
            })
            &&& forall|a2: Seq<char>| !is_beneficiary(vs, vs.len() as int, a2)
                ==> assoc_get(final(s).reward.entries@, a2)
                    == assoc_get(old(s).reward.entries@, a2)
            &&& final(s).rest_reward == old(s).rest_reward + amount
                - sum_scaled(amount, vesting_shares(vs))
            &&& final(s).state == old(s).state
        }),
{
    if !(s.state.zerosum_token == *info_sender) {
        return Err(ContractError::Unauthorized);
    }
    let ghost vs = s.state.vestings@;
    let ghost shares = vesting_shares(vs);
    let ghost pre = s.reward.entries@;
    let n = s.state.vestings.len();
    let mut rest: u128 = amount;
    let mut i: usize = 0;
    proof {
        assert(shares.take(0) =~= Seq::<u128>::empty());
    }
    while i < n
        invariant
            i <= n,
            s.wf(),
            n == vs.len(),
            vs == s.state.vestings@,
            shares == vesting_shares(vs),
            s.state == old(s).state,
            s.rest_reward == old(s).rest_reward,
            pre == old(s).reward.entries@,
            rest as int == amount - sum_scaled(amount, shares.take(i as int)),
            forall|q: int| 0 <= q < i ==> ({
                let hop = mul_ratio_floor(amount as int, (#[trigger] vs[q]).share as int);
                &&& claimable_in(s.reward.entries@, vs[q].address@)
                    == claimable_in(pre, vs[q].address@) + hop
                &&& total_in(s.reward.entries@, vs[q].address@)
                    == total_in(pre, vs[q].address@) + hop
            }),
            forall|a2: Seq<char>| !is_beneficiary(vs, i as int, a2)
                ==> assoc_get(s.reward.entries@, a2) == assoc_get(pre, a2),
            forall|j: int| 0 <= j < pre.len() ==> {
                &&& (#[trigger] pre[j]).1.claimable_reward + amount <= u128::MAX
                &&& pre[j].1.total_reward + amount <= u128::MAX
            },
        decreases n - i,
    {
        let share_ratio: u128 = s.state.vestings[i].share;
        proof {
            assert(shares[i as int] == share_ratio);
            lemma_sum_scaled_step(amount, shares, i as int);
            lemma_sum_scaled_le(amount, shares.take(i as int + 1));
            lemma_sum_u128_take_le(shares, i as int + 1);
            lemma_sum_u128_nonneg(shares.take(i as int + 1));
            lemma_mul_ratio_floor_mono(
                amount as int,
                sum_u128(shares.take(i as int + 1)),
                RATIO_ONE as int,
            );
            lemma_mul_ratio_floor_le(amount as int, RATIO_ONE as int);
            lemma_mul_ratio_floor_nonneg(amount as int, share_ratio as int);
            crate::arith::lemma_sum_scaled_le(amount, shares.take(i as int));
        }
        let hop = decimal_mul_floor(amount, share_ratio);
        rest = rest - hop;
        let addr = s.state.vestings[i].address.clone();
        proof {
            assert(!is_beneficiary(vs, i as int, addr@));
            assert(assoc_get(s.reward.entries@, addr@) == assoc_get(pre, addr@));
        }
        let ghost rw_pre = s.reward.entries@;
        match s.reward.find(&addr) {
            Some(j) => {
                let prev: Reward = s.reward.entries[j].1;
                proof {
                    assert(has_key(pre, addr@));
                    let jj = key_index(pre, addr@);
                    assert(pre[jj].1 == prev);
                }
                s.reward.set_at(j, &addr, Reward {
                    total_reward: prev.total_reward + hop,
                    claimable_reward: prev.claimable_reward + hop,
                });
            },
            None => {
                s.reward.insert_new(addr.clone(), Reward {
                    total_reward: hop,
                    claimable_reward: hop,
                });
            },
        }
        proof {
            assert forall|k2: Seq<char>| k2 != addr@ implies assoc_get(s.reward.entries@, k2)
                == assoc_get(rw_pre, k2) by {
                assert(s.reward.spec_get(k2) == assoc_get(s.reward.entries@, k2));
            }
            assert forall|a2: Seq<char>| !is_beneficiary(vs, i as int + 1, a2)
                implies assoc_get(s.reward.entries@, a2) == assoc_get(pre, a2) by {
                if is_beneficiary(vs, i as int, a2) {
                    let q = choose|q: int| 0 <= q < i && vs[q].address@ == a2;
                    assert(0 <= q < i + 1 && vs[q].address@ == a2);
                }
                if a2 == addr@ {
                    assert(vs[i as int].address@ == a2);
                    assert(is_beneficiary(vs, i as int + 1, a2));
                }
            }
            assert forall|q: int| 0 <= q < i + 1 implies ({
                let hopq = mul_ratio_floor(amount as int, (#[trigger] vs[q]).share as int);
                &&& claimable_in(s.reward.entries@, vs[q].address@)
                    == claimable_in(pre, vs[q].address@) + hopq
                &&& total_in(s.reward.entries@, vs[q].address@)
                    == total_in(pre, vs[q].address@) + hopq
            }) by {
                if q < i as int {
                    assert(vs[q].address@ != vs[i as int].address@);
                }
            }
        }
        i = i + 1;
    }
    proof {
        assert(shares.take(n as int) =~= shares);
        lemma_sum_scaled_le(amount, shares);
    }
    s.rest_reward = s.rest_reward + rest;
    Ok(())
}

/// Pay out a beneficiary's claimable balance and zero it; an address
/// that was never credited may not claim.
pub fn execute_claim(s: &mut VestingState, sender: &String) -> (r: Result<
    (Vec<TokenTransfer>, u128),
    ContractError,
>)
    requires
        old(s).wf(),
    ensures
        final(s).wf(),
        (r is Err <==> old(s).spec_reward_of(sender@) is None),
        r is Err ==> r == Result::<(Vec<TokenTransfer>, u128), ContractError>::Err(
            ContractError::Unauthorized,
        ) && *final(s) == *old(s),
        r matches Ok(p) ==> ({
            let pre = old(s).spec_reward_of(sender@)->Some_0;
            &&& p.1 == pre.claimable_reward
            &&& final(s).spec_reward_of(sender@) == Some(
                (Reward { total_reward: pre.total_reward, claimable_reward: 0 }),
            )
            &&& forall|a2: Seq<char>| a2 != sender@
                ==> assoc_get(final(s).reward.entries@, a2)
                    == assoc_get(old(s).reward.entries@, a2)
            &&& (pre.claimable_reward > 0 ==> p.0@.len() == 1 && p.0@[0].recipient == *sender
                && p.0@[0].amount == pre.claimable_reward)
            &&& (pre.claimable_reward == 0 ==> p.0@.len() == 0)
            &&& final(s).state == old(s).state
            &&& final(s).rest_reward == old(s).rest_reward
        }),
{
    let i = match s.reward.find(sender) {
        None => {
            return Err(ContractError::Unauthorized);
        },
        Some(i) => i,
    };
    let pre: Reward = s.reward.entries[i].1;
    let ghost rw_pre = s.reward.entries@;
    s.reward.set_at(i, sender, Reward { total_reward: pre.total_reward, claimable_reward: 0 });
    proof {
        assert forall|a2: Seq<char>| a2 != sender@ implies assoc_get(s.reward.entries@, a2)
            == assoc_get(rw_pre, a2) by {
            assert(s.reward.spec_get(a2) == assoc_get(s.reward.entries@, a2));
        }
    }
    let mut msgs: Vec<TokenTransfer> = Vec::new();
    if pre.claimable_reward > 0 {
        msgs.push(TokenTransfer { recipient: sender.clone(), amount: pre.claimable_reward });
    }
    Ok((msgs, pre.claimable_reward))
}

/// Send part of the leftover pot; only the owner, and only what the pot
/// still holds.
pub fn execute_send(
    s: &mut VestingState,
    sender: &String,
    amount: u128,
    recipient: String,
) -> (r: Result<Vec<TokenTransfer>, ContractError>)
    requires
        old(s).wf(),
    ensures
        final(s).wf(),
        (r is Err <==> sender@ != old(s).state.owner@ || old(s).rest_reward < amount),
        r is Err ==> r == Result::<Vec<TokenTransfer>, ContractError>::Err(
            ContractError::Unauthorized,
        ) && *final(s) == *old(s),
        r matches Ok(v) ==> {
            &&& final(s).rest_reward == old(s).rest_reward - amount
            &&& v@.len() == 1
            &&& v@[0].recipient == recipient
            &&& v@[0].amount == amount
            &&& final(s).state == old(s).state
            &&& final(s).reward == old(s).reward
        },
{
    if !(s.state.owner == *sender) {
        return Err(ContractError::Unauthorized);
    }
    if s.rest_reward < amount {
        return Err(ContractError::Unauthorized);
    }
    s.rest_reward = s.rest_reward - amount;
    let mut msgs: Vec<TokenTransfer> = Vec::new();
    msgs.push(TokenTransfer { recipient, amount });
    Ok(msgs)
}

} // verus!
