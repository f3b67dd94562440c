use vstd::prelude::*;
use crate::ContractError;
use crate::fixed::{RATIO_ONE, mul_ratio_floor, decimal_mul_floor};
use crate::arith::{lemma_mul_ratio_floor_le, lemma_mul_ratio_floor_nonneg};
use crate::round::{round_period_of, get_round_period};
use crate::store::{RoundMap, round_get, has_round};

verus! {

/// Fraction of a round's minting that is distributed right away, in
/// ratio atomics.
pub const DIRECT_SHARE: u128 = 800_000_000_000_000_000;

/// Fraction of a round's minting that goes to the vesting module, in
/// ratio atomics.
pub const VESTING_SHARE: u128 = 200_000_000_000_000_000;

/// One receiver of a fixed fraction of every distributed round.
#[derive(Debug, Clone)]
pub struct DistributionDetail {
    pub description: String,
    pub key: Option<String>,
    pub address: String,
    /// Fraction of the round's amount, in ratio atomics.
    pub ratio: u128,
}

/// One receiver's cut of a settled round, as recorded in the history.
#[derive(Debug, Clone)]
pub struct DistributionAmount {
    pub key: Option<String>,
    pub address: String,
    pub amount: u128,
}

/// What one call of the distributor did to a round.
#[derive(Debug, Clone)]
pub struct DistributionHistory {
    pub round: u64,
    pub distribute_amount: u128,
    pub distributions: Vec<DistributionAmount>,
}

/// Configuration of the distributor.
#[derive(Debug, Clone)]
pub struct State {
    pub gov_contract: String,
    pub zerosum_token: String,
    pub trigger_address: String,
    pub distribute_amount: u128,
    pub distributions: Vec<DistributionDetail>,
}

/// The whole persisted state of the distributor.
pub struct DistributorState {
    pub state: State,
    pub last_round: u64,
    pub history: RoundMap<DistributionHistory>,
}

/// The outgoing work of one distribution run, for the driver to execute
/// after the state transition commits.
#[derive(Debug, Clone)]
pub enum DistributeIntent {
    /// Mint this amount of the platform token to the distributor itself.
    Mint { amount: u128 },
    /// Send this amount to the vesting module, settling `round` there.
    VestingShare { amount: u128, round: u64 },
    /// Send this amount to a receiving module, settling `round` under
    /// `key` there.
    Send { key: Option<String>, address: String, amount: u128, round: u64 },
}

impl DistributorState {
    pub open spec fn wf(&self) -> bool {
        &&& self.history.wf()
        &&& forall|j: int| 0 <= j < self.history.entries@.len()
            ==> (#[trigger] self.history.entries@[j]).0 <= self.last_round
    }
}

/// The amount one round distributes: the direct share of the band's
/// per-round minting while a band is active, else the balance the
/// distributor already holds.
pub open spec fn spec_base_amount(round: u64, balance: u128) -> int {
    match round_period_of(round) {
        Some(p) => mul_ratio_floor(p.distribute_amount_per_round as int, DIRECT_SHARE as int),
        None => balance as int,
    }
}

/// The per-receiver cuts of one distributed amount, in configuration
/// order.
pub open spec fn dist_amounts(ds: Seq<DistributionDetail>, damount: u128) -> Seq<DistributionAmount>
    decreases ds.len(),
{
    if ds.len() == 0 {
        Seq::empty()
    } else {
        dist_amounts(ds.drop_last(), damount).push(DistributionAmount {
            key: ds.last().key,
            address: ds.last().address,
            amount: (mul_ratio_floor(damount as int, ds.last().ratio as int)) as u128,
        })
    }
}

/// The send intents matching the per-receiver cuts.
pub open spec fn send_intents(ds: Seq<DistributionDetail>, damount: u128, round: u64) -> Seq<
    DistributeIntent,
>
    decreases ds.len(),
{
    if ds.len() == 0 {
        Seq::empty()
    } else {
        send_intents(ds.drop_last(), damount, round).push(DistributeIntent::Send {
            key: ds.last().key,
            address: ds.last().address,
            amount: (mul_ratio_floor(damount as int, ds.last().ratio as int)) as u128,
            round,
        })
    }
}

/// Create the distributor state; no round has been distributed yet.
pub fn instantiate(
    sender: String,
    zerosum_token: String,
    trigger_address: String,
    distribute_amount: u128,
    distributions: Vec<DistributionDetail>,
) -> (s: DistributorState)
    ensures
        s.wf(),
        s.state.gov_contract == sender,
        s.state.zerosum_token == zerosum_token,
        s.state.trigger_address == trigger_address,
        s.state.distribute_amount == distribute_amount,
        s.state.distributions == distributions,
        s.last_round == 0,
        s.history.entries@ =~= Seq::<(u64, DistributionHistory)>::empty(),
{
    DistributorState {
        state: State {
            gov_contract: sender,
            zerosum_token,
            trigger_address,
            distribute_amount,
            distributions,
        },
        last_round: 0,
        history: RoundMap::new(),
    }
}

/// Change configuration fields; only the governance address may do so.
pub fn execute_update_state(
    s: &mut DistributorState,
    sender: &String,
    gov_contract: Option<String>,
    zerosum_token: Option<String>,
    trigger_address: Option<String>,
    distribute_amount: Option<u128>,
    distributions: Option<Vec<DistributionDetail>>,
) -> (r: Result<(), ContractError>)
    requires
        old(s).wf(),
    ensures
        final(s).wf(),
        r is Err <==> sender@ != old(s).state.gov_contract@,
        r is Err ==> r == Result::<(), ContractError>::Err(ContractError::Unauthorized)
            && *final(s) == *old(s),
        r is Ok ==> {
            &&& final(s).state.gov_contract == match gov_contract {
                Some(v) => v,
                None => old(s).state.gov_contract,
            }
            &&& final(s).state.zerosum_token == match zerosum_token {
                Some(v) => v,
                None => old(s).state.zerosum_token,
            }
            &&& final(s).state.trigger_address == match trigger_address {
                Some(v) => v,
                None => old(s).state.trigger_address,
            }
            &&& final(s).state.distribute_amount == match distribute_amount {
                Some(v) => v as int,
                None => old(s).state.distribute_amount as int,
            }
            &&& final(s).state.distributions == match distributions {
                Some(v) => v,
                None => old(s).state.distributions,
            }
        },
        final(s).last_round == old(s).last_round,
        final(s).history == old(s).history,
{
    if !(s.state.gov_contract == *sender) {
        return Err(ContractError::Unauthorized);
    }
    if let Some(v) = gov_contract {
        s.state.gov_contract = v;
    }
    if let Some(v) = zerosum_token {
        s.state.zerosum_token = v;
    }
    if let Some(v) = trigger_address {
        s.state.trigger_address = v;
    }
    if let Some(v) = distribute_amount {
        s.state.distribute_amount = v;
    }
    if let Some(v) = distributions {
        s.state.distributions = v;
    }
    Ok(())
}

/// Drive one round's settlement.  While a minting band is active the
/// direct share of the band's per-round amount is minted and the vesting
/// share sent on; past all bands the held balance is distributed
/// instead.  Every configured receiver gets its floored cut with a
/// settlement hook, the run is recorded, and the round counter advances.
/// Replaying a round that was already driven fails.
pub fn execute_distribute(
    s: &mut DistributorState,
    sender: &String,
    round: u64,
    balance: u128,
) -> (r: Result<Vec<DistributeIntent>, ContractError>)
    requires
        old(s).wf(),
        forall|i: int| 0 <= i < old(s).state.distributions@.len() ==> mul_ratio_floor(
            spec_base_amount(round, balance),
            (#[trigger] old(s).state.distributions@[i]).ratio as int,
        ) <= u128::MAX,
    ensures
        final(s).wf(),
        (r == Result::<Vec<DistributeIntent>, ContractError>::Err(ContractError::Unauthorized)
            <==> sender@ != old(s).state.trigger_address@ && sender@ != old(s).state.gov_contract@),
        (r == Result::<Vec<DistributeIntent>, ContractError>::Err(ContractError::AlreadyExist)
            <==> (sender@ == old(s).state.trigger_address@ || sender@ == old(s).state.gov_contract@)
                && old(s).last_round >= round),
        (r is Ok <==> (sender@ == old(s).state.trigger_address@
            || sender@ == old(s).state.gov_contract@) && old(s).last_round < round),
        r is Err ==> *final(s) == *old(s),
        r matches Ok(v) ==> ({
            let damount = (spec_base_amount(round, balance)) as u128;
            let ds = old(s).state.distributions@;
            &&& v@ == (match round_period_of(round) {
                Some(p) => seq![
                    (DistributeIntent::Mint { amount: damount }),
                    (DistributeIntent::VestingShare {
                        amount: (mul_ratio_floor(
                            p.distribute_amount_per_round as int,
                            VESTING_SHARE as int,
                        )) as u128,
                        round,
                    }),
                ],
                None => Seq::<DistributeIntent>::empty(),
            }) + send_intents(ds, damount, round)
            &&& final(s).last_round == round
            &&& round_get(final(s).history.entries@, round) matches Some(h)
                && h.round == round && h.distribute_amount == damount
                && h.distributions@ == dist_amounts(ds, damount)
            &&& forall|r2: u64| r2 != round ==> round_get(final(s).history.entries@, r2)
                == round_get(old(s).history.entries@, r2)
            &&& final(s).state == old(s).state
        }),
{
    if !(s.state.trigger_address == *sender) && !(s.state.gov_contract == *sender) {
        return Err(ContractError::Unauthorized);
    }
    if s.last_round >= round {
        return Err(ContractError::AlreadyExist);
    }
    let mut msgs: Vec<DistributeIntent> = Vec::new();
    let damount: u128;
    match get_round_period(round) {
        Some(period) => {
            let per_round = period.distribute_amount_per_round;
            proof {
                vstd::arithmetic::div_mod::lemma_div_nonincreasing(
                    period.total_distribute_amount as int,
                    (period.end_round - period.start_round) as int,
                );
                lemma_mul_ratio_floor_le(per_round as int, DIRECT_SHARE as int);
                lemma_mul_ratio_floor_nonneg(per_round as int, DIRECT_SHARE as int);
                lemma_mul_ratio_floor_le(per_round as int, VESTING_SHARE as int);
                lemma_mul_ratio_floor_nonneg(per_round as int, VESTING_SHARE as int);
            }
            damount = decimal_mul_floor(per_round, DIRECT_SHARE);
            let vesting_amount = decimal_mul_floor(per_round, VESTING_SHARE);
            msgs.push(DistributeIntent::Mint { amount: damount });
            msgs.push(DistributeIntent::VestingShare { amount: vesting_amount, round });
            proof {
                assert(msgs@ =~= seq![
                    (DistributeIntent::Mint { amount: damount }),
                    (DistributeIntent::VestingShare { amount: vesting_amount, round }),
                ]);
            }
        },
        None => {
            damount = balance;
            proof {
                assert(msgs@ =~= Seq::<DistributeIntent>::empty());
            }
        },
    }
    let ghost base = msgs@;
    let ghost ds = s.state.distributions@;
    let mut history: Vec<DistributionAmount> = Vec::new();
    let n = s.state.distributions.len();
    let mut i: usize = 0;
    proof {
        assert(ds.take(0) =~= Seq::<DistributionDetail>::empty());
        assert(msgs@ =~= base + send_intents(ds.take(0), damount, round));
        assert(history@ =~= dist_amounts(ds.take(0), damount));
    }
    while i < n
        invariant
            i <= n,
            n == ds.len(),
            ds == s.state.distributions@,
            *s == *old(s),
            damount as int == spec_base_amount(round, balance),
            msgs@ == base + send_intents(ds.take(i as int), damount, round),
            history@ == dist_amounts(ds.take(i as int), damount),
            forall|q: int| 0 <= q < ds.len() ==> mul_ratio_floor(
                spec_base_amount(round, balance),
                (#[trigger] ds[q]).ratio as int,
            ) <= u128::MAX,
        decreases n - i,
    {
        let d_key: Option<String> = match &s.state.distributions[i].key {
            Some(k) => Some(k.clone()),
            None => None,
        };
        let d_key2: Option<String> = match &s.state.distributions[i].key {
            Some(k) => Some(k.clone()),
            None => None,
        };
        let d_addr: String = s.state.distributions[i].address.clone();
        let d_ratio: u128 = s.state.distributions[i].ratio;
        proof {
            lemma_mul_ratio_floor_nonneg(damount as int, d_ratio as int);
            assert(ds.take(i as int + 1).drop_last() =~= ds.take(i as int));
            assert(ds.take(i as int + 1).last() == ds[i as int]);
        }
        let amount = decimal_mul_floor(damount, d_ratio);
        msgs.push(DistributeIntent::Send {
            key: d_key,
            address: d_addr.clone(),
            amount,
            round,
        });
        history.push(DistributionAmount { key: d_key2, address: d_addr, amount });
        proof {
            assert(msgs@ =~= base + send_intents(ds.take(i as int + 1), damount, round));
            assert(history@ =~= dist_amounts(ds.take(i as int + 1), damount));
        }
        i = i + 1;
    }
    proof {
        assert(ds.take(n as int) =~= ds);
    }
    let ghost hist_pre = s.history.entries@;
    proof {
        if has_round(hist_pre, round) {
            let j = crate::store::round_index(hist_pre, round);
            assert(hist_pre[j].0 <= s.last_round);
            assert(false);
        }
    }
    let newh = DistributionHistory { round, distribute_amount: damount, distributions: history };
    let ghost newhg = newh;
    s.history.insert_new(round, newh);
    s.last_round = round;
    proof {
        assert forall|r2: u64| r2 != round implies round_get(s.history.entries@, r2)
            == round_get(hist_pre, r2) by {
            assert(s.history.spec_get(r2) == round_get(s.history.entries@, r2));
        }
        let p = choose|p: int| 0 <= p <= hist_pre.len()
            && s.history.entries@ == hist_pre.insert(p, (round, newhg));
        assert forall|j: int| 0 <= j < s.history.entries@.len()
            implies (#[trigger] s.history.entries@[j]).0 <= s.last_round by {
            if j < p {
                assert(s.history.entries@[j] == hist_pre[j]);
            } else if j > p {
                assert(s.history.entries@[j] == hist_pre[j - 1]);
            }
        }
    }
    Ok(msgs)
}

/// One page of recorded distribution runs: the rounds at or after
/// `start`, ascending, at most `n`.
pub open spec fn histories_page(s: Seq<(u64, DistributionHistory)>, start: u64, n: nat) -> Seq<
    (u64, DistributionHistory),
>
    decreases s.len(),
{
    if s.len() == 0 || n == 0 {
        Seq::empty()
    } else if s.first().0 >= start {
        seq![s.first()] + histories_page(s.drop_first(), start, (n - 1) as nat)
    } else {
        histories_page(s.drop_first(), start, n)
    }
}

/// Copy a recorded cut list, entry by entry.
fn copy_amounts(ds: &Vec<DistributionAmount>) -> (r: Vec<DistributionAmount>)
    ensures
        r@ == ds@,
{
    let mut r: Vec<DistributionAmount> = Vec::new();
    let mut i: usize = 0;
    while i < ds.len()
        invariant
            i <= ds@.len(),
            r@.len() == i,
            forall|j: int| #![trigger r@[j]] 0 <= j < i ==> r@[j] == ds@[j],
        decreases ds@.len() - i,
    {
        let key: Option<String> = match &ds[i].key {
            Some(k) => Some(k.clone()),
            None => None,
        };
        r.push(DistributionAmount { key, address: ds[i].address.clone(), amount: ds[i].amount });
        i = i + 1;
    }
    proof {
        assert(r@ =~= ds@);
    }
    r
}

/// Paginated ascending listing of the recorded distribution runs from
/// `start_round` on; the page size defaults to 20 and is capped there.
pub fn query_distribute_histories(
    s: &DistributorState,
    start_round: Option<u64>,
    limit: Option<u64>,
) -> (v: Vec<DistributionHistory>)
    requires
        s.wf(),
    ensures
        ({
            let start = match start_round {
                Some(x) => x,
                None => 0u64,
            };
            let n = match limit {
                Some(l) => if l < 20 { l as nat } else { 20nat },
                None => 20nat,
            };
            let page = histories_page(s.history.entries@, start, n);
            &&& v@.len() == page.len()
            &&& forall|i: int| #![trigger v@[i]] 0 <= i < v@.len()
                ==> v@[i].round == page[i].1.round
                && v@[i].distribute_amount == page[i].1.distribute_amount
                && v@[i].distributions@ == page[i].1.distributions@
        }),
{
    let start: u64 = match start_round {
        Some(x) => x,
        None => 0,
    };
    let cap: u64 = match limit {
        Some(l) => if l < 20 {
            l
        } else {
            20
        },
        None => 20,
    };
    let ghost hs = s.history.entries@;
    let ghost n = cap as nat;
    let mut v: Vec<DistributionHistory> = Vec::new();
    let ghost mut taken: Seq<(u64, DistributionHistory)> = Seq::empty();
    let mut i: usize = 0;
    proof {
        assert(hs.skip(0) =~= hs);
        assert(taken + histories_page(hs.skip(0), start, n) =~= histories_page(hs, start, n));
    }
    while i < s.history.entries.len()
        invariant
            i <= hs.len(),
            hs == s.history.entries@,
            cap <= 20,
            n == cap as nat,
            taken.len() == v@.len(),
            v@.len() <= n,
            histories_page(hs, start, n) == taken + histories_page(
                hs.skip(i as int),
                start,
                (n - taken.len()) as nat,
            ),
            forall|j: int| #![trigger v@[j]] 0 <= j < v@.len() ==> v@[j].round == taken[j].1.round
                && v@[j].distribute_amount == taken[j].1.distribute_amount
                && v@[j].distributions@ == taken[j].1.distributions@,
        ensures
            taken == histories_page(hs, start, n),
        decreases hs.len() - i,
    {
        if v.len() >= cap as usize {
            proof {
                assert(histories_page(hs.skip(i as int), start, (n - taken.len()) as nat)
                    =~= Seq::<(u64, DistributionHistory)>::empty());
                assert(taken + Seq::<(u64, DistributionHistory)>::empty() =~= taken);
            }
            break;
        }
        proof {
            assert(hs.skip(i as int).first() == hs[i as int]);
            assert(hs.skip(i as int).drop_first() =~= hs.skip(i as int + 1));
        }
        let entry_round = s.history.entries[i].0;
        if entry_round >= start {
            let ghost pre = taken;
            let distributions = copy_amounts(&s.history.entries[i].1.distributions);
            v.push(DistributionHistory {
                round: s.history.entries[i].1.round,
                distribute_amount: s.history.entries[i].1.distribute_amount,
                distributions,
            });
            proof {
                taken = taken.push(hs[i as int]);
                assert(pre + (seq![hs[i as int]] + histories_page(
                    hs.skip(i as int + 1),
                    start,
                    (n - taken.len()) as nat,
                )) =~= taken + histories_page(hs.skip(i as int + 1), start, (n - taken.len()) as nat));
            }
        }
        i = i + 1;
    }
    proof {
        if i == hs.len() {
            assert(hs.skip(i as int) =~= Seq::<(u64, DistributionHistory)>::empty());
            assert(taken + Seq::<(u64, DistributionHistory)>::empty() =~= taken);
        }
    }
    v
}

} // verus!
