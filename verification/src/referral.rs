use vstd::prelude::*;
use crate::{ContractError, TokenTransfer};
use crate::fixed::{RATIO_ONE, ratio_floor, mul_ratio_floor, decimal_from_ratio};
use crate::arith::{sum_u128, lemma_sum_u128_update, lemma_sum_u128_push, lemma_sum_u128_element_le};
use crate::round::round_of;
use crate::store::{
    AddrMap, PairMap, assoc_get, has_key, round_get, lemma_rounds_update, lemma_pair_update,
    pair_get,
};
use crate::ledger::RewardLedger;
use crate::graph::{acyclic, next_of, reaches, ancestor, walk_reaches, lemma_insert_acyclic, lemma_ancestor_add};

verus! {

/// Configuration of the referral module, passed by reference into every
/// operation and changed only through `execute_update_state`.
#[derive(Debug, Clone)]
pub struct State {
    pub gov_contract: String,
    pub zerosum_token: String,
    pub house_coutract: String,
    pub distributor_contract: String,
    pub register_referrer_fee: u128,
    /// Cascade ratio slots in atomics; slot 0 is the claimant's own
    /// rebate, later slots pay the upline chain.
    pub referral_ratio: Vec<u128>,
    pub collector_contract: String,
    pub reward_contract: String,
}

/// A registered referral identity.
#[derive(Debug, Clone, PartialEq, Eq)]
pub struct Referral {
    pub name: String,
    pub description: String,
}

/// Cumulative commissions of an upline address.  `claimable_reward` only
/// ever drops to zero through an explicit claim.
#[derive(Debug, Clone, Copy, PartialEq, Eq, Structural)]
pub struct Reward {
    pub claimable_reward: u128,
    pub total_reward: u128,
}

/// Stake shares of one round: the per-address share and their total.
pub struct RoundShare {
    pub total: u128,
    pub shares: AddrMap<u128>,
}

/// The whole persisted state of the referral module.
pub struct ReferralState {
    pub state: State,
    pub referrals: AddrMap<Referral>,
    /// Follower to upline target; at most one outgoing edge, never
    /// removed, kept acyclic.
    pub following: AddrMap<String>,
    /// (target, follower) pairs in arrival order: the enumerable reverse
    /// index of `following`.
    pub followers: Vec<(String, String)>,
    pub last_claim_round: AddrMap<u64>,
    pub shares: crate::store::RoundMap<RoundShare>,
    pub ledger: RewardLedger,
    pub rewards: AddrMap<Reward>,
    /// (upline, downline) to the cumulative amount the downline's claims
    /// have paid that upline.
    pub history: PairMap<u128>,
}

/// A valid cascade ratio vector: at least the self slot, fractions
/// summing to at most one.
pub open spec fn ratio_vec_wf(rs: Seq<u128>) -> bool {
    &&& rs.len() >= 1
    &&& sum_u128(rs) <= RATIO_ONE
}

/// Values of a share map, in entry order.
pub open spec fn share_vals(s: Seq<(String, u128)>) -> Seq<u128> {
    s.map_values(|p: (String, u128)| p.1)
}

/// A round's share row is well formed when its total is the sum of the
/// individual shares.
pub open spec fn row_wf(row: RoundShare) -> bool {
    &&& row.shares.wf()
    &&& row.total as int == sum_u128(share_vals(row.shares.entries@))
}

impl ReferralState {
    pub open spec fn wf(&self) -> bool {
        &&& ratio_vec_wf(self.state.referral_ratio@)
        &&& self.referrals.wf()
        &&& self.following.wf()
        &&& acyclic(self.following.entries@)
        &&& self.last_claim_round.wf()
        &&& forall|j: int| 0 <= j < self.last_claim_round.entries@.len()
            ==> self.last_claim_round.entries@[j].1 < u64::MAX
        &&& self.shares.wf()
        &&& forall|j: int| 0 <= j < self.shares.entries@.len()
            ==> row_wf(#[trigger] self.shares.entries@[j].1)
        &&& self.ledger.wf()
        &&& self.rewards.wf()
        &&& self.history.wf()
    }

    /// Total stake share recorded for a round.
    pub open spec fn spec_total_share(&self, r: u64) -> int {
        match round_get(self.shares.entries@, r) {
            Some(row) => row.total as int,
            None => 0,
        }
    }

    /// Stake share of one address in a round.
    pub open spec fn spec_share_of(&self, r: u64, a: Seq<char>) -> int {
        match round_get(self.shares.entries@, r) {
            Some(row) => match assoc_get(row.shares.entries@, a) {
                Some(v) => v as int,
                None => 0,
            },
            None => 0,
        }
    }

    pub open spec fn spec_registered(&self, a: Seq<char>) -> bool {
        has_key(self.referrals.entries@, a)
    }

    pub open spec fn spec_reward_of(&self, a: Seq<char>) -> Option<Reward> {
        assoc_get(self.rewards.entries@, a)
    }

    pub open spec fn spec_last_claim_round(&self, a: Seq<char>) -> Option<u64> {
        assoc_get(self.last_claim_round.entries@, a)
    }

    pub open spec fn spec_history(&self, upline: Seq<char>, downline: Seq<char>) -> int {
        match pair_get(self.history.entries@, (upline, downline)) {
            Some(v) => v as int,
            None => 0,
        }
    }
}

/// Create the module state.  The instantiating sender becomes the
/// governance address and every ledger starts empty.
pub fn instantiate(
    sender: String,
    zerosum_token: String,
    house_coutract: String,
    distributor_contract: String,
    register_referrer_fee: u128,
    referral_ratio: Vec<u128>,
    collector_contract: String,
    reward_contract: String,
) -> (s: ReferralState)
    requires
        ratio_vec_wf(referral_ratio@),
    ensures
        s.wf(),
        s.state.gov_contract == sender,
        s.state.zerosum_token == zerosum_token,
        s.state.house_coutract == house_coutract,
        s.state.distributor_contract == distributor_contract,
        s.state.register_referrer_fee == register_referrer_fee,
        s.state.referral_ratio == referral_ratio,
        s.state.collector_contract == collector_contract,
        s.state.reward_contract == reward_contract,
        s.referrals.entries@ =~= Seq::<(String, Referral)>::empty(),
        s.following.entries@ =~= Seq::<(String, String)>::empty(),
        s.followers@ =~= Seq::<(String, String)>::empty(),
        s.last_claim_round.entries@ =~= Seq::<(String, u64)>::empty(),
        s.shares.entries@ =~= Seq::<(u64, RoundShare)>::empty(),
        s.ledger.rounds.entries@ =~= Seq::<(u64, u128)>::empty(),
        s.rewards.entries@ =~= Seq::<(String, Reward)>::empty(),
        s.history.entries@ =~= Seq::<((String, String), u128)>::empty(),
{
    let s = ReferralState {
        state: State {
            gov_contract: sender,
            zerosum_token,
            house_coutract,
            distributor_contract,
            register_referrer_fee,
            referral_ratio,
            collector_contract,
            reward_contract,
        },
        referrals: AddrMap::new(),
        following: AddrMap::new(),
        followers: Vec::new(),
        last_claim_round: AddrMap::new(),
        shares: crate::store::RoundMap::new(),
        ledger: RewardLedger::new(),
        rewards: AddrMap::new(),
        history: PairMap::new(),
    };
    proof {
        assert(s.wf());
    }
    s
}

/// Change configuration fields; only the governance address may do so,
/// and only the fields that are given change.
pub fn execute_update_state(
    s: &mut ReferralState,
    sender: &String,
    gov_contract: Option<String>,
    zerosum_token: Option<String>,
    house_coutract: Option<String>,
    distributor_contract: Option<String>,
    register_referrer_fee: Option<u128>,
    referral_ratio: Option<Vec<u128>>,
    collector_contract: Option<String>,
    reward_contract: Option<String>,
) -> (r: Result<(), ContractError>)
    requires
        old(s).wf(),
        referral_ratio matches Some(rs) ==> ratio_vec_wf(rs@),
    ensures
        final(s).wf(),
        r is Err <==> sender@ != old(s).state.gov_contract@,
        r is Err ==> r == Result::<(), ContractError>::Err(ContractError::Unauthorized)
            && *final(s) == *old(s),
        r is Ok ==> {
            &&& final(s).state.gov_contract == match gov_contract {
                Some(v) => v,
                None => old(s).state.gov_contract,
            }
            &&& final(s).state.zerosum_token == match zerosum_token {
                Some(v) => v,
                None => old(s).state.zerosum_token,
            }
            &&& final(s).state.house_coutract == match house_coutract {
                Some(v) => v,
                None => old(s).state.house_coutract,
            }
            &&& final(s).state.distributor_contract == match distributor_contract {
                Some(v) => v,
                None => old(s).state.distributor_contract,
            }
            &&& final(s).state.register_referrer_fee == match register_referrer_fee {
                Some(v) => v,
                None => old(s).state.register_referrer_fee,
            }
            &&& final(s).state.referral_ratio == match referral_ratio {
                Some(v) => v,
                None => old(s).state.referral_ratio,
            }
            &&& final(s).state.collector_contract == match collector_contract {
                Some(v) => v,
                None => old(s).state.collector_contract,
            }
            &&& final(s).state.reward_contract == match reward_contract {
                Some(v) => v,
                None => old(s).state.reward_contract,
            }
        },
        final(s).referrals == old(s).referrals,
        final(s).following == old(s).following,
        final(s).followers == old(s).followers,
        final(s).last_claim_round == old(s).last_claim_round,
        final(s).shares == old(s).shares,
        final(s).ledger == old(s).ledger,
        final(s).rewards == old(s).rewards,
        final(s).history == old(s).history,
{
    if !(s.state.gov_contract == *sender) {
        return Err(ContractError::Unauthorized);
    }
    if let Some(v) = gov_contract {
        s.state.gov_contract = v;
    }
    if let Some(v) = zerosum_token {
        s.state.zerosum_token = v;
    }
    if let Some(v) = house_coutract {
        s.state.house_coutract = v;
    }
    if let Some(v) = distributor_contract {
        s.state.distributor_contract = v;
    }
    if let Some(v) = register_referrer_fee {
        s.state.register_referrer_fee = v;
    }
    if let Some(v) = referral_ratio {
        s.state.referral_ratio = v;
    }
    if let Some(v) = collector_contract {
        s.state.collector_contract = v;
    }
    if let Some(v) = reward_contract {
        s.state.reward_contract = v;
    }
    Ok(())
}

/// Register a referral identity.  The fee arrives as a token payment, so
/// the token contract must be the direct caller; registering twice
/// fails.
pub fn execute_register_referral(
    s: &mut ReferralState,
    info_sender: &String,
    addr: Option<String>,
    name: Option<String>,
    description: Option<String>,
    sender: String,
    amount: u128,
) -> (r: Result<(), ContractError>)
    requires
        old(s).wf(),
    ensures
        final(s).wf(),
        ({
            let target: Seq<char> = match addr {
                Some(a) => a@,
                None => sender@,
            };
            &&& (r == Result::<(), ContractError>::Err(ContractError::Unauthorized)
                <==> info_sender@ != old(s).state.zerosum_token@)
            &&& (r == Result::<(), ContractError>::Err(ContractError::NotEnough)
                <==> info_sender@ == old(s).state.zerosum_token@
                    && amount < old(s).state.register_referrer_fee)
            &&& (r == Result::<(), ContractError>::Err(ContractError::AlreadyExist)
                <==> info_sender@ == old(s).state.zerosum_token@
                    && amount >= old(s).state.register_referrer_fee
                    && old(s).spec_registered(target))
            &&& (r is Ok <==> info_sender@ == old(s).state.zerosum_token@
                    && amount >= old(s).state.register_referrer_fee
                    && !old(s).spec_registered(target))
            &&& r is Err ==> *final(s) == *old(s)
            &&& r is Ok ==> {
                &&& final(s).spec_registered(target)
                &&& final(s).referrals.entries@.len() == old(s).referrals.entries@.len() + 1
                &&& forall|a2: Seq<char>| a2 != target
                    ==> assoc_get(final(s).referrals.entries@, a2)
                        == assoc_get(old(s).referrals.entries@, a2)
                &&& match assoc_get(final(s).referrals.entries@, target) {
                    Some(rf) => rf.name@ == (match name {
                        Some(n) => n@,
                        None => Seq::<char>::empty(),
                    }) && rf.description@ == (match description {
                        Some(d) => d@,
                        None => Seq::<char>::empty(),
                    }),
                    None => false,
                }
                &&& final(s).following == old(s).following
                &&& final(s).followers == old(s).followers
                &&& final(s).last_claim_round == old(s).last_claim_round
                &&& final(s).shares == old(s).shares
                &&& final(s).ledger == old(s).ledger
                &&& final(s).rewards == old(s).rewards
                &&& final(s).history == old(s).history
                &&& final(s).state == old(s).state
            }
        }),
{
    if !(s.state.zerosum_token == *info_sender) {
        return Err(ContractError::Unauthorized);
    }
    if amount < s.state.register_referrer_fee {
        return Err(ContractError::NotEnough);
    }
    let target: String = match addr {
        Some(a) => a,
        None => sender,
    };
    if s.referrals.contains_key(&target) {
        return Err(ContractError::AlreadyExist);
    }
    let entry = Referral {
        name: match name {
            Some(n) => n,
            None => String::new(),
        },
        description: match description {
            Some(d) => d,
            None => String::new(),
        },
    };
    let ghost tv = target@;
    let ghost pre = s.referrals.entries@;
    s.referrals.insert_new(target, entry);
    proof {
        assert forall|a2: Seq<char>| a2 != tv implies assoc_get(s.referrals.entries@, a2)
            == assoc_get(pre, a2) by {
            assert(s.referrals.spec_get(a2) == assoc_get(s.referrals.entries@, a2));
        }
    }
    Ok(())
}

/// Create the following edge `sender -> address`.  Self-following, an
/// unregistered target, a second outgoing edge, and any edge that would
/// close a cycle are all rejected, in that order.
pub fn execute_add_following(
    s: &mut ReferralState,
    sender: &String,
    address: &String,
) -> (r: Result<(), ContractError>)
    requires
        old(s).wf(),
    ensures
        final(s).wf(),
        (r == Result::<(), ContractError>::Err(ContractError::Unauthorized)
            <==> sender@ == address@
                || (old(s).spec_registered(address@)
                    && !has_key(old(s).following.entries@, sender@)
                    && reaches(old(s).following.entries@, address@, sender@))),
        (r == Result::<(), ContractError>::Err(ContractError::NotReferral)
            <==> sender@ != address@ && !old(s).spec_registered(address@)),
        (r == Result::<(), ContractError>::Err(ContractError::AlreadyExist)
            <==> sender@ != address@ && old(s).spec_registered(address@)
                && has_key(old(s).following.entries@, sender@)),
        (r is Ok <==> sender@ != address@ && old(s).spec_registered(address@)
            && !has_key(old(s).following.entries@, sender@)
            && !reaches(old(s).following.entries@, address@, sender@)),
        r is Err ==> *final(s) == *old(s),
        r is Ok ==> {
            &&& final(s).following.entries@ == old(s).following.entries@.push(
                ((*sender), (*address)),
            )
            &&& next_of(final(s).following.entries@, sender@) == Some(address@)
            &&& forall|a2: Seq<char>| a2 != sender@
                ==> assoc_get(final(s).following.entries@, a2)
                    == assoc_get(old(s).following.entries@, a2)
            &&& final(s).followers@ == old(s).followers@.push(((*address), (*sender)))
            &&& final(s).referrals == old(s).referrals
            &&& final(s).last_claim_round == old(s).last_claim_round
            &&& final(s).shares == old(s).shares
            &&& final(s).ledger == old(s).ledger
            &&& final(s).rewards == old(s).rewards
            &&& final(s).history == old(s).history
            &&& final(s).state == old(s).state
        },
{
    if *address == *sender {
        return Err(ContractError::Unauthorized);
    }
    if !s.referrals.contains_key(address) {
        return Err(ContractError::NotReferral);
    }
    if s.following.contains_key(sender) {
        return Err(ContractError::AlreadyExist);
    }
    if walk_reaches(&s.following, address, sender) {
        return Err(ContractError::Unauthorized);
    }
    proof {
        lemma_insert_acyclic(s.following.entries@, (*sender), (*address));
    }
    let ghost pre = s.following.entries@;
    s.following.insert_new(sender.clone(), address.clone());
    s.followers.push((address.clone(), sender.clone()));
    proof {
        assert(s.following.entries@ =~= pre.push(((*sender), (*address))));
        assert(s.followers@ =~= old(s).followers@.push(((*address), (*sender))));
        assert forall|a2: Seq<char>| a2 != sender@ implies assoc_get(s.following.entries@, a2)
            == assoc_get(pre, a2) by {
            assert(s.following.spec_get(a2) == assoc_get(s.following.entries@, a2));
        }
    }
    Ok(())
}

/// Record a betting share for the current round.  Only the house may
/// report shares; before round 0 has started the call is a silent no-op.
pub fn execute_add_share(
    s: &mut ReferralState,
    sender: &String,
    address: &String,
    amount: u128,
    height: u64,
) -> (r: Result<(), ContractError>)
    requires
        old(s).wf(),
        match round_of(height) {
            Some(rd) => old(s).spec_total_share(rd) + amount <= u128::MAX,
            None => true,
        },
    ensures
        final(s).wf(),
        (r is Err <==> sender@ != old(s).state.house_coutract@),
        r is Err ==> r == Result::<(), ContractError>::Err(ContractError::Unauthorized)
            && *final(s) == *old(s),
        r is Ok ==> match round_of(height) {
            Some(rd) => {
                &&& final(s).spec_share_of(rd, address@)
                    == old(s).spec_share_of(rd, address@) + amount
                &&& final(s).spec_total_share(rd) == old(s).spec_total_share(rd) + amount
                &&& forall|r2: u64| r2 != rd ==> round_get(final(s).shares.entries@, r2)
                    == round_get(old(s).shares.entries@, r2)
                &&& forall|a2: Seq<char>| a2 != address@
                    ==> final(s).spec_share_of(rd, a2) == old(s).spec_share_of(rd, a2)
                &&& final(s).state == old(s).state
                &&& final(s).referrals == old(s).referrals
                &&& final(s).following == old(s).following
                &&& final(s).followers == old(s).followers
                &&& final(s).last_claim_round == old(s).last_claim_round
                &&& final(s).ledger == old(s).ledger
                &&& final(s).rewards == old(s).rewards
                &&& final(s).history == old(s).history
            },
            None => *final(s) == *old(s),
        },
{
    if !(s.state.house_coutract == *sender) {
        return Err(ContractError::Unauthorized);
    }
    let rd = match crate::round::get_round(height) {
        None => {
            return Ok(());
        },
        Some(rd) => rd,
    };
    let ghost pre = s.shares.entries@;
    match s.shares.find(rd) {
        Some(i) => {
            let ghost row0 = s.shares.entries@[i as int].1;
            proof {
                assert(row_wf(row0));
            }
            let row = s.shares.val_mut(i);
            match row.shares.find(address) {
                Some(j) => {
                    let cur: u128 = row.shares.entries[j].1;
                    let ghost vals0 = share_vals(row0.shares.entries@);
                    proof {
                        assert(vals0[j as int] == cur);
                        lemma_sum_u128_element_le(vals0, j as int);
                    }
                    row.shares.set_at(j, address, cur + amount);
                    proof {
                        let news = row.shares.entries@;
                        assert(share_vals(news) =~= vals0.update(j as int, (cur + amount) as u128));
                        lemma_sum_u128_update(vals0, j as int, (cur + amount) as u128);
                    }
                },
                None => {
                    row.shares.insert_new(address.clone(), amount);
                    proof {
                        let news = row.shares.entries@;
                        let vals0 = share_vals(row0.shares.entries@);
                        assert(share_vals(news) =~= vals0.push(amount));
                        lemma_sum_u128_push(vals0, amount);
                    }
                },
            }
            row.total = row.total + amount;
            let ghost rowfin = *row;
            proof {
                assert(row_wf(rowfin));
            }
            proof {
                assert(s.shares.entries@ == pre.update(i as int, (rd, rowfin)));
                lemma_rounds_update(pre, i as int, rowfin);
                assert forall|j2: int| 0 <= j2 < s.shares.entries@.len()
                    implies row_wf(#[trigger] s.shares.entries@[j2].1) by {
                    if j2 != i as int {
                        assert(s.shares.entries@[j2].1 == pre[j2].1);
                    }
                }
                assert forall|a2: Seq<char>| a2 != address@
                    implies assoc_get(rowfin.shares.entries@, a2)
                        == assoc_get(row0.shares.entries@, a2) by {
                    assert(rowfin.shares.spec_get(a2) == assoc_get(rowfin.shares.entries@, a2));
                    assert(row0.shares.spec_get(a2) == assoc_get(row0.shares.entries@, a2));
                }
            }
        },
        None => {
            let mut m: AddrMap<u128> = AddrMap::new();
            m.insert_new(address.clone(), amount);
            let row = RoundShare { total: amount, shares: m };
            proof {
                assert(share_vals(row.shares.entries@)
                    =~= Seq::<u128>::empty().push(amount));
                lemma_sum_u128_push(Seq::<u128>::empty(), amount);
                assert(row_wf(row));
            }
            let ghost rowg = row;
            s.shares.insert_new(rd, row);
            proof {
                assert forall|r2: u64| r2 != rd implies round_get(s.shares.entries@, r2)
                    == round_get(pre, r2) by {
                    assert(s.shares.spec_get(r2) == round_get(s.shares.entries@, r2));
                }
                assert forall|a2: Seq<char>| a2 != address@
                    implies assoc_get(rowg.shares.entries@, a2) is None by {
                    if has_key(rowg.shares.entries@, a2) {
                        let x = choose|x: int| 0 <= x < rowg.shares.entries@.len()
                            && rowg.shares.entries@[x].0@ == a2;
                        assert(rowg.shares.entries@[x].0@ == address@);
                    }
                }
                let p = choose|p: int| 0 <= p <= pre.len()
                    && s.shares.entries@ == pre.insert(p, (rd, row));
                assert forall|j2: int| 0 <= j2 < s.shares.entries@.len()
                    implies row_wf(#[trigger] s.shares.entries@[j2].1) by {
                    if j2 < p {
                        assert(s.shares.entries@[j2] == pre[j2]);
                    } else if j2 > p {
                        assert(s.shares.entries@[j2] == pre[j2 - 1]);
                    }
                }
            }
        },
    }
    Ok(())
}

/// Settle a round: write its reward ratio from the amount handed in by
/// the distributor and the round's total share.  Settling the same round
/// twice fails; a round nobody bet in routes the whole amount to the
/// collector sink instead.
pub fn execute_add_round(
    s: &mut ReferralState,
    info_sender: &String,
    round: u64,
    sender: &String,
    amount: u128,
) -> (r: Result<Vec<TokenTransfer>, ContractError>)
    requires
        old(s).wf(),
        old(s).spec_total_share(round) != 0 ==> ratio_floor(
            amount as int,
            old(s).spec_total_share(round),
        ) <= u128::MAX,
    ensures
        final(s).wf(),
        (r == Result::<Vec<TokenTransfer>, ContractError>::Err(ContractError::Unauthorized)
            <==> info_sender@ != old(s).state.zerosum_token@
                || sender@ != old(s).state.distributor_contract@),
        (r == Result::<Vec<TokenTransfer>, ContractError>::Err(ContractError::AlreadyExist)
            <==> info_sender@ == old(s).state.zerosum_token@
                && sender@ == old(s).state.distributor_contract@
                && old(s).ledger.spec_has(round)),
        (r is Ok <==> info_sender@ == old(s).state.zerosum_token@
            && sender@ == old(s).state.distributor_contract@
            && !old(s).ledger.spec_has(round)),
        r is Err ==> *final(s) == *old(s),
        r matches Ok(v) ==> {
            &&& old(s).spec_total_share(round) != 0 ==> {
                &&& final(s).ledger.spec_ratio(round) == Some(
                    (ratio_floor(amount as int, old(s).spec_total_share(round))) as u128,
                )
                &&& forall|r2: u64| r2 != round
                    ==> final(s).ledger.spec_ratio(r2) == old(s).ledger.spec_ratio(r2)
                &&& v@.len() == 1
                &&& v@[0].recipient == old(s).state.reward_contract
                &&& v@[0].amount == amount
            }
            &&& old(s).spec_total_share(round) == 0 ==> {
                &&& final(s).ledger == old(s).ledger
                &&& v@.len() == 1
                &&& v@[0].recipient == old(s).state.collector_contract
                &&& v@[0].amount == amount
            }
            &&& final(s).state == old(s).state
            &&& final(s).referrals == old(s).referrals
            &&& final(s).following == old(s).following
            &&& final(s).followers == old(s).followers
            &&& final(s).last_claim_round == old(s).last_claim_round
            &&& final(s).shares == old(s).shares
            &&& final(s).rewards == old(s).rewards
            &&& final(s).history == old(s).history
        },
{
    if !(s.state.zerosum_token == *info_sender) {
        return Err(ContractError::Unauthorized);
    }
    if !(s.state.distributor_contract == *sender) {
        return Err(ContractError::Unauthorized);
    }
    if s.ledger.rounds.contains_round(round) {
        return Err(ContractError::AlreadyExist);
    }
    let total_share: u128 = match s.shares.find(round) {
        Some(i) => s.shares.entries[i].1.total,
        None => 0,
    };
    let mut msgs: Vec<TokenTransfer> = Vec::new();
    if total_share != 0 {
        let ratio = decimal_from_ratio(amount, total_share);
        let res = s.ledger.append(round, ratio);
        proof {
            assert(res is Ok);
        }
        msgs.push(TokenTransfer { recipient: s.state.reward_contract.clone(), amount });
    } else {
        msgs.push(TokenTransfer { recipient: s.state.collector_contract.clone(), amount });
    }
    Ok(msgs)
}

/// Atomically read and zero the caller's claimable referral commission
/// and hand back the payout intent.  An address that was never credited
/// has nothing to claim.
pub fn execute_claim_referral(
    s: &mut ReferralState,
    sender: &String,
) -> (r: Result<(Vec<TokenTransfer>, u128), ContractError>)
    requires
        old(s).wf(),
    ensures
        final(s).wf(),
        (r is Err <==> old(s).spec_reward_of(sender@) is None),
        r is Err ==> r == Result::<(Vec<TokenTransfer>, u128), ContractError>::Err(
            ContractError::NotEnough,
        ) && *final(s) == *old(s),
        r matches Ok(p) ==> {
            let pre = old(s).spec_reward_of(sender@)->Some_0;
            &&& p.1 == pre.claimable_reward
            &&& final(s).spec_reward_of(sender@) == Some(
                (Reward { claimable_reward: 0, total_reward: pre.total_reward }),
            )
            &&& forall|a2: Seq<char>| a2 != sender@
                ==> assoc_get(final(s).rewards.entries@, a2)
                    == assoc_get(old(s).rewards.entries@, a2)
            &&& pre.claimable_reward > 0 ==> p.0@.len() == 1
                && p.0@[0].recipient == *sender && p.0@[0].amount == pre.claimable_reward
            &&& pre.claimable_reward == 0 ==> p.0@.len() == 0
            &&& final(s).state == old(s).state
            &&& final(s).referrals == old(s).referrals
            &&& final(s).following == old(s).following
            &&& final(s).followers == old(s).followers
            &&& final(s).last_claim_round == old(s).last_claim_round
            &&& final(s).shares == old(s).shares
            &&& final(s).ledger == old(s).ledger
            &&& final(s).history == old(s).history
        },
{
    let i = match s.rewards.find(sender) {
        None => {
            return Err(ContractError::NotEnough);
        },
        Some(i) => i,
    };
    let pre: Reward = s.rewards.entries[i].1;
    let ghost prerewards = s.rewards.entries@;
    s.rewards.set_at(i, sender, Reward { claimable_reward: 0, total_reward: pre.total_reward });
    proof {
        assert forall|a2: Seq<char>| a2 != sender@ implies assoc_get(s.rewards.entries@, a2)
            == assoc_get(prerewards, a2) by {
            assert(s.rewards.spec_get(a2) == assoc_get(s.rewards.entries@, a2));
        }
    }
    let mut msgs: Vec<TokenTransfer> = Vec::new();
    if pre.claimable_reward > 0 {
        msgs.push(TokenTransfer { recipient: sender.clone(), amount: pre.claimable_reward });
    }
    Ok((msgs, pre.claimable_reward))
}

// ---------------------------------------------------------------------
// Settlement: pull-based accrual over the round ledger.
// ---------------------------------------------------------------------

/// Stake share of an address in a round, read from the share rows.
pub open spec fn share_in(shares: Seq<(u64, RoundShare)>, r: u64, a: Seq<char>) -> int {
    match round_get(shares, r) {
        Some(row) => match assoc_get(row.shares.entries@, a) {
            Some(v) => v as int,
            None => 0,
        },
        None => 0,
    }
}

/// Reward accrued by `a` over the settled rounds in `[start, end)`: each
/// settled round pays the round's share scaled by the stored ratio,
/// floored.
pub open spec fn accrued(
    led: Seq<(u64, u128)>,
    shares: Seq<(u64, RoundShare)>,
    a: Seq<char>,
    start: u64,
    end: u64,
) -> int
    decreases led.len(),
{
    if led.len() == 0 {
        0
    } else {
        accrued(led.drop_last(), shares, a, start, end) + if start <= led.last().0 < end {
            mul_ratio_floor(share_in(shares, led.last().0, a), led.last().1 as int)
        } else {
            0
        }
    }
}

/// Every accrual term is a floored payout, so the total never goes
/// negative.
pub proof fn lemma_accrued_nonneg(
    led: Seq<(u64, u128)>,
    shares: Seq<(u64, RoundShare)>,
    a: Seq<char>,
    start: u64,
    end: u64,
)
    ensures
        accrued(led, shares, a, start, end) >= 0,
    decreases led.len(),
{
    if led.len() > 0 {
        lemma_accrued_nonneg(led.drop_last(), shares, a, start, end);
        crate::arith::lemma_mul_ratio_floor_nonneg(
            share_in(shares, led.last().0, a),
            led.last().1 as int,
        );
    }
}

/// A prefix of the ledger never accrues more than the whole ledger.
pub proof fn lemma_accrued_prefix_le(
    led: Seq<(u64, u128)>,
    shares: Seq<(u64, RoundShare)>,
    a: Seq<char>,
    start: u64,
    end: u64,
    i: int,
)
    requires
        0 <= i <= led.len(),
    ensures
        accrued(led.take(i), shares, a, start, end) <= accrued(led, shares, a, start, end),
    decreases led.len(),
{
    if i == led.len() {
        assert(led.take(i) =~= led);
    } else {
        assert(led.take(i) =~= led.drop_last().take(i));
        lemma_accrued_prefix_le(led.drop_last(), shares, a, start, end, i);
        crate::arith::lemma_mul_ratio_floor_nonneg(
            share_in(shares, led.last().0, a),
            led.last().1 as int,
        );
    }
}

/// Extending a ledger prefix by one entry adds that entry's accrual.
pub proof fn lemma_accrued_step(
    led: Seq<(u64, u128)>,
    shares: Seq<(u64, RoundShare)>,
    a: Seq<char>,
    start: u64,
    end: u64,
    i: int,
)
    requires
        0 <= i < led.len(),
    ensures
        accrued(led.take(i + 1), shares, a, start, end)
            == accrued(led.take(i), shares, a, start, end)
            + if start <= led[i].0 < end {
                mul_ratio_floor(share_in(shares, led[i].0, a), led[i].1 as int)
            } else {
                0
            },
{
    assert(led.take(i + 1).drop_last() =~= led.take(i));
    assert(led.take(i + 1).last() == led[i]);
}

/// An empty settlement range accrues nothing, whatever the ledger holds.
pub proof fn lemma_accrued_empty(
    led: Seq<(u64, u128)>,
    shares: Seq<(u64, RoundShare)>,
    a: Seq<char>,
    start: u64,
    end: u64,
)
    requires
        start >= end,
    ensures
        accrued(led, shares, a, start, end) == 0,
    decreases led.len(),
{
    if led.len() > 0 {
        lemma_accrued_empty(led.drop_last(), shares, a, start, end);
    }
}

/// Start of the settleable range for a claim: one past the last settled
/// round, or the explicit start round of a first claim.
pub open spec fn spec_claim_start(s: &ReferralState, a: Seq<char>, start_param: Option<u64>) -> u64 {
    match assoc_get(s.last_claim_round.entries@, a) {
        Some(lcr) => (lcr + 1) as u64,
        None => match start_param {
            Some(p) => p,
            None => 0u64,
        },
    }
}

/// The raw reward a claim at `height` settles: the accrual from the claim
/// start up to, and excluding, the round in progress.
pub open spec fn spec_claim_reward(
    s: &ReferralState,
    a: Seq<char>,
    start_param: Option<u64>,
    height: u64,
) -> int {
    match round_of(height) {
        Some(c) => accrued(
            s.ledger.rounds.entries@,
            s.shares.entries@,
            a,
            spec_claim_start(s, a, start_param),
            c,
        ),
        None => 0,
    }
}

// ---------------------------------------------------------------------
// The cascade: splitting a claimed reward across the upline chain.
// ---------------------------------------------------------------------

/// Number of upline hops a cascade with `cap` paying slots takes from
/// `a`: one per slot while the chain continues.
pub open spec fn hops_taken(f: Seq<(String, String)>, a: Seq<char>, cap: nat) -> nat
    decreases cap,
{
    if cap == 0 {
        0
    } else {
        match next_of(f, a) {
            Some(b) => 1 + hops_taken(f, b, (cap - 1) as nat),
            None => 0,
        }
    }
}

/// Total of the hop payouts of slots 1 to `k`.
pub open spec fn sum_hops(w: u128, rs: Seq<u128>, k: nat) -> int
    decreases k,
{
    if k == 0 {
        0
    } else {
        sum_hops(w, rs, (k - 1) as nat) + mul_ratio_floor(w as int, rs[k as int] as int)
    }
}

/// Claimable commission recorded for an address, zero when absent.
pub open spec fn claimable_in(rw: Seq<(String, Reward)>, a: Seq<char>) -> int {
    match assoc_get(rw, a) {
        Some(r) => r.claimable_reward as int,
        None => 0,
    }
}

/// Cumulative commission recorded for an address, zero when absent.
pub open spec fn total_in(rw: Seq<(String, Reward)>, a: Seq<char>) -> int {
    match assoc_get(rw, a) {
        Some(r) => r.total_reward as int,
        None => 0,
    }
}

/// Cumulative audit amount for an (upline, downline) pair, zero when
/// absent.
pub open spec fn history_in(h: Seq<((String, String), u128)>, up: Seq<char>, down: Seq<char>) -> int {
    match pair_get(h, (up, down)) {
        Some(v) => v as int,
        None => 0,
    }
}

/// Whether `t` receives one of the first `k` hops of a cascade from `a`.
pub open spec fn is_hop_target(f: Seq<(String, String)>, a: Seq<char>, k: nat, t: Seq<char>) -> bool {
    exists|i: nat| 1 <= i <= k && ancestor(f, a, i) == Some(t)
}

/// Hop `i` of a cascade from `a` paying `w` has been credited: slot `i`'s
/// floored payout went to the `i`-th ancestor's commission account and to
/// the audit trail.
pub open spec fn hop_done(
    f: Seq<(String, String)>,
    rs: Seq<u128>,
    pre_rewards: Seq<(String, Reward)>,
    cur_rewards: Seq<(String, Reward)>,
    pre_history: Seq<((String, String), u128)>,
    cur_history: Seq<((String, String), u128)>,
    a: Seq<char>,
    w: u128,
    i: nat,
) -> bool {
    let t = ancestor(f, a, i)->Some_0;
    let hop = mul_ratio_floor(w as int, rs[i as int] as int);
    &&& ancestor(f, a, i) is Some
    &&& claimable_in(cur_rewards, t) == claimable_in(pre_rewards, t) + hop
    &&& total_in(cur_rewards, t) == total_in(pre_rewards, t) + hop
    &&& has_key(cur_rewards, t)
    &&& history_in(cur_history, t, a) == history_in(pre_history, t, a) + hop
}

/// What one full cascade does to the commission ledgers: each of the
/// hops it takes credits its slot's payout to the corresponding upline,
/// and no other account or audit entry changes.
pub open spec fn cascade_post(
    f: Seq<(String, String)>,
    rs: Seq<u128>,
    pre_rewards: Seq<(String, Reward)>,
    post_rewards: Seq<(String, Reward)>,
    pre_history: Seq<((String, String), u128)>,
    post_history: Seq<((String, String), u128)>,
    a: Seq<char>,
    w: u128,
) -> bool {
    let k = hops_taken(f, a, (rs.len() - 1) as nat);
    &&& forall|i: nat| 1 <= i <= k
        ==> hop_done(f, rs, pre_rewards, post_rewards, pre_history, post_history, a, w, i)
    &&& forall|t: Seq<char>| !is_hop_target(f, a, k, t)
        ==> assoc_get(post_rewards, t) == assoc_get(pre_rewards, t)
    &&& forall|p: (Seq<char>, Seq<char>)| !(p.1 == a && is_hop_target(f, a, k, p.0))
        ==> pair_get(post_history, p) == pair_get(pre_history, p)
}

/// The self slot plus the first `k` hop payouts of one reward equal the
/// payout at the combined ratio of the first `k + 1` slots.
proof fn lemma_hops_eq_scaled(w: u128, rs: Seq<u128>, k: nat)
    requires
        k < rs.len(),
    ensures
        mul_ratio_floor(w as int, rs[0] as int) + sum_hops(w, rs, k)
            == crate::arith::sum_scaled(w, rs.take(k + 1 as int)),
    decreases k,
{
    if k == 0 {
        assert(sum_hops(w, rs, 0nat) == 0);
        assert(rs.take(1).drop_last() =~= Seq::<u128>::empty());
        assert(rs.take(1).last() == rs[0]);
        assert(crate::arith::sum_scaled(w, rs.take(1))
            == crate::arith::sum_scaled(w, Seq::<u128>::empty())
            + mul_ratio_floor(w as int, rs[0] as int));
    } else {
        lemma_hops_eq_scaled(w, rs, (k - 1) as nat);
        crate::arith::lemma_sum_scaled_step(w, rs, k as int);
        assert(sum_hops(w, rs, k) == sum_hops(w, rs, (k - 1) as nat)
            + mul_ratio_floor(w as int, rs[k as int] as int));
    }
}

/// The claimant's rebate plus every hop payout never exceeds the reward
/// being split, because the slot ratios sum to at most one.
proof fn lemma_cascade_prefix_le(w: u128, rs: Seq<u128>, k: nat)
    requires
        k < rs.len(),
        sum_u128(rs) <= RATIO_ONE,
    ensures
        mul_ratio_floor(w as int, rs[0] as int) + sum_hops(w, rs, k) <= w,
        sum_hops(w, rs, k) >= 0,
    decreases k,
{
    lemma_hops_eq_scaled(w, rs, k);
    crate::arith::lemma_sum_scaled_le(w, rs.take(k + 1 as int));
    crate::arith::lemma_sum_u128_take_le(rs, k + 1 as int);
    crate::arith::lemma_sum_u128_nonneg(rs.take(k + 1 as int));
    crate::arith::lemma_mul_ratio_floor_mono(w as int, sum_u128(rs.take(k + 1 as int)), RATIO_ONE as int);
    crate::arith::lemma_mul_ratio_floor_le(w as int, RATIO_ONE as int);
    if k > 0 {
        lemma_cascade_prefix_le(w, rs, (k - 1) as nat);
        crate::arith::lemma_mul_ratio_floor_nonneg(w as int, rs[k as int] as int);
    }
}

/// Split a claimed reward across the claimant's upline chain: slot 0 of
/// the ratio vector is paid straight back to the claimant, each later
/// slot is credited to the next upline, the walk stops at the chain's
/// end, and whatever the slots did not consume is swept to the collector
/// sink.
pub fn distribute(s: &mut ReferralState, claimant: &String, reward_amount: u128) -> (v: Vec<
    TokenTransfer,
>)
    requires
        old(s).wf(),
        forall|j: int| 0 <= j < old(s).rewards.entries@.len() ==> {
            &&& (#[trigger] old(s).rewards.entries@[j]).1.claimable_reward + reward_amount
                <= u128::MAX
            &&& old(s).rewards.entries@[j].1.total_reward + reward_amount <= u128::MAX
        },
        forall|j: int| 0 <= j < old(s).history.entries@.len()
            ==> (#[trigger] old(s).history.entries@[j]).1 + reward_amount <= u128::MAX,
    ensures
        final(s).wf(),
        reward_amount == 0 ==> *final(s) == *old(s) && v@.len() == 0,
        reward_amount > 0 ==> ({
            let f = old(s).following.entries@;
            let rs = old(s).state.referral_ratio@;
            let k = hops_taken(f, claimant@, (rs.len() - 1) as nat);
            let selfamt = mul_ratio_floor(reward_amount as int, rs[0] as int);
            let resid = reward_amount - selfamt - sum_hops(reward_amount, rs, k);
            &&& cascade_post(
                f,
                rs,
                old(s).rewards.entries@,
                final(s).rewards.entries@,
                old(s).history.entries@,
                final(s).history.entries@,
                claimant@,
                reward_amount,
            )
            &&& resid >= 0
            &&& v@.len() == (if resid > 0 { 2int } else { 1int })
            &&& v@[0].recipient == *claimant
            &&& v@[0].amount == selfamt
            &&& (resid > 0 ==> v@[1].recipient == old(s).state.collector_contract
                && v@[1].amount == resid)
        }),
        final(s).state == old(s).state,
        final(s).referrals == old(s).referrals,
        final(s).following == old(s).following,
        final(s).followers == old(s).followers,
        final(s).last_claim_round == old(s).last_claim_round,
        final(s).shares == old(s).shares,
        final(s).ledger == old(s).ledger,
{
    if reward_amount == 0 {
        return Vec::new();
    }
    let ghost f = s.following.entries@;
    let ghost rs = s.state.referral_ratio@;
    let ghost pre_rewards = s.rewards.entries@;
    let ghost pre_history = s.history.entries@;
    let n = s.state.referral_ratio.len();
    let r0: u128 = s.state.referral_ratio[0];
    proof {
        crate::arith::lemma_sum_u128_element_le(rs, 0);
        crate::arith::lemma_sum_u128_nonneg(rs);
        crate::arith::lemma_mul_ratio_floor_le(reward_amount as int, r0 as int);
        crate::arith::lemma_mul_ratio_floor_nonneg(reward_amount as int, r0 as int);
    }
    let self_amount = crate::fixed::decimal_mul_floor(reward_amount, r0);
    let mut rest: u128 = reward_amount - self_amount;
    let mut target: String = claimant.clone();
    let mut i: usize = 1;
    let ghost mut hops: nat = 0nat;
    while i < n
        invariant
            s.wf(),
            reward_amount > 0,
            1 <= i <= n,
            hops == i - 1,
            n == rs.len(),
            f == s.following.entries@,
            rs == s.state.referral_ratio@,
            s.state == old(s).state,
            s.referrals == old(s).referrals,
            s.following == old(s).following,
            s.followers == old(s).followers,
            s.last_claim_round == old(s).last_claim_round,
            s.shares == old(s).shares,
            s.ledger == old(s).ledger,
            pre_rewards == old(s).rewards.entries@,
            pre_history == old(s).history.entries@,
            ancestor(f, claimant@, hops) == Some(target@),
            hops_taken(f, claimant@, (n - 1) as nat)
                == hops + hops_taken(f, target@, (n - i) as nat),
            rest as int == reward_amount
                - mul_ratio_floor(reward_amount as int, rs[0] as int)
                - sum_hops(reward_amount, rs, hops),
            forall|q: nat| 1 <= q <= hops ==> hop_done(
                f, rs, pre_rewards, s.rewards.entries@, pre_history, s.history.entries@,
                claimant@, reward_amount, q,
            ),
            forall|t: Seq<char>| !is_hop_target(f, claimant@, hops, t)
                ==> assoc_get(s.rewards.entries@, t) == assoc_get(pre_rewards, t),
            forall|p: (Seq<char>, Seq<char>)| !(p.1 == claimant@ && is_hop_target(
                f, claimant@, hops, p.0,
            )) ==> pair_get(s.history.entries@, p) == pair_get(pre_history, p),
            forall|j: int| 0 <= j < pre_rewards.len() ==> {
                &&& (#[trigger] pre_rewards[j]).1.claimable_reward + reward_amount <= u128::MAX
                &&& pre_rewards[j].1.total_reward + reward_amount <= u128::MAX
            },
            forall|j: int| 0 <= j < pre_history.len()
                ==> (#[trigger] pre_history[j]).1 + reward_amount <= u128::MAX,
        ensures
            hops == hops_taken(f, claimant@, (n - 1) as nat),
        decreases n - i,
    {
        let next_opt = s.following.get(&target);
        let t: String = match next_opt {
            None => {
                proof {
                    assert(hops_taken(f, target@, (n - i) as nat) == 0);
                }
                break;
            },
            Some(next) => next.clone(),
        };
        proof {
            assert(next_of(f, target@) == Some(t@));
            assert(ancestor(f, claimant@, (hops + 1) as nat) == Some(t@));
            // the new hop target is none of the previous ones: the chain
            // cannot revisit a node
            assert forall|q: nat| 1 <= q <= hops implies ancestor(f, claimant@, q) != Some(t@) by {
                if ancestor(f, claimant@, q) == Some(t@) {
                    lemma_ancestor_add(f, claimant@, q, (hops + 1 - q) as nat);
                    assert(ancestor(f, t@, (hops + 1 - q) as nat) == Some(t@));
                }
            }
            assert(!is_hop_target(f, claimant@, hops, t@));
        }
        let ri: u128 = s.state.referral_ratio[i];
        proof {
            crate::arith::lemma_sum_u128_element_le(rs, i as int);
            crate::arith::lemma_mul_ratio_floor_le(reward_amount as int, ri as int);
            crate::arith::lemma_mul_ratio_floor_nonneg(reward_amount as int, ri as int);
            lemma_cascade_prefix_le(reward_amount, rs, (hops + 1) as nat);
            assert(sum_hops(reward_amount, rs, (hops + 1) as nat)
                == sum_hops(reward_amount, rs, hops)
                + mul_ratio_floor(reward_amount as int, rs[i as int] as int));
        }
        let hop = crate::fixed::decimal_mul_floor(reward_amount, ri);
        rest = rest - hop;
        // credit the hop to the upline's commission account
        let ghost rw_pre = s.rewards.entries@;
        match s.rewards.find(&t) {
            Some(j) => {
                let prev: Reward = s.rewards.entries[j].1;
                proof {
                    assert(assoc_get(rw_pre, t@) == assoc_get(pre_rewards, t@));
                    assert(has_key(pre_rewards, t@));
                    let jj = crate::store::key_index(pre_rewards, t@);
                    assert(pre_rewards[jj].1 == prev);
                }
                s.rewards.set_at(j, &t, Reward {
                    claimable_reward: prev.claimable_reward + hop,
                    total_reward: prev.total_reward + hop,
                });
            },
            None => {
                s.rewards.insert_new(t.clone(), Reward { claimable_reward: hop, total_reward: hop });
            },
        }
        proof {
            assert forall|k2: Seq<char>| k2 != t@ implies assoc_get(s.rewards.entries@, k2)
                == assoc_get(rw_pre, k2) by {
                assert(s.rewards.spec_get(k2) == assoc_get(s.rewards.entries@, k2));
            }
        }
        // record the hop in the audit trail
        let ghost h_pre = s.history.entries@;
        match s.history.find(&t, claimant) {
            Some(j) => {
                let prev: u128 = s.history.entries[j].1;
                proof {
                    assert(pair_get(h_pre, (t@, claimant@)) == pair_get(pre_history, (t@, claimant@)));
                    assert(crate::store::has_pair(pre_history, (t@, claimant@)));
                    let jj = crate::store::pair_index(pre_history, (t@, claimant@));
                    assert(pre_history[jj].1 == prev);
                }
                let cell = s.history.val_mut(j);
                *cell = prev + hop;
                proof {
                    lemma_pair_update(h_pre, j as int, (prev + hop) as u128);
                }
            },
            None => {
                s.history.insert_new((t.clone(), claimant.clone()), hop);
            },
        }
        proof {
            assert forall|p2: (Seq<char>, Seq<char>)| p2 != (t@, claimant@)
                implies pair_get(s.history.entries@, p2) == pair_get(h_pre, p2) by {
                assert(s.history.spec_get(p2) == pair_get(s.history.entries@, p2));
            }
            hops = hops + 1;
            // the new hop is done, the old ones persist, and nothing else
            // moved
            assert forall|x: Seq<char>| !is_hop_target(f, claimant@, hops, x)
                implies assoc_get(s.rewards.entries@, x) == assoc_get(pre_rewards, x) by {
                if is_hop_target(f, claimant@, (hops - 1) as nat, x) {
                    let q = choose|q: nat| 1 <= q <= (hops - 1) as nat
                        && ancestor(f, claimant@, q) == Some(x);
                    assert(1 <= q <= hops && ancestor(f, claimant@, q) == Some(x));
                    assert(is_hop_target(f, claimant@, hops, x));
                }
                if x == t@ {
                    assert(ancestor(f, claimant@, hops) == Some(t@));
                    assert(is_hop_target(f, claimant@, hops, x));
                }
            }
            assert forall|p: (Seq<char>, Seq<char>)| !(p.1 == claimant@ && is_hop_target(
                f, claimant@, hops, p.0,
            )) implies pair_get(s.history.entries@, p) == pair_get(pre_history, p) by {
                if p.1 == claimant@ && p.0 == t@ {
                    assert(ancestor(f, claimant@, hops) == Some(t@));
                    assert(is_hop_target(f, claimant@, hops, p.0));
                }
                if p.1 == claimant@ && is_hop_target(f, claimant@, (hops - 1) as nat, p.0) {
                    let q = choose|q: nat| 1 <= q <= (hops - 1) as nat
                        && ancestor(f, claimant@, q) == Some(p.0);
                    assert(1 <= q <= hops && ancestor(f, claimant@, q) == Some(p.0));
                    assert(is_hop_target(f, claimant@, hops, p.0));
                }
                assert(p != (t@, claimant@));
            }
            assert forall|q: nat| 1 <= q <= hops implies hop_done(
                f, rs, pre_rewards, s.rewards.entries@, pre_history, s.history.entries@,
                claimant@, reward_amount, q,
            ) by {
                if q < hops {
                    assert(hop_done(
                        f, rs, pre_rewards, rw_pre, pre_history, h_pre, claimant@,
                        reward_amount, q,
                    ));
                    let tq = ancestor(f, claimant@, q)->Some_0;
                    assert(ancestor(f, claimant@, q) != Some(t@));
                    assert(tq != t@);
                    assert(assoc_get(s.rewards.entries@, tq) == assoc_get(rw_pre, tq));
                    assert(pair_get(s.history.entries@, (tq, claimant@))
                        == pair_get(h_pre, (tq, claimant@)));
                } else {
                    assert(q == hops);
                    assert(ancestor(f, claimant@, q) == Some(t@));
                }
            }
        }
        target = t;
        i = i + 1;
    }
    let mut v: Vec<TokenTransfer> = Vec::new();
    v.push(TokenTransfer { recipient: claimant.clone(), amount: self_amount });
    if rest > 0 {
        v.push(TokenTransfer { recipient: s.state.collector_contract.clone(), amount: rest });
    }
    v
}

/// Settle the caller's accrued reward and run the cascade on it: the
/// rounds from the claim start up to the round in progress are summed
/// with the caller's per-round shares, the cursor moves to just before
/// the round in progress, and the settled amount is split across the
/// upline chain.  Claiming before round 0 has started is a typed error,
/// not a crash.
pub fn execute_claim(
    s: &mut ReferralState,
    sender: &String,
    height: u64,
    start_round: Option<u64>,
) -> (r: Result<Vec<TokenTransfer>, ContractError>)
    requires
        old(s).wf(),
        spec_claim_reward(old(s), sender@, start_round, height) <= u128::MAX,
        forall|j: int| 0 <= j < old(s).rewards.entries@.len() ==> {
            &&& (#[trigger] old(s).rewards.entries@[j]).1.claimable_reward
                + spec_claim_reward(old(s), sender@, start_round, height) <= u128::MAX
            &&& old(s).rewards.entries@[j].1.total_reward
                + spec_claim_reward(old(s), sender@, start_round, height) <= u128::MAX
        },
        forall|j: int| 0 <= j < old(s).history.entries@.len()
            ==> (#[trigger] old(s).history.entries@[j]).1
                + spec_claim_reward(old(s), sender@, start_round, height) <= u128::MAX,
    ensures
        final(s).wf(),
        (r is Err <==> round_of(height) is None),
        r is Err ==> r == Result::<Vec<TokenTransfer>, ContractError>::Err(
            ContractError::RoundNotActive,
        ) && *final(s) == *old(s),
        round_of(height) == Some(0u64) ==> *final(s) == *old(s)
            && (r matches Ok(v) && v@.len() == 0),
        (match round_of(height) {
            Some(c) => c > 0,
            None => false,
        }) ==> ({
            let c = round_of(height)->Some_0;
            let w = spec_claim_reward(old(s), sender@, start_round, height);
            let f = old(s).following.entries@;
            let rs = old(s).state.referral_ratio@;
            let k = hops_taken(f, sender@, (rs.len() - 1) as nat);
            let selfamt = mul_ratio_floor(w, rs[0] as int);
            let resid = w - selfamt - sum_hops(w as u128, rs, k);
            &&& r is Ok
            &&& final(s).spec_last_claim_round(sender@) == Some((c - 1) as u64)
            &&& forall|a2: Seq<char>| a2 != sender@
                ==> assoc_get(final(s).last_claim_round.entries@, a2)
                    == assoc_get(old(s).last_claim_round.entries@, a2)
            &&& (w == 0 ==> final(s).rewards == old(s).rewards
                && final(s).history == old(s).history
                && (r matches Ok(v) && v@.len() == 0))
            &&& (w > 0 ==> cascade_post(
                f,
                rs,
                old(s).rewards.entries@,
                final(s).rewards.entries@,
                old(s).history.entries@,
                final(s).history.entries@,
                sender@,
                w as u128,
            ) && (r matches Ok(v) ==> v@.len() == (if resid > 0 { 2int } else { 1int })
                && v@[0].recipient == *sender && v@[0].amount == selfamt
                && (resid > 0 ==> v@[1].recipient == old(s).state.collector_contract
                    && v@[1].amount == resid)))
            &&& final(s).state == old(s).state
            &&& final(s).referrals == old(s).referrals
            &&& final(s).following == old(s).following
            &&& final(s).followers == old(s).followers
            &&& final(s).shares == old(s).shares
            &&& final(s).ledger == old(s).ledger
        }),
{
    let c = match crate::round::get_round(height) {
        None => {
            return Err(ContractError::RoundNotActive);
        },
        Some(c) => c,
    };
    if c == 0 {
        return Ok(Vec::new());
    }
    // the settleable range starts one past the cursor, or at the
    // explicit start round of a first claim
    let start: u64 = match s.last_claim_round.find(sender) {
        Some(j) => s.last_claim_round.entries[j].1 + 1,
        None => match start_round {
            Some(p) => p,
            None => 0,
        },
    };
    proof {
        assert(start == spec_claim_start(old(s), sender@, start_round));
    }
    // move the cursor to the round before the one in progress
    let ghost lcr_pre = s.last_claim_round.entries@;
    match s.last_claim_round.find(sender) {
        Some(j) => {
            s.last_claim_round.set_at(j, sender, c - 1);
            proof {
                assert forall|j2: int| 0 <= j2 < s.last_claim_round.entries@.len()
                    implies s.last_claim_round.entries@[j2].1 < u64::MAX by {
                    if j2 != j as int {
                        assert(s.last_claim_round.entries@[j2] == lcr_pre[j2]);
                    }
                }
            }
        },
        None => {
            s.last_claim_round.insert_new(sender.clone(), c - 1);
            proof {
                assert forall|j2: int| 0 <= j2 < s.last_claim_round.entries@.len()
                    implies s.last_claim_round.entries@[j2].1 < u64::MAX by {
                    if j2 < lcr_pre.len() {
                        assert(s.last_claim_round.entries@[j2] == lcr_pre[j2]);
                    }
                }
            }
        },
    }
    proof {
        assert forall|a2: Seq<char>| a2 != sender@
            implies assoc_get(s.last_claim_round.entries@, a2) == assoc_get(lcr_pre, a2) by {
            assert(s.last_claim_round.spec_get(a2) == assoc_get(s.last_claim_round.entries@, a2));
        }
    }
    // settle: ascending scan of the ledger rounds in [start, c)
    let ghost led = s.ledger.rounds.entries@;
    let ghost shs = s.shares.entries@;
    let ghost lcr_mid = s.last_claim_round;
    proof {
        assert(led.take(0) =~= Seq::<(u64, u128)>::empty());
        assert(accrued(led, shs, sender@, start, c)
            == spec_claim_reward(old(s), sender@, start_round, height));
    }
    let mut w: u128 = 0;
    let mut idx: usize = 0;
    while idx < s.ledger.rounds.entries.len()
        invariant
            idx <= led.len(),
            s.wf(),
            led == s.ledger.rounds.entries@,
            shs == s.shares.entries@,
            s.state == old(s).state,
            s.referrals == old(s).referrals,
            s.following == old(s).following,
            s.followers == old(s).followers,
            s.shares == old(s).shares,
            s.ledger == old(s).ledger,
            s.rewards == old(s).rewards,
            s.history == old(s).history,
            s.last_claim_round == lcr_mid,
            w == accrued(led.take(idx as int), shs, sender@, start, c),
            accrued(led, shs, sender@, start, c) <= u128::MAX,
        decreases led.len() - idx,
    {
        let entry_round: u64 = s.ledger.rounds.entries[idx].0;
        let entry_ratio: u128 = s.ledger.rounds.entries[idx].1;
        proof {
            lemma_accrued_step(led, shs, sender@, start, c, idx as int);
            lemma_accrued_prefix_le(led, shs, sender@, start, c, idx as int + 1);
            lemma_accrued_nonneg(led.take(idx as int), shs, sender@, start, c);
        }
        if start <= entry_round && entry_round < c {
            let share: u128 = match s.shares.find(entry_round) {
                Some(si) => {
                    match s.shares.entries[si].1.shares.get(sender) {
                        Some(v) => *v,
                        None => 0,
                    }
                },
                None => 0,
            };
            proof {
                assert(share as int == share_in(shs, entry_round, sender@));
                crate::arith::lemma_mul_ratio_floor_nonneg(share as int, entry_ratio as int);
            }
            let pay = crate::fixed::decimal_mul_floor(share, entry_ratio);
            w = w + pay;
        }
        idx = idx + 1;
    }
    proof {
        assert(led.take(led.len() as int) =~= led);
    }
    // cascade the settled amount across the upline chain
    let msgs: Vec<TokenTransfer> = if w > 0 {
        distribute(s, sender, w)
    } else {
        Vec::new()
    };
    Ok(msgs)
}

/// Settlement is idempotent: once a claim has moved the cursor to just
/// below the round in progress, a second claim at the same height, with
/// no deposit, withdrawal or new settled round in between, settles
/// nothing.
pub proof fn lemma_claim_idempotent(
    s: &ReferralState,
    a: Seq<char>,
    start_param: Option<u64>,
    height: u64,
)
    requires
        round_of(height) is Some,
        round_of(height)->Some_0 > 0,
        s.spec_last_claim_round(a) == Some((round_of(height)->Some_0 - 1) as u64),
    ensures
        spec_claim_reward(s, a, start_param, height) == 0,
{
    let c = round_of(height)->Some_0;
    assert(spec_claim_start(s, a, start_param) == c);
    lemma_accrued_empty(s.ledger.rounds.entries@, s.shares.entries@, a, c, c);
}

/// Conservation of one settled share round: the ratio written for it is
/// `amount / total`, and the floored payouts of every share together
/// never exceed the settled amount.
pub proof fn lemma_share_round_conservation(row: RoundShare, amount: u128)
    requires
        row_wf(row),
        row.total > 0,
        ratio_floor(amount as int, row.total as int) <= u128::MAX,
    ensures
        0 <= crate::arith::sum_payouts(
            share_vals(row.shares.entries@),
            (ratio_floor(amount as int, row.total as int)) as u128,
        ),
        crate::arith::sum_payouts(
            share_vals(row.shares.entries@),
            (ratio_floor(amount as int, row.total as int)) as u128,
        ) <= amount,
{
    crate::arith::lemma_round_conservation(share_vals(row.shares.entries@), row.total, amount);
}

/// Preview of the next claim's self payout: the accrual over the
/// settleable range with the self slot already applied to each round's
/// payout, floored twice exactly as a claim would.
pub open spec fn spec_reward_preview(
    led: Seq<(u64, u128)>,
    shares: Seq<(u64, RoundShare)>,
    a: Seq<char>,
    start: u64,
    end: u64,
    r0: u128,
) -> int
    decreases led.len(),
{
    if led.len() == 0 {
        0
    } else {
        spec_reward_preview(led.drop_last(), shares, a, start, end, r0) + if start <= led.last().0
            < end {
            mul_ratio_floor(
                mul_ratio_floor(share_in(shares, led.last().0, a), led.last().1 as int),
                r0 as int,
            )
        } else {
            0
        }
    }
}

/// The claimable self reward of an address at a height, before any
/// state changes: each settleable round's payout scaled by the self
/// slot.
pub fn query_reward(s: &ReferralState, addr: &String, height: u64) -> (r: Result<
    u128,
    ContractError,
>)
    requires
        s.wf(),
        match round_of(height) {
            Some(c) => spec_reward_preview(
                s.ledger.rounds.entries@,
                s.shares.entries@,
                addr@,
                spec_claim_start(s, addr@, None),
                c,
                s.state.referral_ratio@[0],
            ) <= u128::MAX && accrued(
                s.ledger.rounds.entries@,
                s.shares.entries@,
                addr@,
                spec_claim_start(s, addr@, None),
                c,
            ) <= u128::MAX,
            None => true,
        },
    ensures
        (r is Err <==> round_of(height) is None),
        r is Err ==> r == Result::<u128, ContractError>::Err(ContractError::RoundNotActive),
        r matches Ok(v) ==> v as int == spec_reward_preview(
            s.ledger.rounds.entries@,
            s.shares.entries@,
            addr@,
            spec_claim_start(s, addr@, None),
            round_of(height)->Some_0,
            s.state.referral_ratio@[0],
        ),
{
    let c = match crate::round::get_round(height) {
        None => {
            return Err(ContractError::RoundNotActive);
        },
        Some(c) => c,
    };
    let start: u64 = match s.last_claim_round.find(addr) {
        Some(j) => s.last_claim_round.entries[j].1 + 1,
        None => 0,
    };
    let r0: u128 = s.state.referral_ratio[0];
    let ghost led = s.ledger.rounds.entries@;
    let ghost shs = s.shares.entries@;
    let mut acc: u128 = 0;
    let mut idx: usize = 0;
    proof {
        assert(led.take(0) =~= Seq::<(u64, u128)>::empty());
    }
    while idx < s.ledger.rounds.entries.len()
        invariant
            idx <= led.len(),
            s.wf(),
            led == s.ledger.rounds.entries@,
            shs == s.shares.entries@,
            r0 == s.state.referral_ratio@[0],
            s.state.referral_ratio@.len() >= 1,
            acc == spec_reward_preview(led.take(idx as int), shs, addr@, start, c, r0),
            spec_reward_preview(led, shs, addr@, start, c, r0) <= u128::MAX,
            accrued(led, shs, addr@, start, c) <= u128::MAX,
        decreases led.len() - idx,
    {
        let entry_round: u64 = s.ledger.rounds.entries[idx].0;
        let entry_ratio: u128 = s.ledger.rounds.entries[idx].1;
        proof {
            assert(led.take(idx as int + 1).drop_last() =~= led.take(idx as int));
            assert(led.take(idx as int + 1).last() == led[idx as int]);
            lemma_preview_prefix_le(led, shs, addr@, start, c, r0, idx as int + 1);
            lemma_preview_nonneg(led.take(idx as int), shs, addr@, start, c, r0);
            lemma_accrued_step(led, shs, addr@, start, c, idx as int);
            lemma_accrued_prefix_le(led, shs, addr@, start, c, idx as int + 1);
            lemma_accrued_nonneg(led.take(idx as int), shs, addr@, start, c);
        }
        if start <= entry_round && entry_round < c {
            let share: u128 = match s.shares.find(entry_round) {
                Some(si) => {
                    match s.shares.entries[si].1.shares.get(addr) {
                        Some(v) => *v,
                        None => 0,
                    }
                },
                None => 0,
            };
            proof {
                assert(share as int == share_in(shs, entry_round, addr@));
                crate::arith::lemma_mul_ratio_floor_nonneg(share as int, entry_ratio as int);
                crate::arith::lemma_mul_ratio_floor_nonneg(
                    mul_ratio_floor(share as int, entry_ratio as int),
                    r0 as int,
                );
            }
            let pay = crate::fixed::decimal_mul_floor(share, entry_ratio);
            let pay0 = crate::fixed::decimal_mul_floor(pay, r0);
            acc = acc + pay0;
        }
        idx = idx + 1;
    }
    proof {
        assert(led.take(led.len() as int) =~= led);
    }
    Ok(acc)
}

/// Every preview term is a floored payout, so the total never goes
/// negative.
proof fn lemma_preview_nonneg(
    led: Seq<(u64, u128)>,
    shares: Seq<(u64, RoundShare)>,
    a: Seq<char>,
    start: u64,
    end: u64,
    r0: u128,
)
    ensures
        spec_reward_preview(led, shares, a, start, end, r0) >= 0,
    decreases led.len(),
{
    if led.len() > 0 {
        lemma_preview_nonneg(led.drop_last(), shares, a, start, end, r0);
        crate::arith::lemma_mul_ratio_floor_nonneg(
            share_in(shares, led.last().0, a),
            led.last().1 as int,
        );
        crate::arith::lemma_mul_ratio_floor_nonneg(
            mul_ratio_floor(share_in(shares, led.last().0, a), led.last().1 as int),
            r0 as int,
        );
    }
}

/// A prefix of the preview never sums to more than the whole preview.
proof fn lemma_preview_prefix_le(
    led: Seq<(u64, u128)>,
    shares: Seq<(u64, RoundShare)>,
    a: Seq<char>,
    start: u64,
    end: u64,
    r0: u128,
    i: int,
)
    requires
        0 <= i <= led.len(),
    ensures
        spec_reward_preview(led.take(i), shares, a, start, end, r0)
            <= spec_reward_preview(led, shares, a, start, end, r0),
    decreases led.len(),
{
    if i == led.len() {
        assert(led.take(i) =~= led);
    } else {
        assert(led.take(i) =~= led.drop_last().take(i));
        lemma_preview_prefix_le(led.drop_last(), shares, a, start, end, r0, i);
        crate::arith::lemma_mul_ratio_floor_nonneg(
            share_in(shares, led.last().0, a),
            led.last().1 as int,
        );
        crate::arith::lemma_mul_ratio_floor_nonneg(
            mul_ratio_floor(share_in(shares, led.last().0, a), led.last().1 as int),
            r0 as int,
        );
    }
}

/// The stored identity of a registered referral.
pub fn query_referral<'a>(s: &'a ReferralState, addr: &String) -> (r: Option<&'a Referral>)
    requires
        s.wf(),
    ensures
        match r {
            Some(v) => s.spec_registered(addr@) && assoc_get(s.referrals.entries@, addr@)
                == Some(*v),
            None => !s.spec_registered(addr@),
        },
{
    s.referrals.get(addr)
}

/// The upline an address follows, if it has one.
pub fn query_following<'a>(s: &'a ReferralState, addr: &String) -> (r: Option<&'a String>)
    requires
        s.wf(),
    ensures
        match r {
            Some(v) => next_of(s.following.entries@, addr@) == Some(v@),
            None => next_of(s.following.entries@, addr@) is None,
        },
{
    s.following.get(addr)
}

/// The reward ratio written for a round, if the round was settled.
pub fn query_round(s: &ReferralState, round: u64) -> (r: Option<crate::ledger::RoundInfo>)
    requires
        s.wf(),
    ensures
        match r {
            Some(v) => s.ledger.spec_ratio(round) == Some(v.reward_ratio),
            None => s.ledger.spec_ratio(round) is None,
        },
{
    match s.ledger.rounds.get(round) {
        Some(v) => Some(crate::ledger::RoundInfo { reward_ratio: *v }),
        None => None,
    }
}

/// A round's total share and one address's share of it.
pub fn query_reward_share(s: &ReferralState, round: u64, addr: &String) -> (r: (u128, u128))
    requires
        s.wf(),
    ensures
        r.0 as int == s.spec_total_share(round),
        r.1 as int == s.spec_share_of(round, addr@),
{
    match s.shares.find(round) {
        Some(i) => {
            let total = s.shares.entries[i].1.total;
            let share = match s.shares.entries[i].1.shares.get(addr) {
                Some(v) => *v,
                None => 0,
            };
            (total, share)
        },
        None => (0, 0),
    }
}

/// The cumulative and claimable commission of an address.
pub fn query_referral_reward(s: &ReferralState, addr: &String) -> (r: Option<Reward>)
    requires
        s.wf(),
    ensures
        r == s.spec_reward_of(addr@),
{
    match s.rewards.get(addr) {
        Some(v) => Some(*v),
        None => None,
    }
}

/// The settlement cursor of an address, if it ever claimed.
pub fn query_last_claim_round(s: &ReferralState, addr: &String) -> (r: Option<u64>)
    requires
        s.wf(),
    ensures
        r == s.spec_last_claim_round(addr@),
{
    match s.last_claim_round.get(addr) {
        Some(v) => Some(*v),
        None => None,
    }
}

/// One page of settled rounds: the rounds strictly after `start_after`
/// (all of them when it is absent), in ascending order, at most `n`.
pub open spec fn rounds_page(s: Seq<(u64, u128)>, start_after: Option<u64>, n: nat) -> Seq<
    (u64, u128),
>
    decreases s.len(),
{
    if s.len() == 0 || n == 0 {
        Seq::empty()
    } else {
        if (match start_after {
            Some(x) => s.first().0 > x,
            None => true,
        }) {
            seq![s.first()] + rounds_page(s.drop_first(), start_after, (n - 1) as nat)
        } else {
            rounds_page(s.drop_first(), start_after, n)
        }
    }
}

/// Paginated ascending listing of the settled rounds and their ratios;
/// the page size defaults to 20 and is capped there.
pub fn query_rounds(s: &ReferralState, start_after: Option<u64>, limit: Option<u64>) -> (v: Vec<
    (u64, u128),
>)
    requires
        s.wf(),
    ensures
        ({
            let n = match limit {
                Some(l) => if l < 20 { l as nat } else { 20nat },
                None => 20nat,
            };
            v@ == rounds_page(s.ledger.rounds.entries@, start_after, n)
        }),
{
    let cap: u64 = match limit {
        Some(l) => if l < 20 {
            l
        } else {
            20
        },
        None => 20,
    };
    let ghost led = s.ledger.rounds.entries@;
    let ghost n = cap as nat;
    let mut v: Vec<(u64, u128)> = Vec::new();
    let mut i: usize = 0;
    proof {
        assert(led.skip(0) =~= led);
    }
    while i < s.ledger.rounds.entries.len()
        invariant
            i <= led.len(),
            led == s.ledger.rounds.entries@,
            v@.len() <= n,
            n == cap as nat,
            cap <= 20,
            rounds_page(led, start_after, n) == v@ + rounds_page(
                led.skip(i as int),
                start_after,
                (n - v@.len()) as nat,
            ),
        ensures
            v@ == rounds_page(led, start_after, n),
        decreases led.len() - i,
    {
        if v.len() >= cap as usize {
            proof {
                assert(rounds_page(led.skip(i as int), start_after, (n - v@.len()) as nat)
                    =~= Seq::<(u64, u128)>::empty());
                assert(v@ + Seq::<(u64, u128)>::empty() =~= v@);
            }
            break;
        }
        let entry = s.ledger.rounds.entries[i];
        let ghost pre = v@;
        proof {
            assert(led.skip(i as int).first() == led[i as int]);
            assert(led.skip(i as int).drop_first() =~= led.skip(i as int + 1));
        }
        let keep: bool = match start_after {
            Some(x) => entry.0 > x,
            None => true,
        };
        if keep {
            v.push(entry);
            proof {
                assert(pre + (seq![led[i as int]] + rounds_page(
                    led.skip(i as int + 1),
                    start_after,
                    (n - v@.len()) as nat,
                )) =~= v@ + rounds_page(led.skip(i as int + 1), start_after, (n - v@.len()) as nat));
            }
        }
        i = i + 1;
    }
    proof {
        if i == led.len() {
            assert(led.skip(i as int) =~= Seq::<(u64, u128)>::empty());
            assert(v@ + Seq::<(u64, u128)>::empty() =~= v@);
        }
    }
    v
}

/// The followers of a target, in arrival order.
pub open spec fn followers_of(fl: Seq<(String, String)>, t: Seq<char>) -> Seq<String>
    decreases fl.len(),
{
    if fl.len() == 0 {
        Seq::empty()
    } else {
        let rest = followers_of(fl.drop_last(), t);
        if fl.last().0@ == t {
            rest.push(fl.last().1)
        } else {
            rest
        }
    }
}

/// List a target's followers in arrival order, each with the cumulative
/// amount its claims have paid toward `reward_addr`.
pub fn query_followers(s: &ReferralState, reward_addr: &String, target_addr: &String) -> (v: Vec<
    (String, u128),
>)
    requires
        s.wf(),
    ensures
        v@.len() == followers_of(s.followers@, target_addr@).len(),
        forall|i: int| #![trigger v@[i]] 0 <= i < v@.len()
            ==> v@[i].0 == followers_of(s.followers@, target_addr@)[i]
            && v@[i].1 as int == s.spec_history(reward_addr@, v@[i].0@),
{
    let ghost fl = s.followers@;
    let mut v: Vec<(String, u128)> = Vec::new();
    let mut i: usize = 0;
    proof {
        assert(fl.take(0) =~= Seq::<(String, String)>::empty());
    }
    while i < s.followers.len()
        invariant
            i <= fl.len(),
            fl == s.followers@,
            s.wf(),
            v@.len() == followers_of(fl.take(i as int), target_addr@).len(),
            forall|j: int| #![trigger v@[j]] 0 <= j < v@.len() ==> v@[j].0 == followers_of(
                fl.take(i as int),
                target_addr@,
            )[j] && v@[j].1 as int == s.spec_history(reward_addr@, v@[j].0@),
        decreases fl.len() - i,
    {
        proof {
            assert(fl.take(i as int + 1).drop_last() =~= fl.take(i as int));
            assert(fl.take(i as int + 1).last() == fl[i as int]);
        }
        if s.followers[i].0 == *target_addr {
            let follower = s.followers[i].1.clone();
            let amount: u128 = match s.history.find(reward_addr, &follower) {
                Some(j) => s.history.entries[j].1,
                None => 0,
            };
            v.push((follower, amount));
        }
        i = i + 1;
    }
    proof {
        assert(fl.take(fl.len() as int) =~= fl);
        assert(followers_of(fl.take(fl.len() as int), target_addr@)
            == followers_of(fl, target_addr@));
    }
    v
}

/// Paginated listing of the registered referral identities, in
/// registration order: the page skips `start_after` entries and holds at
/// most 20.
pub fn query_referrals(s: &ReferralState, start_after: Option<u64>, limit: Option<u64>) -> (v: Vec<
    (String, Referral),
>)
    requires
        s.wf(),
    ensures
        ({
            let skip = match start_after {
                Some(x) => x as int,
                None => 0int,
            };
            let n = match limit {
                Some(l) => if l < 20 { l as int } else { 20int },
                None => 20int,
            };
            &&& v@.len() == (if skip >= s.referrals.entries@.len() {
                0int
            } else if s.referrals.entries@.len() - skip < n {
                s.referrals.entries@.len() - skip
            } else {
                n
            })
            &&& forall|i: int| #![trigger v@[i]] 0 <= i < v@.len()
                ==> v@[i].0 == s.referrals.entries@[skip + i].0
                && v@[i].1 == s.referrals.entries@[skip + i].1
        }),
{
    let cap: u64 = match limit {
        Some(l) => if l < 20 {
            l
        } else {
            20
        },
        None => 20,
    };
    let skip: u64 = match start_after {
        Some(x) => x,
        None => 0,
    };
    let mut v: Vec<(String, Referral)> = Vec::new();
    let total = s.referrals.entries.len();
    if skip >= total as u64 {
        return v;
    }
    let mut i: usize = skip as usize;
    let end: usize = if total as u64 - skip < cap {
        total
    } else {
        (skip + cap) as usize
    };
    while i < end
        invariant
            skip as int <= i as int <= end as int,
            end <= s.referrals.entries@.len(),
            s.wf(),
            v@.len() == i - skip,
            forall|j: int| #![trigger v@[j]] 0 <= j < v@.len()
                ==> v@[j].0 == s.referrals.entries@[skip + j].0
                && v@[j].1 == s.referrals.entries@[skip + j].1,
        decreases end - i,
    {
        let name = s.referrals.entries[i].1.name.clone();
        let description = s.referrals.entries[i].1.description.clone();
        v.push((s.referrals.entries[i].0.clone(), Referral { name, description }));
        i = i + 1;
    }
    v
}

/// A round's whole share table: the total and every (address, share)
/// pair, in arrival order.
pub fn query_reward_shares(s: &ReferralState, round: u64) -> (r: (u128, Vec<(String, u128)>))
    requires
        s.wf(),
    ensures
        r.0 as int == s.spec_total_share(round),
        ({
            let row = round_get(s.shares.entries@, round);
            match row {
                Some(rs) => r.1@.len() == rs.shares.entries@.len()
                    && forall|i: int| #![trigger r.1@[i]] 0 <= i < r.1@.len()
                        ==> r.1@[i].0 == rs.shares.entries@[i].0
                        && r.1@[i].1 == rs.shares.entries@[i].1,
                None => r.1@.len() == 0,
            }
        }),
{
    let i = match s.shares.find(round) {
        None => {
            return (0, Vec::new());
        },
        Some(i) => i,
    };
    let total = s.shares.entries[i].1.total;
    let mut v: Vec<(String, u128)> = Vec::new();
    let mut j: usize = 0;
    let ghost row = s.shares.entries@[i as int].1;
    while j < s.shares.entries[i].1.shares.entries.len()
        invariant
            i < s.shares.entries@.len(),
            row == s.shares.entries@[i as int].1,
            j <= row.shares.entries@.len(),
            v@.len() == j,
            forall|q: int| #![trigger v@[q]] 0 <= q < v@.len()
                ==> v@[q].0 == row.shares.entries@[q].0 && v@[q].1 == row.shares.entries@[q].1,
        decreases row.shares.entries@.len() - j,
    {
        v.push((
            s.shares.entries[i].1.shares.entries[j].0.clone(),
            s.shares.entries[i].1.shares.entries[j].1,
        ));
        j = j + 1;
    }
    (total, v)
}

} // verus!
