use vstd::prelude::*;
use crate::{ContractError, TokenTransfer};
use crate::fixed::{ratio_floor, mul_ratio_floor, decimal_from_ratio, decimal_mul_floor};
use crate::arith::{sum_u128, lemma_sum_u128_update, lemma_sum_u128_push, lemma_sum_u128_element_le};
use crate::round::round_of;
use crate::store::{AddrMap, assoc_get, lemma_assoc_update};
use crate::ledger::{RewardLedger, sum_range, lemma_sum_range_empty};

verus! {

/// Configuration of the house, changed only through `execute_update`.
#[derive(Debug, Clone)]
pub struct State {
    pub gov_contract: String,
    pub zerosum_token: String,
    pub terraswap_contract: String,
    pub collector_contract: String,
    pub referral_contract: String,
    pub distributor_contract: String,
    pub reward_contract: String,
    /// Largest fraction of a pool's balance one settlement may pay out,
    /// in ratio atomics.
    pub max_output_rate: u128,
}

/// A staker's account in one pool: the principal and the cursor of the
/// last settled round.
#[derive(Debug, Clone, Copy, PartialEq, Eq, Structural)]
pub struct DepositInfo {
    pub amount: u128,
    pub last_claim_round: Option<u64>,
}

/// Static description of a liquidity pool.  The pool is keyed by its
/// asset key string; what the asset itself is only the surrounding
/// driver knows.
#[derive(Debug, Clone)]
pub struct PoolInfo {
    pub name: String,
    pub total_supply: u128,
    pub swap_contract: String,
    pub reward_weight: u128,
}

/// A registered game contract allowed to settle bets.
#[derive(Debug, Clone)]
pub struct GameInfo {
    pub name: String,
    pub description: String,
    pub url: String,
    pub address: String,
    pub creator: String,
}

/// One pool with its stakers and its settled-round ledger.
pub struct Pool {
    pub info: PoolInfo,
    pub deposits: AddrMap<DepositInfo>,
    pub ledger: RewardLedger,
}

/// The whole persisted state of the house.
pub struct HouseState {
    pub state: State,
    pub pools: AddrMap<Pool>,
    pub games: AddrMap<GameInfo>,
}

/// Principal amounts of a deposit map, in entry order.
pub open spec fn dep_vals(s: Seq<(String, DepositInfo)>) -> Seq<u128> {
    s.map_values(|p: (String, DepositInfo)| p.1.amount)
}

/// A pool is well formed when its recorded total supply is the sum of
/// its stakers' principals and its cursors can still advance.
pub open spec fn pool_wf(p: Pool) -> bool {
    &&& p.deposits.wf()
    &&& p.ledger.wf()
    &&& p.info.total_supply as int == sum_u128(dep_vals(p.deposits.entries@))
    &&& forall|j: int| 0 <= j < p.deposits.entries@.len()
        ==> match (#[trigger] p.deposits.entries@[j]).1.last_claim_round {
            Some(l) => l < u64::MAX,
            None => true,
        }
}

impl HouseState {
    pub open spec fn wf(&self) -> bool {
        &&& self.pools.wf()
        &&& forall|j: int| 0 <= j < self.pools.entries@.len()
            ==> pool_wf(#[trigger] self.pools.entries@[j].1)
        &&& self.games.wf()
    }

    pub open spec fn spec_pool(&self, key: Seq<char>) -> Option<Pool> {
        assoc_get(self.pools.entries@, key)
    }

    pub open spec fn spec_deposit(&self, key: Seq<char>, owner: Seq<char>) -> Option<DepositInfo> {
        match assoc_get(self.pools.entries@, key) {
            Some(p) => assoc_get(p.deposits.entries@, owner),
            None => None,
        }
    }

    pub open spec fn spec_game(&self, addr: Seq<char>) -> Option<GameInfo> {
        assoc_get(self.games.entries@, addr)
    }
}

/// Start of the settleable range of an account: one past the cursor, or
/// round 0 for an account that never settled.
pub open spec fn settle_start(d: DepositInfo) -> u64 {
    match d.last_claim_round {
        Some(l) => (l + 1) as u64,
        None => 0u64,
    }
}

/// Reward an account accrues at `height`: the range sum of its principal
/// over the pool's settled rounds from its cursor up to, and excluding,
/// the round in progress; nothing before round 0 has started.
pub open spec fn spec_accrued_at(p: Pool, d: DepositInfo, height: u64) -> int {
    match round_of(height) {
        Some(c) => sum_range(p.ledger.rounds.entries@, settle_start(d), c, d.amount),
        None => 0,
    }
}

/// Create the house state.  The instantiating sender becomes the
/// governance address; there are no pools and no games yet.
pub fn instantiate(
    sender: String,
    zerosum_token: String,
    terraswap_contract: String,
    collector_contract: String,
    referral_contract: String,
    distributor_contract: String,
    reward_contract: String,
    max_output_rate: u128,
) -> (s: HouseState)
    ensures
        s.wf(),
        s.state.gov_contract == sender,
        s.state.zerosum_token == zerosum_token,
        s.state.terraswap_contract == terraswap_contract,
        s.state.collector_contract == collector_contract,
        s.state.referral_contract == referral_contract,
        s.state.distributor_contract == distributor_contract,
        s.state.reward_contract == reward_contract,
        s.state.max_output_rate == max_output_rate,
        s.pools.entries@ =~= Seq::<(String, Pool)>::empty(),
        s.games.entries@ =~= Seq::<(String, GameInfo)>::empty(),
{
    HouseState {
        state: State {
            gov_contract: sender,
            zerosum_token,
            terraswap_contract,
            collector_contract,
            referral_contract,
            distributor_contract,
            reward_contract,
            max_output_rate,
        },
        pools: AddrMap::new(),
        games: AddrMap::new(),
    }
}

/// Change configuration fields; only the governance address may do so,
/// and only the fields that are given change.
pub fn execute_update(
    s: &mut HouseState,
    sender: &String,
    gov_contract: Option<String>,
    zerosum_token: Option<String>,
    terraswap_contract: Option<String>,
    collector_contract: Option<String>,
    referral_contract: Option<String>,
    distributor_contract: Option<String>,
    reward_contract: Option<String>,
    max_output_rate: Option<u128>,
) -> (r: Result<(), ContractError>)
    requires
        old(s).wf(),
    ensures
        final(s).wf(),
        r is Err <==> sender@ != old(s).state.gov_contract@,
        r is Err ==> r == Result::<(), ContractError>::Err(ContractError::Unauthorized)
            && *final(s) == *old(s),
        r is Ok ==> {
            &&& final(s).state.gov_contract == match gov_contract {
                Some(v) => v,
                None => old(s).state.gov_contract,
            }
            &&& final(s).state.zerosum_token == match zerosum_token {
                Some(v) => v,
                None => old(s).state.zerosum_token,
            }
            &&& final(s).state.terraswap_contract == match terraswap_contract {
                Some(v) => v,
                None => old(s).state.terraswap_contract,
            }
            &&& final(s).state.collector_contract == match collector_contract {
                Some(v) => v,
                None => old(s).state.collector_contract,
            }
            &&& final(s).state.referral_contract == match referral_contract {
                Some(v) => v,
                None => old(s).state.referral_contract,
            }
            &&& final(s).state.distributor_contract == match distributor_contract {
                Some(v) => v,
                None => old(s).state.distributor_contract,
            }
            &&& final(s).state.reward_contract == match reward_contract {
                Some(v) => v,
                None => old(s).state.reward_contract,
            }
            &&& final(s).state.max_output_rate == match max_output_rate {
                Some(v) => v,
                None => old(s).state.max_output_rate,
            }
        },
        final(s).pools == old(s).pools,
        final(s).games == old(s).games,
{
    if !(s.state.gov_contract == *sender) {
        return Err(ContractError::Unauthorized);
    }
    if let Some(v) = gov_contract {
        s.state.gov_contract = v;
    }
    if let Some(v) = zerosum_token {
        s.state.zerosum_token = v;
    }
    if let Some(v) = terraswap_contract {
        s.state.terraswap_contract = v;
    }
    if let Some(v) = collector_contract {
        s.state.collector_contract = v;
    }
    if let Some(v) = referral_contract {
        s.state.referral_contract = v;
    }
    if let Some(v) = distributor_contract {
        s.state.distributor_contract = v;
    }
    if let Some(v) = reward_contract {
        s.state.reward_contract = v;
    }
    if let Some(v) = max_output_rate {
        s.state.max_output_rate = v;
    }
    Ok(())
}

/// Create a pool under an asset key.  Only governance may do so and a
/// key can only be taken once.
pub fn execute_create_pool(
    s: &mut HouseState,
    sender: &String,
    key: String,
    symbol: String,
    swap_contract: Option<String>,
    reward_weight: Option<u128>,
) -> (r: Result<(), ContractError>)
    requires
        old(s).wf(),
    ensures
        final(s).wf(),
        (r == Result::<(), ContractError>::Err(ContractError::Unauthorized)
            <==> sender@ != old(s).state.gov_contract@),
        (r == Result::<(), ContractError>::Err(ContractError::AlreadyExist)
            <==> sender@ == old(s).state.gov_contract@ && old(s).spec_pool(key@) is Some),
        (r is Ok <==> sender@ == old(s).state.gov_contract@ && old(s).spec_pool(key@) is None),
        r is Err ==> *final(s) == *old(s),
        r is Ok ==> {
            &&& match final(s).spec_pool(key@) {
                Some(p) => {
                    &&& p.info.name == symbol
                    &&& p.info.total_supply == 0
                    &&& (match swap_contract {
                        Some(v) => p.info.swap_contract == v,
                        None => p.info.swap_contract@ == Seq::<char>::empty(),
                    })
                    &&& p.info.reward_weight == match reward_weight {
                        Some(v) => v as int,
                        None => crate::fixed::RATIO_ONE as int,
                    }
                    &&& p.deposits.entries@.len() == 0
                    &&& p.ledger.rounds.entries@.len() == 0
                },
                None => false,
            }
            &&& forall|k2: Seq<char>| k2 != key@
                ==> assoc_get(final(s).pools.entries@, k2) == assoc_get(old(s).pools.entries@, k2)
            &&& final(s).state == old(s).state
            &&& final(s).games == old(s).games
        },
{
    if !(s.state.gov_contract == *sender) {
        return Err(ContractError::Unauthorized);
    }
    if s.pools.contains_key(&key) {
        return Err(ContractError::AlreadyExist);
    }
    let pool = Pool {
        info: PoolInfo {
            name: symbol,
            total_supply: 0,
            swap_contract: match swap_contract {
                Some(v) => v,
                None => String::new(),
            },
            reward_weight: match reward_weight {
                Some(v) => v,
                None => crate::fixed::RATIO_ONE,
            },
        },
        deposits: AddrMap::new(),
        ledger: RewardLedger::new(),
    };
    proof {
        assert(pool_wf(pool));
    }
    let ghost kv = key@;
    let ghost pre = s.pools.entries@;
    s.pools.insert_new(key, pool);
    proof {
        assert forall|k2: Seq<char>| k2 != kv implies assoc_get(s.pools.entries@, k2)
            == assoc_get(pre, k2) by {
            assert(s.pools.spec_get(k2) == assoc_get(s.pools.entries@, k2));
        }
        assert forall|j: int| 0 <= j < s.pools.entries@.len()
            implies pool_wf(#[trigger] s.pools.entries@[j].1) by {
            if j < pre.len() {
                assert(s.pools.entries@[j] == pre[j]);
            }
        }
    }
    Ok(())
}

/// Change a pool's swap contract or reward weight; only governance, and
/// only for a pool that exists.
pub fn execute_update_pool(
    s: &mut HouseState,
    sender: &String,
    key: &String,
    swap_contract: Option<String>,
    reward_weight: Option<u128>,
) -> (r: Result<(), ContractError>)
    requires
        old(s).wf(),
    ensures
        final(s).wf(),
        (r == Result::<(), ContractError>::Err(ContractError::Unauthorized)
            <==> sender@ != old(s).state.gov_contract@),
        (r == Result::<(), ContractError>::Err(ContractError::NotExist)
            <==> sender@ == old(s).state.gov_contract@ && old(s).spec_pool(key@) is None),
        (r is Ok <==> sender@ == old(s).state.gov_contract@ && old(s).spec_pool(key@) is Some),
        r is Err ==> *final(s) == *old(s),
        r is Ok ==> {
            let p0 = old(s).spec_pool(key@)->Some_0;
            &&& match final(s).spec_pool(key@) {
                Some(p) => {
                    &&& p.info.name == p0.info.name
                    &&& p.info.total_supply == p0.info.total_supply
                    &&& p.info.swap_contract == match swap_contract {
                        Some(v) => v,
                        None => p0.info.swap_contract,
                    }
                    &&& p.info.reward_weight == match reward_weight {
                        Some(v) => v,
                        None => p0.info.reward_weight,
                    }
                    &&& p.deposits == p0.deposits
                    &&& p.ledger == p0.ledger
                },
                None => false,
            }
            &&& forall|k2: Seq<char>| k2 != key@
                ==> assoc_get(final(s).pools.entries@, k2) == assoc_get(old(s).pools.entries@, k2)
            &&& final(s).state == old(s).state
            &&& final(s).games == old(s).games
        },
{
    if !(s.state.gov_contract == *sender) {
        return Err(ContractError::Unauthorized);
    }
    let pi = match s.pools.find(key) {
        None => {
            return Err(ContractError::NotExist);
        },
        Some(pi) => pi,
    };
    let ghost pre = s.pools.entries@;
    let ghost p0 = s.pools.entries@[pi as int].1;
    let pool = s.pools.val_mut(pi);
    if let Some(v) = swap_contract {
        pool.info.swap_contract = v;
    }
    if let Some(v) = reward_weight {
        pool.info.reward_weight = v;
    }
    let ghost pfin = *pool;
    proof {
        assert(pool_wf(pfin));
        lemma_assoc_update(pre, pi as int, pfin);
        assert forall|j: int| 0 <= j < s.pools.entries@.len()
            implies pool_wf(#[trigger] s.pools.entries@[j].1) by {
            if j != pi as int {
                assert(s.pools.entries@[j].1 == pre[j].1);
            }
        }
    }
    Ok(())
}

/// Register a game contract; only governance, each address once.
pub fn execute_add_game(
    s: &mut HouseState,
    sender: &String,
    name: String,
    description: String,
    url: String,
    address: String,
    creator: String,
) -> (r: Result<(), ContractError>)
    requires
        old(s).wf(),
    ensures
        final(s).wf(),
        (r == Result::<(), ContractError>::Err(ContractError::Unauthorized)
            <==> sender@ != old(s).state.gov_contract@),
        (r == Result::<(), ContractError>::Err(ContractError::AlreadyExist)
            <==> sender@ == old(s).state.gov_contract@ && old(s).spec_game(address@) is Some),
        (r is Ok <==> sender@ == old(s).state.gov_contract@ && old(s).spec_game(address@) is None),
        r is Err ==> *final(s) == *old(s),
        r is Ok ==> {
            &&& match final(s).spec_game(address@) {
                Some(g) => g.name == name && g.description == description && g.url == url
                    && g.address == address && g.creator == creator,
                None => false,
            }
            &&& forall|a2: Seq<char>| a2 != address@
                ==> assoc_get(final(s).games.entries@, a2) == assoc_get(old(s).games.entries@, a2)
            &&& final(s).state == old(s).state
            &&& final(s).pools == old(s).pools
        },
{
    if !(s.state.gov_contract == *sender) {
        return Err(ContractError::Unauthorized);
    }
    if s.games.contains_key(&address) {
        return Err(ContractError::AlreadyExist);
    }
    let ghost av = address@;
    let ghost pre = s.games.entries@;
    let game = GameInfo { name, description, url, address: address.clone(), creator };
    s.games.insert_new(address, game);
    proof {
        assert forall|a2: Seq<char>| a2 != av implies assoc_get(s.games.entries@, a2)
            == assoc_get(pre, a2) by {
            assert(s.games.spec_get(a2) == assoc_get(s.games.entries@, a2));
        }
    }
    Ok(())
}

/// Remove a registered game contract; only governance, and only one that
/// exists.
pub fn execute_remove_game(s: &mut HouseState, sender: &String, address: &String) -> (r: Result<
    (),
    ContractError,
>)
    requires
        old(s).wf(),
    ensures
        final(s).wf(),
        (r == Result::<(), ContractError>::Err(ContractError::Unauthorized)
            <==> sender@ != old(s).state.gov_contract@),
        (r == Result::<(), ContractError>::Err(ContractError::NotExist)
            <==> sender@ == old(s).state.gov_contract@ && old(s).spec_game(address@) is None),
        (r is Ok <==> sender@ == old(s).state.gov_contract@ && old(s).spec_game(address@) is Some),
        r is Err ==> *final(s) == *old(s),
        r is Ok ==> {
            &&& final(s).spec_game(address@) is None
            &&& forall|a2: Seq<char>| a2 != address@
                ==> assoc_get(final(s).games.entries@, a2) == assoc_get(old(s).games.entries@, a2)
            &&& final(s).state == old(s).state
            &&& final(s).pools == old(s).pools
        },
{
    if !(s.state.gov_contract == *sender) {
        return Err(ContractError::Unauthorized);
    }
    let gi = match s.games.find(address) {
        None => {
            return Err(ContractError::NotExist);
        },
        Some(gi) => gi,
    };
    let ghost pre = s.games.entries@;
    s.games.remove_at(gi, address);
    proof {
        assert forall|a2: Seq<char>| a2 != address@ implies assoc_get(s.games.entries@, a2)
            == assoc_get(pre, a2) by {
            assert(s.games.spec_get(a2) == assoc_get(s.games.entries@, a2));
        }
    }
    Ok(())
}

/// The round index of a height always leaves room for the cursor to sit
/// one round behind it.
proof fn lemma_round_small(height: u64)
    requires
        round_of(height) is Some,
    ensures
        round_of(height)->Some_0 < u64::MAX,
{
    if height >= crate::round::START_HEIGHT {
        vstd::arithmetic::div_mod::lemma_div_nonincreasing(
            (height - crate::round::START_HEIGHT) as int,
            crate::round::ROUND_PERIOD as int,
        );
    }
}

/// Deposit into a pool.  An existing account first settles its accrued
/// reward at its old principal, pays it out, and then grows by the
/// deposit; a new account starts its settlement cursor at the round in
/// progress.  Before round 0 the settlement is silently skipped.
pub fn execute_deposit(
    s: &mut HouseState,
    sender: &String,
    key: &String,
    amount: u128,
    height: u64,
) -> (r: Result<Vec<TokenTransfer>, ContractError>)
    requires
        old(s).wf(),
        match old(s).spec_pool(key@) {
            Some(p) => p.info.total_supply + amount <= u128::MAX && (match assoc_get(
                p.deposits.entries@,
                sender@,
            ) {
                Some(d) => spec_accrued_at(p, d, height) <= u128::MAX,
                None => true,
            }),
            None => true,
        },
    ensures
        final(s).wf(),
        (r is Err <==> old(s).spec_pool(key@) is None),
        r is Err ==> r == Result::<Vec<TokenTransfer>, ContractError>::Err(ContractError::NotExist)
            && *final(s) == *old(s),
        r matches Ok(v) ==> ({
            let p0 = old(s).spec_pool(key@)->Some_0;
            let d0 = assoc_get(p0.deposits.entries@, sender@);
            let acc = match d0 {
                Some(d) => spec_accrued_at(p0, d, height),
                None => 0,
            };
            &&& match final(s).spec_pool(key@) {
                Some(p) => {
                    &&& p.info.total_supply == p0.info.total_supply + amount
                    &&& p.info.name == p0.info.name
                    &&& p.info.swap_contract == p0.info.swap_contract
                    &&& p.info.reward_weight == p0.info.reward_weight
                    &&& p.ledger == p0.ledger
                    &&& match assoc_get(p.deposits.entries@, sender@) {
                        Some(d) => match d0 {
                            Some(dp) => d.amount == dp.amount + amount
                                && d.last_claim_round == (match round_of(height) {
                                    Some(c) => if c > 0 {
                                        Some((c - 1) as u64)
                                    } else {
                                        dp.last_claim_round
                                    },
                                    None => dp.last_claim_round,
                                }),
                            None => d.amount == amount && d.last_claim_round == round_of(height),
                        },
                        None => false,
                    }
                    &&& forall|a2: Seq<char>| a2 != sender@
                        ==> assoc_get(p.deposits.entries@, a2) == assoc_get(p0.deposits.entries@, a2)
                },
                None => false,
            }
            &&& forall|k2: Seq<char>| k2 != key@
                ==> assoc_get(final(s).pools.entries@, k2) == assoc_get(old(s).pools.entries@, k2)
            &&& (acc > 0 ==> v@.len() == 1 && v@[0].recipient == *sender && v@[0].amount == acc)
            &&& (acc == 0 ==> v@.len() == 0)
            &&& final(s).state == old(s).state
            &&& final(s).games == old(s).games
        }),
{
    let c_opt = crate::round::get_round(height);
    let pi = match s.pools.find(key) {
        None => {
            return Err(ContractError::NotExist);
        },
        Some(pi) => pi,
    };
    let ghost pre_pools = s.pools.entries@;
    let ghost p0 = pre_pools[pi as int].1;
    proof {
        assert(pool_wf(p0));
    }
    let mut msgs: Vec<TokenTransfer> = Vec::new();
    let pool = s.pools.val_mut(pi);
    let ghost dpre = pool.deposits.entries@;
    match pool.deposits.find(sender) {
        Some(di) => {
            let d0: DepositInfo = pool.deposits.entries[di].1;
            proof {
                assert(dep_vals(dpre)[di as int] == d0.amount);
                lemma_sum_u128_element_le(dep_vals(dpre), di as int);
            }
            let mut newlcr: Option<u64> = d0.last_claim_round;
            let mut reward: u128 = 0;
            if let Some(c) = c_opt {
                let start: u64 = match d0.last_claim_round {
                    Some(l) => l + 1,
                    None => 0,
                };
                reward = pool.ledger.range_sum(start, c, d0.amount);
                if c > 0 {
                    newlcr = Some(c - 1);
                }
            }
            pool.deposits.set_at(di, sender, DepositInfo {
                amount: d0.amount + amount,
                last_claim_round: newlcr,
            });
            proof {
                assert(dep_vals(pool.deposits.entries@)
                    =~= dep_vals(dpre).update(di as int, (d0.amount + amount) as u128));
                lemma_sum_u128_update(dep_vals(dpre), di as int, (d0.amount + amount) as u128);
                if c_opt matches Some(c) && c > 0 {
                    lemma_round_small(height);
                }
            }
            if reward > 0 {
                msgs.push(TokenTransfer { recipient: sender.clone(), amount: reward });
            }
        },
        None => {
            let lcr: Option<u64> = match c_opt {
                Some(c) => Some(c),
                None => None,
            };
            pool.deposits.insert_new(sender.clone(), DepositInfo { amount, last_claim_round: lcr });
            proof {
                assert(dep_vals(pool.deposits.entries@) =~= dep_vals(dpre).push(amount));
                lemma_sum_u128_push(dep_vals(dpre), amount);
                if c_opt is Some {
                    lemma_round_small(height);
                }
            }
        },
    }
    pool.info.total_supply = pool.info.total_supply + amount;
    let ghost pfin = *pool;
    proof {
        assert(pool_wf(pfin));
        lemma_assoc_update(pre_pools, pi as int, pfin);
        assert forall|j: int| 0 <= j < s.pools.entries@.len()
            implies pool_wf(#[trigger] s.pools.entries@[j].1) by {
            if j != pi as int {
                assert(s.pools.entries@[j].1 == pre_pools[j].1);
            }
        }
        assert forall|a2: Seq<char>| a2 != sender@ implies assoc_get(pfin.deposits.entries@, a2)
            == assoc_get(p0.deposits.entries@, a2) by {
            assert(pfin.deposits.spec_get(a2) == assoc_get(pfin.deposits.entries@, a2));
            assert(p0.deposits.spec_get(a2) == assoc_get(p0.deposits.entries@, a2));
        }
    }
    Ok(msgs)
}

/// Withdraw the whole account: settle its accrued reward, pay principal
/// and reward out, and delete the account.  Before round 0 the
/// settlement is silently skipped.  The principal comes back alongside
/// the reward intents, for the driver to transfer from the pool asset.
pub fn execute_withdraw(
    s: &mut HouseState,
    sender: &String,
    key: &String,
    height: u64,
) -> (r: Result<(Vec<TokenTransfer>, u128), ContractError>)
    requires
        old(s).wf(),
        match old(s).spec_deposit(key@, sender@) {
            Some(d) => spec_accrued_at(old(s).spec_pool(key@)->Some_0, d, height) <= u128::MAX,
            None => true,
        },
    ensures
        final(s).wf(),
        (r is Err <==> old(s).spec_deposit(key@, sender@) is None),
        r is Err ==> r == Result::<(Vec<TokenTransfer>, u128), ContractError>::Err(
            ContractError::NotExist,
        ) && *final(s) == *old(s),
        r matches Ok(p) ==> ({
            let p0 = old(s).spec_pool(key@)->Some_0;
            let d0 = old(s).spec_deposit(key@, sender@)->Some_0;
            let acc = spec_accrued_at(p0, d0, height);
            &&& p.1 == d0.amount
            &&& match final(s).spec_pool(key@) {
                Some(p2) => {
                    &&& p2.info.total_supply == p0.info.total_supply - d0.amount
                    &&& p2.ledger == p0.ledger
                    &&& assoc_get(p2.deposits.entries@, sender@) is None
                    &&& forall|a2: Seq<char>| a2 != sender@
                        ==> assoc_get(p2.deposits.entries@, a2)
                            == assoc_get(p0.deposits.entries@, a2)
                },
                None => false,
            }
            &&& forall|k2: Seq<char>| k2 != key@
                ==> assoc_get(final(s).pools.entries@, k2) == assoc_get(old(s).pools.entries@, k2)
            &&& (acc > 0 ==> p.0@.len() == 1 && p.0@[0].recipient == *sender && p.0@[0].amount == acc)
            &&& (acc == 0 ==> p.0@.len() == 0)
            &&& final(s).state == old(s).state
            &&& final(s).games == old(s).games
        }),
{
    let c_opt = crate::round::get_round(height);
    let pi = match s.pools.find(key) {
        None => {
            return Err(ContractError::NotExist);
        },
        Some(pi) => pi,
    };
    let ghost pre_pools = s.pools.entries@;
    let ghost p0 = pre_pools[pi as int].1;
    proof {
        assert(pool_wf(p0));
    }
    let di = match s.pools.entries[pi].1.deposits.find(sender) {
        None => {
            return Err(ContractError::NotExist);
        },
        Some(di) => di,
    };
    let mut msgs: Vec<TokenTransfer> = Vec::new();
    let pool = s.pools.val_mut(pi);
    let ghost dpre = pool.deposits.entries@;
    let d0: DepositInfo = pool.deposits.entries[di].1;
    proof {
        assert(dep_vals(dpre)[di as int] == d0.amount);
        lemma_sum_u128_element_le(dep_vals(dpre), di as int);
    }
    let mut reward: u128 = 0;
    if let Some(c) = c_opt {
        let start: u64 = match d0.last_claim_round {
            Some(l) => l + 1,
            None => 0,
        };
        reward = pool.ledger.range_sum(start, c, d0.amount);
    }
    pool.deposits.remove_at(di, sender);
    pool.info.total_supply = pool.info.total_supply - d0.amount;
    proof {
        assert(dep_vals(pool.deposits.entries@) =~= dep_vals(dpre).remove(di as int));
        crate::arith::lemma_sum_u128_remove(dep_vals(dpre), di as int);
    }
    if reward > 0 {
        msgs.push(TokenTransfer { recipient: sender.clone(), amount: reward });
    }
    let ghost pfin = *pool;
    proof {
        assert(pool_wf(pfin));
        lemma_assoc_update(pre_pools, pi as int, pfin);
        assert forall|j: int| 0 <= j < s.pools.entries@.len()
            implies pool_wf(#[trigger] s.pools.entries@[j].1) by {
            if j != pi as int {
                assert(s.pools.entries@[j].1 == pre_pools[j].1);
            }
        }
        assert forall|a2: Seq<char>| a2 != sender@ implies assoc_get(pfin.deposits.entries@, a2)
            == assoc_get(p0.deposits.entries@, a2) by {
            assert(pfin.deposits.spec_get(a2) == assoc_get(pfin.deposits.entries@, a2));
            assert(p0.deposits.spec_get(a2) == assoc_get(p0.deposits.entries@, a2));
        }
    }
    Ok((msgs, d0.amount))
}

/// Claim the accrued reward of an account without touching its
/// principal.  Claiming before round 0 has started is a typed error.
pub fn execute_claim(
    s: &mut HouseState,
    sender: &String,
    key: &String,
    height: u64,
) -> (r: Result<Vec<TokenTransfer>, ContractError>)
    requires
        old(s).wf(),
        match old(s).spec_deposit(key@, sender@) {
            Some(d) => spec_accrued_at(old(s).spec_pool(key@)->Some_0, d, height) <= u128::MAX,
            None => true,
        },
    ensures
        final(s).wf(),
        (r == Result::<Vec<TokenTransfer>, ContractError>::Err(ContractError::RoundNotActive)
            <==> round_of(height) is None),
        (r == Result::<Vec<TokenTransfer>, ContractError>::Err(ContractError::NotExist)
            <==> round_of(height) is Some && old(s).spec_deposit(key@, sender@) is None),
        (r is Ok <==> round_of(height) is Some && old(s).spec_deposit(key@, sender@) is Some),
        r is Err ==> *final(s) == *old(s),
        r matches Ok(v) ==> ({
            let c = round_of(height)->Some_0;
            let p0 = old(s).spec_pool(key@)->Some_0;
            let d0 = old(s).spec_deposit(key@, sender@)->Some_0;
            let acc = spec_accrued_at(p0, d0, height);
            &&& match final(s).spec_pool(key@) {
                Some(p2) => {
                    &&& p2.info == p0.info
                    &&& p2.ledger == p0.ledger
                    &&& match assoc_get(p2.deposits.entries@, sender@) {
                        Some(d) => d.amount == d0.amount && d.last_claim_round == (if c > 0 {
                            Some((c - 1) as u64)
                        } else {
                            d0.last_claim_round
                        }),
                        None => false,
                    }
                    &&& forall|a2: Seq<char>| a2 != sender@
                        ==> assoc_get(p2.deposits.entries@, a2)
                            == assoc_get(p0.deposits.entries@, a2)
                },
                None => false,
            }
            &&& forall|k2: Seq<char>| k2 != key@
                ==> assoc_get(final(s).pools.entries@, k2) == assoc_get(old(s).pools.entries@, k2)
            &&& (acc > 0 ==> v@.len() == 1 && v@[0].recipient == *sender && v@[0].amount == acc)
            &&& (acc == 0 ==> v@.len() == 0)
            &&& final(s).state == old(s).state
            &&& final(s).games == old(s).games
        }),
{
    let c = match crate::round::get_round(height) {
        None => {
            return Err(ContractError::RoundNotActive);
        },
        Some(c) => c,
    };
    let pi = match s.pools.find(key) {
        None => {
            return Err(ContractError::NotExist);
        },
        Some(pi) => pi,
    };
    let ghost pre_pools = s.pools.entries@;
    let ghost p0 = pre_pools[pi as int].1;
    proof {
        assert(pool_wf(p0));
    }
    let di = match s.pools.entries[pi].1.deposits.find(sender) {
        None => {
            return Err(ContractError::NotExist);
        },
        Some(di) => di,
    };
    let mut msgs: Vec<TokenTransfer> = Vec::new();
    let pool = s.pools.val_mut(pi);
    let ghost dpre = pool.deposits.entries@;
    let d0: DepositInfo = pool.deposits.entries[di].1;
    let start: u64 = match d0.last_claim_round {
        Some(l) => l + 1,
        None => 0,
    };
    let reward = pool.ledger.range_sum(start, c, d0.amount);
    let newlcr: Option<u64> = if c > 0 {
        Some(c - 1)
    } else {
        d0.last_claim_round
    };
    pool.deposits.set_at(di, sender, DepositInfo { amount: d0.amount, last_claim_round: newlcr });
    proof {
        assert(dep_vals(pool.deposits.entries@)
            =~= dep_vals(dpre).update(di as int, d0.amount));
        lemma_sum_u128_update(dep_vals(dpre), di as int, d0.amount);
        if c > 0 {
            lemma_round_small(height);
        }
    }
    if reward > 0 {
        msgs.push(TokenTransfer { recipient: sender.clone(), amount: reward });
    }
    let ghost pfin = *pool;
    proof {
        assert(pool_wf(pfin));
        lemma_assoc_update(pre_pools, pi as int, pfin);
        assert forall|j: int| 0 <= j < s.pools.entries@.len()
            implies pool_wf(#[trigger] s.pools.entries@[j].1) by {
            if j != pi as int {
                assert(s.pools.entries@[j].1 == pre_pools[j].1);
            }
        }
        assert forall|a2: Seq<char>| a2 != sender@ implies assoc_get(pfin.deposits.entries@, a2)
            == assoc_get(p0.deposits.entries@, a2) by {
            assert(pfin.deposits.spec_get(a2) == assoc_get(pfin.deposits.entries@, a2));
            assert(p0.deposits.spec_get(a2) == assoc_get(p0.deposits.entries@, a2));
        }
    }
    Ok(msgs)
}

/// Settle a round of a pool: write the round's reward ratio from the
/// amount handed in by the distributor and the pool's total stake.
/// Settling the same round twice fails; a pool with no stake routes the
/// whole amount to the collector sink instead and writes nothing.
pub fn execute_add_round(
    s: &mut HouseState,
    info_sender: &String,
    key: &String,
    round: u64,
    sender: &String,
    reward_amount: u128,
) -> (r: Result<Vec<TokenTransfer>, ContractError>)
    requires
        old(s).wf(),
        match old(s).spec_pool(key@) {
            Some(p) => p.info.total_supply != 0 ==> ratio_floor(
                reward_amount as int,
                p.info.total_supply as int,
            ) <= u128::MAX,
            None => true,
        },
    ensures
        final(s).wf(),
        (r == Result::<Vec<TokenTransfer>, ContractError>::Err(ContractError::Unauthorized)
            <==> info_sender@ != old(s).state.zerosum_token@
                || sender@ != old(s).state.distributor_contract@),
        (r == Result::<Vec<TokenTransfer>, ContractError>::Err(ContractError::NotExist)
            <==> info_sender@ == old(s).state.zerosum_token@
                && sender@ == old(s).state.distributor_contract@
                && old(s).spec_pool(key@) is None),
        (r == Result::<Vec<TokenTransfer>, ContractError>::Err(ContractError::AlreadyExist)
            <==> info_sender@ == old(s).state.zerosum_token@
                && sender@ == old(s).state.distributor_contract@
                && (match old(s).spec_pool(key@) {
                    Some(p) => crate::store::has_round(p.ledger.rounds.entries@, round),
                    None => false,
                })),
        (r is Ok <==> info_sender@ == old(s).state.zerosum_token@
            && sender@ == old(s).state.distributor_contract@
            && (match old(s).spec_pool(key@) {
                Some(p) => !crate::store::has_round(p.ledger.rounds.entries@, round),
                None => false,
            })),
        r is Err ==> *final(s) == *old(s),
        r matches Ok(v) ==> ({
            let p0 = old(s).spec_pool(key@)->Some_0;
            &&& p0.info.total_supply != 0 ==> ({
                &&& match final(s).spec_pool(key@) {
                    Some(p2) => {
                        &&& p2.info == p0.info
                        &&& p2.deposits == p0.deposits
                        &&& p2.ledger.spec_ratio(round) == Some(
                            (ratio_floor(reward_amount as int, p0.info.total_supply as int)) as u128,
                        )
                        &&& forall|r2: u64| r2 != round
                            ==> p2.ledger.spec_ratio(r2) == p0.ledger.spec_ratio(r2)
                    },
                    None => false,
                }
                &&& v@.len() == 1
                &&& v@[0].recipient == old(s).state.reward_contract
                &&& v@[0].amount == reward_amount
            })
            &&& p0.info.total_supply == 0 ==> ({
                &&& final(s).pools == old(s).pools
                &&& v@.len() == 1
                &&& v@[0].recipient == old(s).state.collector_contract
                &&& v@[0].amount == reward_amount
            })
            &&& forall|k2: Seq<char>| k2 != key@
                ==> assoc_get(final(s).pools.entries@, k2) == assoc_get(old(s).pools.entries@, k2)
            &&& final(s).state == old(s).state
            &&& final(s).games == old(s).games
        }),
{
    if !(s.state.zerosum_token == *info_sender) {
        return Err(ContractError::Unauthorized);
    }
    if !(s.state.distributor_contract == *sender) {
        return Err(ContractError::Unauthorized);
    }
    let pi = match s.pools.find(key) {
        None => {
            return Err(ContractError::NotExist);
        },
        Some(pi) => pi,
    };
    let ghost pre_pools = s.pools.entries@;
    let ghost p0 = pre_pools[pi as int].1;
    proof {
        assert(pool_wf(p0));
    }
    if s.pools.entries[pi].1.ledger.rounds.contains_round(round) {
        return Err(ContractError::AlreadyExist);
    }
    let mut msgs: Vec<TokenTransfer> = Vec::new();
    let total = s.pools.entries[pi].1.info.total_supply;
    if total != 0 {
        let ratio = decimal_from_ratio(reward_amount, total);
        let pool = s.pools.val_mut(pi);
        let res = pool.ledger.append(round, ratio);
        proof {
            assert(res is Ok);
        }
        let ghost pfin = *pool;
        proof {
            assert(pool_wf(pfin));
            lemma_assoc_update(pre_pools, pi as int, pfin);
            assert forall|j: int| 0 <= j < s.pools.entries@.len()
                implies pool_wf(#[trigger] s.pools.entries@[j].1) by {
                if j != pi as int {
                    assert(s.pools.entries@[j].1 == pre_pools[j].1);
                }
            }
        }
        msgs.push(TokenTransfer { recipient: s.state.reward_contract.clone(), amount: reward_amount });
    } else {
        msgs.push(TokenTransfer {
            recipient: s.state.collector_contract.clone(),
            amount: reward_amount,
        });
    }
    Ok(msgs)
}

/// Settle one bet: pay the player's winnings, capped at the configured
/// fraction of the pool's balance, and report the wager as the player's
/// reward share for the round in progress.  The house's own records do
/// not change; the driver queried the pool balance beforehand.
pub fn execute_settle(
    s: &HouseState,
    game_contract: &String,
    player: &String,
    input: u128,
    output: u128,
    key: &String,
    pool_balance: u128,
    height: u64,
) -> (r: Result<(Vec<TokenTransfer>, Option<(String, u128)>), ContractError>)
    requires
        s.wf(),
        mul_ratio_floor(pool_balance as int, s.state.max_output_rate as int) <= u128::MAX,
    ensures
        (r == Result::<(Vec<TokenTransfer>, Option<(String, u128)>), ContractError>::Err(
            ContractError::NotExist,
        ) <==> s.spec_pool(key@) is None),
        (r == Result::<(Vec<TokenTransfer>, Option<(String, u128)>), ContractError>::Err(
            ContractError::Unauthorized,
        ) <==> s.spec_pool(key@) is Some && s.spec_game(game_contract@) is None),
        (r is Ok <==> s.spec_pool(key@) is Some && s.spec_game(game_contract@) is Some),
        r matches Ok(p) ==> ({
            let cap = mul_ratio_floor(pool_balance as int, s.state.max_output_rate as int);
            let paid = if output as int <= cap { output as int } else { cap };
            &&& (output > 0 ==> p.0@.len() == 1 && p.0@[0].recipient == *player
                && p.0@[0].amount == paid)
            &&& (output == 0 ==> p.0@.len() == 0)
            &&& p.1 == (match round_of(height) {
                Some(c) => Some(((*player), input)),
                None => None::<(String, u128)>,
            })
        }),
{
    if s.pools.find(key).is_none() {
        return Err(ContractError::NotExist);
    }
    if s.games.find(game_contract).is_none() {
        return Err(ContractError::Unauthorized);
    }
    let mut msgs: Vec<TokenTransfer> = Vec::new();
    if output > 0 {
        let cap = decimal_mul_floor(pool_balance, s.state.max_output_rate);
        let paid: u128 = if output > cap {
            cap
        } else {
            output
        };
        msgs.push(TokenTransfer { recipient: player.clone(), amount: paid });
    }
    let share: Option<(String, u128)> = match crate::round::get_round(height) {
        Some(_) => Some((player.clone(), input)),
        None => None,
    };
    Ok((msgs, share))
}

/// Sweep the surplus of every pool: where the queried balance exceeds
/// the recorded stake by more than the dust threshold, the difference
/// goes to the collector.
pub open spec fn sweep_intents(
    pools: Seq<(String, Pool)>,
    bals: Seq<(String, u128)>,
    collector: String,
) -> Seq<TokenTransfer>
    decreases bals.len(),
{
    if bals.len() == 0 {
        Seq::empty()
    } else {
        let rest = sweep_intents(pools, bals.drop_last(), collector);
        let key = bals.last().0;
        let bal = bals.last().1;
        match assoc_get(pools, key@) {
            Some(p) => if bal > p.info.total_supply + 1_000_000 {
                rest.push(TokenTransfer {
                    recipient: collector,
                    amount: (bal - p.info.total_supply) as u128,
                })
            } else {
                rest
            },
            None => rest,
        }
    }
}

/// Build the surplus sweep for the queried pool balances.
pub fn execute_collect(s: &HouseState, balances: &Vec<(String, u128)>) -> (v: Vec<TokenTransfer>)
    requires
        s.wf(),
    ensures
        v@ == sweep_intents(s.pools.entries@, balances@, s.state.collector_contract),
{
    let ghost pools = s.pools.entries@;
    let mut v: Vec<TokenTransfer> = Vec::new();
    let mut i: usize = 0;
    proof {
        assert(balances@.take(0) =~= Seq::<(String, u128)>::empty());
    }
    while i < balances.len()
        invariant
            i <= balances@.len(),
            s.wf(),
            pools == s.pools.entries@,
            v@ == sweep_intents(pools, balances@.take(i as int), s.state.collector_contract),
        decreases balances@.len() - i,
    {
        let key = &balances[i].0;
        let bal = balances[i].1;
        proof {
            assert(balances@.take(i as int + 1).drop_last() =~= balances@.take(i as int));
            assert(balances@.take(i as int + 1).last() == balances@[i as int]);
        }
        match s.pools.find(key) {
            Some(pi) => {
                let total = s.pools.entries[pi].1.info.total_supply;
                if bal > total && bal - total > 1_000_000 {
                    v.push(TokenTransfer {
                        recipient: s.state.collector_contract.clone(),
                        amount: bal - total,
                    });
                }
            },
            None => {},
        }
        i = i + 1;
    }
    proof {
        assert(balances@.take(balances@.len() as int) =~= balances@);
    }
    v
}

/// Settlement is idempotent: once a claim has moved the cursor to just
/// below the round in progress, a second claim at the same height, with
/// no deposit, withdrawal or new settled round in between, accrues
/// nothing.
pub proof fn lemma_claim_idempotent(p: Pool, d: DepositInfo, height: u64)
    requires
        round_of(height) is Some,
        round_of(height)->Some_0 > 0,
        d.last_claim_round == Some((round_of(height)->Some_0 - 1) as u64),
    ensures
        spec_accrued_at(p, d, height) == 0,
{
    let c = round_of(height)->Some_0;
    assert(settle_start(d) == c);
    lemma_sum_range_empty(p.ledger.rounds.entries@, c, c, d.amount);
}

/// Conservation of one settled pool round: the ratio written for it is
/// `amount / total_supply`, the total supply is the sum of the stakers'
/// principals, and the floored payouts of all stakers together never
/// exceed the settled amount.
pub proof fn lemma_pool_round_conservation(p: Pool, amount: u128)
    requires
        pool_wf(p),
        p.info.total_supply > 0,
        ratio_floor(amount as int, p.info.total_supply as int) <= u128::MAX,
    ensures
        0 <= crate::arith::sum_payouts(
            dep_vals(p.deposits.entries@),
            (ratio_floor(amount as int, p.info.total_supply as int)) as u128,
        ),
        crate::arith::sum_payouts(
            dep_vals(p.deposits.entries@),
            (ratio_floor(amount as int, p.info.total_supply as int)) as u128,
        ) <= amount,
{
    crate::arith::lemma_round_conservation(
        dep_vals(p.deposits.entries@),
        p.info.total_supply,
        amount,
    );
}

/// Preview of what a claim would pay an account right now.
pub fn query_claimable(s: &HouseState, addr: &String, key: &String, height: u64) -> (r: u128)
    requires
        s.wf(),
        match s.spec_deposit(key@, addr@) {
            Some(d) => spec_accrued_at(s.spec_pool(key@)->Some_0, d, height) <= u128::MAX,
            None => true,
        },
    ensures
        r as int == match s.spec_deposit(key@, addr@) {
            Some(d) => spec_accrued_at(s.spec_pool(key@)->Some_0, d, height),
            None => 0,
        },
{
    let c = match crate::round::get_round(height) {
        None => {
            return 0;
        },
        Some(c) => c,
    };
    let pi = match s.pools.find(key) {
        None => {
            return 0;
        },
        Some(pi) => pi,
    };
    match s.pools.entries[pi].1.deposits.find(addr) {
        None => 0,
        Some(di) => {
            let d = s.pools.entries[pi].1.deposits.entries[di].1;
            let start: u64 = match d.last_claim_round {
                Some(l) => l + 1,
                None => 0,
            };
            s.pools.entries[pi].1.ledger.range_sum(start, c, d.amount)
        },
    }
}

/// The stored account of one staker in one pool.
pub fn query_deposit_info(s: &HouseState, addr: &String, key: &String) -> (r: Option<DepositInfo>)
    requires
        s.wf(),
    ensures
        r == s.spec_deposit(key@, addr@),
{
    match s.pools.find(key) {
        None => None,
        Some(pi) => match s.pools.entries[pi].1.deposits.get(addr) {
            Some(d) => Some(*d),
            None => None,
        },
    }
}

/// Name and total stake of a pool.
pub fn query_pool(s: &HouseState, key: &String) -> (r: Option<(String, u128)>)
    requires
        s.wf(),
    ensures
        match r {
            Some(p) => s.spec_pool(key@) matches Some(pool) && p.0 == pool.info.name
                && p.1 == pool.info.total_supply,
            None => s.spec_pool(key@) is None,
        },
{
    match s.pools.find(key) {
        None => None,
        Some(pi) => Some((
            s.pools.entries[pi].1.info.name.clone(),
            s.pools.entries[pi].1.info.total_supply,
        )),
    }
}

/// The reward ratio a pool wrote for a round, if it was settled.
pub fn query_round_info(s: &HouseState, key: &String, round: u64) -> (r: Option<
    crate::ledger::RoundInfo,
>)
    requires
        s.wf(),
    ensures
        match r {
            Some(v) => s.spec_pool(key@) matches Some(p) && p.ledger.spec_ratio(round)
                == Some(v.reward_ratio),
            None => match s.spec_pool(key@) {
                Some(p) => p.ledger.spec_ratio(round) is None,
                None => true,
            },
        },
{
    match s.pools.find(key) {
        None => None,
        Some(pi) => match s.pools.entries[pi].1.ledger.rounds.get(round) {
            Some(v) => Some(crate::ledger::RoundInfo { reward_ratio: *v }),
            None => None,
        },
    }
}

} // verus!
