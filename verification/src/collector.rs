use vstd::prelude::*;
use crate::{ContractError, TokenTransfer};
use crate::store::{AddrMap, assoc_get, has_key};

verus! {

/// The one message the collector sends to every harvest contract when it
/// gathers surplus funds.
#[derive(Debug, Clone, PartialEq, Eq, Structural)]
pub enum CollectorMsg {
    Collect,
}

/// What the collector did with a gathered balance.
#[derive(Debug, Clone, Copy, PartialEq, Eq, Structural)]
pub enum ActionType {
    Distribute,
    Burn,
}

/// A profit asset the collector knows, with the swap venue used to turn
/// it into the platform token.
#[derive(Debug, Clone)]
pub struct Profit {
    pub swap_contract: String,
}

/// One processed balance, for the audit log.
#[derive(Debug, Clone, Copy, PartialEq, Eq, Structural)]
pub struct ActionHistory {
    pub time: u64,
    pub amount: u128,
}

/// Configuration and counters of the collector.
#[derive(Debug, Clone)]
pub struct State {
    pub gov_contract: String,
    pub zerosum_token: String,
    pub trigger_address: String,
    pub distributor_contract: String,
    pub total_distribute_amount: u128,
    pub total_burn_amount: u128,
    pub total_lp_amount: u128,
}

/// The whole persisted state of the collector.
pub struct CollectorState {
    pub state: State,
    pub profits: AddrMap<Profit>,
    pub harvest_contracts: AddrMap<bool>,
    pub actions: Vec<ActionHistory>,
}

impl CollectorState {
    pub open spec fn wf(&self) -> bool {
        &&& self.profits.wf()
        &&& self.harvest_contracts.wf()
    }

    pub open spec fn spec_profit(&self, key: Seq<char>) -> Option<Profit> {
        assoc_get(self.profits.entries@, key)
    }
}

/// Create the collector state with zeroed counters.
pub fn instantiate(
    sender: String,
    zerosum_token: String,
    trigger_address: String,
    distributor_contract: String,
) -> (s: CollectorState)
    ensures
        s.wf(),
        s.state.gov_contract == sender,
        s.state.zerosum_token == zerosum_token,
        s.state.trigger_address == trigger_address,
        s.state.distributor_contract == distributor_contract,
        s.state.total_distribute_amount == 0,
        s.state.total_burn_amount == 0,
        s.state.total_lp_amount == 0,
        s.profits.entries@ =~= Seq::<(String, Profit)>::empty(),
        s.harvest_contracts.entries@ =~= Seq::<(String, bool)>::empty(),
        s.actions@ =~= Seq::<ActionHistory>::empty(),
{
    CollectorState {
        state: State {
            gov_contract: sender,
            zerosum_token,
            trigger_address,
            distributor_contract,
            total_distribute_amount: 0,
            total_burn_amount: 0,
            total_lp_amount: 0,
        },
        profits: AddrMap::new(),
        harvest_contracts: AddrMap::new(),
        actions: Vec::new(),
    }
}

/// Change configuration fields; only the governance address may do so.
pub fn execute_update_state(
    s: &mut CollectorState,
    sender: &String,
    gov_contract: Option<String>,
    zerosum_token: Option<String>,
    trigger_address: Option<String>,
    distributor_contract: Option<String>,
) -> (r: Result<(), ContractError>)
    requires
        old(s).wf(),
    ensures
        final(s).wf(),
        r is Err <==> sender@ != old(s).state.gov_contract@,
        r is Err ==> r == Result::<(), ContractError>::Err(ContractError::Unauthorized)
            && *final(s) == *old(s),
        r is Ok ==> {
            &&& final(s).state.gov_contract == match gov_contract {
                Some(v) => v,
                None => old(s).state.gov_contract,
            }
            &&& final(s).state.zerosum_token == match zerosum_token {
                Some(v) => v,
                None => old(s).state.zerosum_token,
            }
            &&& final(s).state.trigger_address == match trigger_address {
                Some(v) => v,
                None => old(s).state.trigger_address,
            }
            &&& final(s).state.distributor_contract == match distributor_contract {
                Some(v) => v,
                None => old(s).state.distributor_contract,
            }
            &&& final(s).state.total_distribute_amount == old(s).state.total_distribute_amount
            &&& final(s).state.total_burn_amount == old(s).state.total_burn_amount
            &&& final(s).state.total_lp_amount == old(s).state.total_lp_amount
        },
        final(s).profits == old(s).profits,
        final(s).harvest_contracts == old(s).harvest_contracts,
        final(s).actions == old(s).actions,
{
    if !(s.state.gov_contract == *sender) {
        return Err(ContractError::Unauthorized);
    }
    if let Some(v) = gov_contract {
        s.state.gov_contract = v;
    }
    if let Some(v) = zerosum_token {
        s.state.zerosum_token = v;
    }
    if let Some(v) = trigger_address {
        s.state.trigger_address = v;
    }
    if let Some(v) = distributor_contract {
        s.state.distributor_contract = v;
    }
    Ok(())
}

/// Register a profit asset under its key; only governance, each key
/// once.
pub fn execute_add_profit(
    s: &mut CollectorState,
    sender: &String,
    key: String,
    swap_contract: Option<String>,
) -> (r: Result<(), ContractError>)
    requires
        old(s).wf(),
    ensures
        final(s).wf(),
        (r == Result::<(), ContractError>::Err(ContractError::Unauthorized)
            <==> sender@ != old(s).state.gov_contract@),
        (r == Result::<(), ContractError>::Err(ContractError::AlreadyExist)
            <==> sender@ == old(s).state.gov_contract@ && old(s).spec_profit(key@) is Some),
        (r is Ok <==> sender@ == old(s).state.gov_contract@ && old(s).spec_profit(key@) is None),
        r is Err ==> *final(s) == *old(s),
        r is Ok ==> {
            &&& match final(s).spec_profit(key@) {
                Some(p) => match swap_contract {
                    Some(v) => p.swap_contract == v,
                    None => p.swap_contract@ == Seq::<char>::empty(),
                },
                None => false,
            }
            &&& forall|k2: Seq<char>| k2 != key@
                ==> assoc_get(final(s).profits.entries@, k2)
                    == assoc_get(old(s).profits.entries@, k2)
            &&& final(s).state == old(s).state
            &&& final(s).harvest_contracts == old(s).harvest_contracts
            &&& final(s).actions == old(s).actions
        },
{
    if !(s.state.gov_contract == *sender) {
        return Err(ContractError::Unauthorized);
    }
    if s.profits.contains_key(&key) {
        return Err(ContractError::AlreadyExist);
    }
    let ghost kv = key@;
    let ghost pre = s.profits.entries@;
    let profit = Profit {
        swap_contract: match swap_contract {
            Some(v) => v,
            None => String::new(),
        },
    };
    s.profits.insert_new(key, profit);
    proof {
        assert forall|k2: Seq<char>| k2 != kv implies assoc_get(s.profits.entries@, k2)
            == assoc_get(pre, k2) by {
            assert(s.profits.spec_get(k2) == assoc_get(s.profits.entries@, k2));
        }
    }
    Ok(())
}

/// Change the swap venue of a known profit asset; only governance.
pub fn execute_update_profit(
    s: &mut CollectorState,
    sender: &String,
    key: &String,
    swap_contract: String,
) -> (r: Result<(), ContractError>)
    requires
        old(s).wf(),
    ensures
        final(s).wf(),
        (r == Result::<(), ContractError>::Err(ContractError::Unauthorized)
            <==> sender@ != old(s).state.gov_contract@),
        (r == Result::<(), ContractError>::Err(ContractError::NotExist)
            <==> sender@ == old(s).state.gov_contract@ && old(s).spec_profit(key@) is None),
        (r is Ok <==> sender@ == old(s).state.gov_contract@ && old(s).spec_profit(key@) is Some),
        r is Err ==> *final(s) == *old(s),
        r is Ok ==> {
            &&& final(s).spec_profit(key@) == Some((Profit { swap_contract }))
            &&& forall|k2: Seq<char>| k2 != key@
                ==> assoc_get(final(s).profits.entries@, k2)
                    == assoc_get(old(s).profits.entries@, k2)
            &&& final(s).state == old(s).state
            &&& final(s).harvest_contracts == old(s).harvest_contracts
            &&& final(s).actions == old(s).actions
        },
{
    if !(s.state.gov_contract == *sender) {
        return Err(ContractError::Unauthorized);
    }
    let i = match s.profits.find(key) {
        None => {
            return Err(ContractError::NotExist);
        },
        Some(i) => i,
    };
    let ghost pre = s.profits.entries@;
    s.profits.set_at(i, key, Profit { swap_contract });
    proof {
        assert forall|k2: Seq<char>| k2 != key@ implies assoc_get(s.profits.entries@, k2)
            == assoc_get(pre, k2) by {
            assert(s.profits.spec_get(k2) == assoc_get(s.profits.entries@, k2));
        }
    }
    Ok(())
}

/// Let a harvest contract take part in collection sweeps; only
/// governance.
pub fn execute_add_harvest_contract(
    s: &mut CollectorState,
    sender: &String,
    addr: String,
) -> (r: Result<(), ContractError>)
    requires
        old(s).wf(),
    ensures
        final(s).wf(),
        r is Err <==> sender@ != old(s).state.gov_contract@,
        r is Err ==> r == Result::<(), ContractError>::Err(ContractError::Unauthorized)
            && *final(s) == *old(s),
        r is Ok ==> {
            &&& assoc_get(final(s).harvest_contracts.entries@, addr@) == Some(true)
            &&& forall|a2: Seq<char>| a2 != addr@
                ==> assoc_get(final(s).harvest_contracts.entries@, a2)
                    == assoc_get(old(s).harvest_contracts.entries@, a2)
            &&& final(s).state == old(s).state
            &&& final(s).profits == old(s).profits
            &&& final(s).actions == old(s).actions
        },
{
    if !(s.state.gov_contract == *sender) {
        return Err(ContractError::Unauthorized);
    }
    let ghost av = addr@;
    let ghost pre = s.harvest_contracts.entries@;
    match s.harvest_contracts.find(&addr) {
        Some(i) => {
            s.harvest_contracts.set_at(i, &addr, true);
        },
        None => {
            s.harvest_contracts.insert_new(addr, true);
        },
    }
    proof {
        assert forall|a2: Seq<char>| a2 != av implies assoc_get(s.harvest_contracts.entries@, a2)
            == assoc_get(pre, a2) by {
            assert(s.harvest_contracts.spec_get(a2) == assoc_get(s.harvest_contracts.entries@, a2));
        }
    }
    Ok(())
}

/// Take a harvest contract out of collection sweeps; only governance.
pub fn execute_remove_harvest_contract(
    s: &mut CollectorState,
    sender: &String,
    addr: &String,
) -> (r: Result<(), ContractError>)
    requires
        old(s).wf(),
    ensures
        final(s).wf(),
        r is Err <==> sender@ != old(s).state.gov_contract@,
        r is Err ==> r == Result::<(), ContractError>::Err(ContractError::Unauthorized)
            && *final(s) == *old(s),
        r is Ok ==> {
            &&& !has_key(final(s).harvest_contracts.entries@, addr@)
            &&& forall|a2: Seq<char>| a2 != addr@
                ==> assoc_get(final(s).harvest_contracts.entries@, a2)
                    == assoc_get(old(s).harvest_contracts.entries@, a2)
            &&& final(s).state == old(s).state
            &&& final(s).profits == old(s).profits
            &&& final(s).actions == old(s).actions
        },
{
    if !(s.state.gov_contract == *sender) {
        return Err(ContractError::Unauthorized);
    }
    let ghost pre = s.harvest_contracts.entries@;
    match s.harvest_contracts.find(addr) {
        Some(i) => {
            s.harvest_contracts.remove_at(i, addr);
            proof {
                assert forall|a2: Seq<char>| a2 != addr@
                    implies assoc_get(s.harvest_contracts.entries@, a2) == assoc_get(pre, a2) by {
                    assert(s.harvest_contracts.spec_get(a2)
                        == assoc_get(s.harvest_contracts.entries@, a2));
                }
            }
        },
        None => {},
    }
    Ok(())
}

/// Decide what to do with the gathered platform-token balance: while a
/// minting band is active the balance is burned, past all bands it goes
/// back to the distributor.  The matching counter grows and the action
/// is logged.  A zero balance does nothing.
pub fn execute_action(
    s: &mut CollectorState,
    sender: &String,
    balance: u128,
    height: u64,
    time: u64,
) -> (r: Result<(Option<ActionType>, Vec<TokenTransfer>), ContractError>)
    requires
        old(s).wf(),
        old(s).state.total_burn_amount + balance <= u128::MAX,
        old(s).state.total_distribute_amount + balance <= u128::MAX,
    ensures
        final(s).wf(),
        (r is Err <==> sender@ != old(s).state.gov_contract@
            && sender@ != old(s).state.trigger_address@),
        r is Err ==> r == Result::<(Option<ActionType>, Vec<TokenTransfer>), ContractError>::Err(
            ContractError::Unauthorized,
        ) && *final(s) == *old(s),
        r matches Ok(p) ==> ({
            &&& balance == 0 ==> *final(s) == *old(s) && p.0 is None && p.1@.len() == 0
            &&& balance > 0 ==> {
                &&& final(s).actions@ == old(s).actions@.push(
                    (ActionHistory { time, amount: balance }),
                )
                &&& final(s).profits == old(s).profits
                &&& final(s).harvest_contracts == old(s).harvest_contracts
                &&& match crate::round::period_of(height) {
                    Some(_) => {
                        &&& p.0 == Some(ActionType::Burn)
                        &&& p.1@.len() == 0
                        &&& final(s).state.total_burn_amount
                            == old(s).state.total_burn_amount + balance
                        &&& final(s).state.total_distribute_amount
                            == old(s).state.total_distribute_amount
                    },
                    None => {
                        &&& p.0 == Some(ActionType::Distribute)
                        &&& p.1@.len() == 1
                        &&& p.1@[0].recipient == old(s).state.distributor_contract
                        &&& p.1@[0].amount == balance
                        &&& final(s).state.total_distribute_amount
                            == old(s).state.total_distribute_amount + balance
                        &&& final(s).state.total_burn_amount == old(s).state.total_burn_amount
                    },
                }
                &&& final(s).state.gov_contract == old(s).state.gov_contract
                &&& final(s).state.zerosum_token == old(s).state.zerosum_token
                &&& final(s).state.trigger_address == old(s).state.trigger_address
                &&& final(s).state.distributor_contract == old(s).state.distributor_contract
                &&& final(s).state.total_lp_amount == old(s).state.total_lp_amount
            }
        }),
{
    if !(s.state.gov_contract == *sender) && !(s.state.trigger_address == *sender) {
        return Err(ContractError::Unauthorized);
    }
    if balance == 0 {
        return Ok((None, Vec::new()));
    }
    let mut msgs: Vec<TokenTransfer> = Vec::new();
    let action: ActionType;
    match crate::round::get_period(height) {
        Some(_) => {
            action = ActionType::Burn;
            s.state.total_burn_amount = s.state.total_burn_amount + balance;
        },
        None => {
            action = ActionType::Distribute;
            s.state.total_distribute_amount = s.state.total_distribute_amount + balance;
            msgs.push(TokenTransfer {
                recipient: s.state.distributor_contract.clone(),
                amount: balance,
            });
        },
    }
    s.actions.push(ActionHistory { time, amount: balance });
    Ok((Some(action), msgs))
}

/// Ask every registered harvest contract to hand over its collected
/// funds: one collect message per contract, in registration order.
pub fn execute_collect(s: &CollectorState) -> (v: Vec<(String, CollectorMsg)>)
    requires
        s.wf(),
    ensures
        v@.len() == s.harvest_contracts.entries@.len(),
        forall|i: int| 0 <= i < v@.len() ==> v@[i].0@ == s.harvest_contracts.entries@[i].0@
            && v@[i].1 == CollectorMsg::Collect,
{
    let mut v: Vec<(String, CollectorMsg)> = Vec::new();
    let mut i: usize = 0;
    while i < s.harvest_contracts.entries.len()
        invariant
            i <= s.harvest_contracts.entries@.len(),
            v@.len() == i,
            forall|j: int| 0 <= j < i ==> v@[j].0@ == s.harvest_contracts.entries@[j].0@
                && v@[j].1 == CollectorMsg::Collect,
        decreases s.harvest_contracts.entries@.len() - i,
    {
        v.push((s.harvest_contracts.entries[i].0.clone(), CollectorMsg::Collect));
        i = i + 1;
    }
    v
}

} // verus!
