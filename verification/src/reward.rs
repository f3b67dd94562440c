use vstd::prelude::*;
use crate::{ContractError, TokenTransfer};
use crate::store::{AddrMap, assoc_get, has_key};

verus! {

/// Configuration of the reward treasury.
#[derive(Debug, Clone)]
pub struct State {
    pub gov_contract: String,
    pub zerosum_token: String,
}

/// The reward treasury: a set of contracts allowed to spend from it.
pub struct RewardState {
    pub state: State,
    pub spender: AddrMap<bool>,
}

impl RewardState {
    pub open spec fn wf(&self) -> bool {
        self.spender.wf()
    }

    pub open spec fn spec_is_spender(&self, a: Seq<char>) -> bool {
        assoc_get(self.spender.entries@, a) == Some(true)
    }
}

/// Create the treasury state with no spenders.
pub fn instantiate(sender: String, zerosum_token: String) -> (s: RewardState)
    ensures
        s.wf(),
        s.state.gov_contract == sender,
        s.state.zerosum_token == zerosum_token,
        s.spender.entries@ =~= Seq::<(String, bool)>::empty(),
{
    RewardState {
        state: State { gov_contract: sender, zerosum_token },
        spender: AddrMap::new(),
    }
}

/// Change configuration fields; only the governance address may do so.
pub fn execute_update_state(
    s: &mut RewardState,
    sender: &String,
    gov_contract: Option<String>,
    zerosum_token: Option<String>,
) -> (r: Result<(), ContractError>)
    requires
        old(s).wf(),
    ensures
        final(s).wf(),
        r is Err <==> sender@ != old(s).state.gov_contract@,
        r is Err ==> r == Result::<(), ContractError>::Err(ContractError::Unauthorized)
            && *final(s) == *old(s),
        r is Ok ==> {
            &&& final(s).state.gov_contract == match gov_contract {
                Some(v) => v,
                None => old(s).state.gov_contract,
            }
            &&& final(s).state.zerosum_token == match zerosum_token {
                Some(v) => v,
                None => old(s).state.zerosum_token,
            }
        },
        final(s).spender == old(s).spender,
{
    if !(s.state.gov_contract == *sender) {
        return Err(ContractError::Unauthorized);
    }
    if let Some(v) = gov_contract {
        s.state.gov_contract = v;
    }
    if let Some(v) = zerosum_token {
        s.state.zerosum_token = v;
    }
    Ok(())
}

/// Allow an address to spend from the treasury; only governance.
pub fn execute_add_spender(s: &mut RewardState, sender: &String, addr: String) -> (r: Result<
    (),
    ContractError,
>)
    requires
        old(s).wf(),
    ensures
        final(s).wf(),
        r is Err <==> sender@ != old(s).state.gov_contract@,
        r is Err ==> r == Result::<(), ContractError>::Err(ContractError::Unauthorized)
            && *final(s) == *old(s),
        r is Ok ==> {
            &&& final(s).spec_is_spender(addr@)
            &&& forall|a2: Seq<char>| a2 != addr@
                ==> assoc_get(final(s).spender.entries@, a2)
                    == assoc_get(old(s).spender.entries@, a2)
            &&& final(s).state == old(s).state
        },
{
    if !(s.state.gov_contract == *sender) {
        return Err(ContractError::Unauthorized);
    }
    let ghost av = addr@;
    let ghost pre = s.spender.entries@;
    match s.spender.find(&addr) {
        Some(i) => {
            s.spender.set_at(i, &addr, true);
        },
        None => {
            s.spender.insert_new(addr, true);
        },
    }
    proof {
        assert forall|a2: Seq<char>| a2 != av implies assoc_get(s.spender.entries@, a2)
            == assoc_get(pre, a2) by {
            assert(s.spender.spec_get(a2) == assoc_get(s.spender.entries@, a2));
        }
    }
    Ok(())
}

/// Withdraw an address's right to spend; only governance.  Removing an
/// address that was never allowed changes nothing.
pub fn execute_remove_spender(s: &mut RewardState, sender: &String, addr: &String) -> (r: Result<
    (),
    ContractError,
>)
    requires
        old(s).wf(),
    ensures
        final(s).wf(),
        r is Err <==> sender@ != old(s).state.gov_contract@,
        r is Err ==> r == Result::<(), ContractError>::Err(ContractError::Unauthorized)
            && *final(s) == *old(s),
        r is Ok ==> {
            &&& !has_key(final(s).spender.entries@, addr@)
            &&& forall|a2: Seq<char>| a2 != addr@
                ==> assoc_get(final(s).spender.entries@, a2)
                    == assoc_get(old(s).spender.entries@, a2)
            &&& final(s).state == old(s).state
        },
{
    if !(s.state.gov_contract == *sender) {
        return Err(ContractError::Unauthorized);
    }
    let ghost pre = s.spender.entries@;
    match s.spender.find(addr) {
        Some(i) => {
            s.spender.remove_at(i, addr);
            proof {
                assert forall|a2: Seq<char>| a2 != addr@ implies assoc_get(s.spender.entries@, a2)
                    == assoc_get(pre, a2) by {
                    assert(s.spender.spec_get(a2) == assoc_get(s.spender.entries@, a2));
                }
            }
        },
        None => {},
    }
    Ok(())
}

/// Spend from the treasury: only an allowed spender may direct a payout.
pub fn execute_spend(
    s: &RewardState,
    sender: &String,
    addr: String,
    amount: u128,
) -> (r: Result<Vec<TokenTransfer>, ContractError>)
    requires
        s.wf(),
    ensures
        (r is Err <==> assoc_get(s.spender.entries@, sender@) is None),
        r is Err ==> r == Result::<Vec<TokenTransfer>, ContractError>::Err(
            ContractError::Unauthorized,
        ),
        r matches Ok(v) ==> v@.len() == 1 && v@[0].recipient == addr && v@[0].amount == amount,
{
    match s.spender.find(sender) {
        None => Err(ContractError::Unauthorized),
        Some(_) => {
            let mut msgs: Vec<TokenTransfer> = Vec::new();
            msgs.push(TokenTransfer { recipient: addr, amount });
            Ok(msgs)
        },
    }
}

/// The addresses currently allowed to spend, in insertion order.
pub fn query_spenders(s: &RewardState) -> (v: Vec<String>)
    requires
        s.wf(),
    ensures
        v@.len() == s.spender.entries@.len(),
        forall|i: int| 0 <= i < v@.len() ==> v@[i]@ == s.spender.entries@[i].0@,
{
    let mut v: Vec<String> = Vec::new();
    let mut i: usize = 0;
    while i < s.spender.entries.len()
        invariant
            i <= s.spender.entries@.len(),
            v@.len() == i,
            forall|j: int| 0 <= j < i ==> v@[j]@ == s.spender.entries@[j].0@,
        decreases s.spender.entries@.len() - i,
    {
        v.push(s.spender.entries[i].0.clone());
        i = i + 1;
    }
    v
}

} // verus!
