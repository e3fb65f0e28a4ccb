//! Paying, staking and releasing stake.
use crate::crypto::Address;
use crate::executor::account::{
    AccountModel, self_bond_ratio_ok, self_bond_suffices, UNBONDING_PERIOD,
};
use crate::executor::fees::saturated;
use crate::executor::state::{ChainState, StateModel};
use crate::executor::value::{account_keeps_wf, account_within_wealth};
use crate::text::{decimal, decimal_text, joined4};
use crate::transaction::Transaction;
use vstd::prelude::*;

verus! {

/// The sender is at the transaction's nonce and can pay its fee.
pub open spec fn payable(s: StateModel, tx: Transaction) -> bool {
    &&& s.account(tx.from@).nonce == tx.nonce
    &&& s.account(tx.from@).balance >= tx.fee
}

/// The sender has paid the fee and moved on to the next nonce.
pub open spec fn charged(s: StateModel, tx: Transaction) -> StateModel {
    let a = s.account(tx.from@);
    s.with_account(
        tx.from@,
        AccountModel {
            balance: (a.balance - tx.fee) as u64,
            nonce: (a.nonce + 1) as u64,
            ..a
        },
    )
}

/// What an operation asks of the state it is tried on.
pub open spec fn can_charge(s: StateModel, tx: Transaction) -> bool {
    &&& s.wf()
    &&& payable(s, tx)
    &&& tx.nonce < u64::MAX
}

/// How an operation came out: refused with these words and nothing changed, or
/// charged and done.
pub open spec fn settles(
    before: StateModel,
    after: StateModel,
    fault: Option<Seq<char>>,
    done: StateModel,
    r: Result<(), String>,
) -> bool {
    match r {
        Ok(()) => fault is None && after == done,
        Err(words) => fault == Some(words@) && after == before,
    }
}

/// Takes the fee from the sender and moves it on to the next nonce.
pub fn charge_sender(state: &mut ChainState, tx: &Transaction)
    requires
        can_charge(old(state)@, *tx),
    ensures
        final(state)@ == charged(old(state)@, *tx),
        final(state)@.wf(),
        final(state)@.wealth() + tx.fee == old(state)@.wealth(),
{
    let mut account = state.get_or_default(&tx.from);
    account.balance = account.balance - tx.fee;
    account.nonce = account.nonce + 1;
    proof {
        account_within_wealth(state@, tx.from@);
        account_address(state@, tx.from@);
        account_keeps_wf(state@, tx.from@, account@);
    }
    state.put_account(&tx.from, account);
}

/// An account is filed under its own address.
pub proof fn account_address(s: StateModel, a: Seq<char>)
    requires
        s.wf(),
    ensures
        s.account(a).address == a,
{
    if s.accounts.contains_key(a) {
    }
}

/// What a payment costs its sender in all.
pub open spec fn full_cost(tx: Transaction) -> u64 {
    saturated(tx.amount + tx.fee)
}

/// What a payment costs its sender is a number, unless the sender has less than
/// any such number.
pub open spec fn cost_fits(s: StateModel, tx: Transaction) -> bool {
    s.account(tx.from@).balance >= full_cost(tx) ==> tx.amount + tx.fee <= u64::MAX
}

/// Whether what a payment costs its sender is a number, unless the sender has less.
pub fn cost_has_room(state: &ChainState, tx: &Transaction) -> (r: bool)
    ensures
        r == cost_fits(state@, *tx),
{
    match tx.amount.checked_add(tx.fee) {
        Some(_) => true,
        None => state.get_or_default(&tx.from).balance < u64::MAX,
    }
}

/// `need` and `have` in the words of a refusal.
pub open spec fn shortfall(need: u64, have: u64) -> Seq<char> {
    "insufficient balance: need "@ + decimal(need as nat) + ", have "@ + decimal(have as nat)
}

pub fn shortfall_text(need: u64, have: u64) -> (r: String)
    ensures
        r@ == shortfall(need, have),
{
    let n = decimal_text(need);
    let h = decimal_text(have);
    joined4("insufficient balance: need ", n.as_str(), ", have ", h.as_str())
}

/// Some balance moved from one account to another.
pub open spec fn moved(s: StateModel, from: Seq<char>, to: Seq<char>, amount: u64) -> StateModel {
    let paid = s.with_account(
        from,
        AccountModel { balance: (s.account(from).balance - amount) as u64, ..s.account(from) },
    );
    paid.with_account(
        to,
        AccountModel { balance: (paid.account(to).balance + amount) as u64, ..paid.account(to) },
    )
}

impl ChainState {
    /// Moves some balance from one account to another.
    pub(crate) fn move_balance(&mut self, from: &Address, to: &Address, amount: u64)
        requires
            old(self)@.wf(),
            old(self)@.account(from@).balance >= amount,
        ensures
            final(self)@ == moved(old(self)@, from@, to@, amount),
            final(self)@.wf(),
            final(self)@.wealth() == old(self)@.wealth(),
    {
        let mut payer = self.get_or_default(from);
        payer.balance = payer.balance - amount;
        proof {
            account_within_wealth(self@, from@);
            account_address(self@, from@);
            account_keeps_wf(self@, from@, payer@);
        }
        self.put_account(from, payer);
        let mut payee = self.get_or_default(to);
        proof {
            account_within_wealth(self@, to@);
            account_address(self@, to@);
        }
        payee.balance = payee.balance + amount;
        proof {
            account_keeps_wf(self@, to@, payee@);
        }
        self.put_account(to, payee);
    }
}

/// Why a transfer is refused.
pub open spec fn transfer_fault(s: StateModel, tx: Transaction) -> Option<Seq<char>> {
    let balance = s.account(tx.from@).balance;
    if tx.amount == 0 {
        Some("transfer amount must be greater than zero"@)
    } else if tx.to is None {
        Some("transfer requires a recipient address (tx.to)"@)
    } else if balance < full_cost(tx) {
        Some(shortfall(full_cost(tx), balance))
    } else {
        None
    }
}

pub fn execute_transfer(state: &mut ChainState, tx: &Transaction) -> (r: Result<(), String>)
    requires
        can_charge(old(state)@, *tx),
        cost_fits(old(state)@, *tx),
    ensures
        settles(
            old(state)@,
            final(state)@,
            transfer_fault(old(state)@, *tx),
            moved(charged(old(state)@, *tx), tx.from@, tx.to->0@, tx.amount),
            r,
        ),
        r is Ok ==> final(state)@.wf() && final(state)@.wealth() + tx.fee == old(state)@.wealth(),
{
    if tx.amount == 0 {
        return Err("transfer amount must be greater than zero".to_owned());
    }
    match &tx.to {
        None => Err("transfer requires a recipient address (tx.to)".to_owned()),
        Some(recipient) => {
            let balance: u64 = state.get_or_default(&tx.from).balance;
            let cost: u64 = tx.amount.saturating_add(tx.fee);
            if balance < cost {
                return Err(shortfall_text(cost, balance));
            }
            proof {
                account_within_wealth(state@, tx.from@);
            }
            charge_sender(state, tx);
            state.move_balance(&tx.from, recipient, tx.amount);
            Ok(())
        },
    }
}

/// Why staking is refused.
pub open spec fn stake_fault(s: StateModel, tx: Transaction) -> Option<Seq<char>> {
    if tx.amount == 0 {
        Some("stake amount must be greater than zero"@)
    } else if s.account(tx.from@).balance < full_cost(tx) {
        Some("insufficient balance"@)
    } else {
        None
    }
}

/// Some balance has become stake.
pub open spec fn staked(s: StateModel, a: Seq<char>, amount: u64) -> StateModel {
    s.with_account(
        a,
        AccountModel {
            balance: (s.account(a).balance - amount) as u64,
            staked: (s.account(a).staked + amount) as u64,
            ..s.account(a)
        },
    )
}

pub fn execute_stake(state: &mut ChainState, tx: &Transaction) -> (r: Result<(), String>)
    requires
        can_charge(old(state)@, *tx),
        cost_fits(old(state)@, *tx),
    ensures
        settles(
            old(state)@,
            final(state)@,
            stake_fault(old(state)@, *tx),
            staked(charged(old(state)@, *tx), tx.from@, tx.amount),
            r,
        ),
        r is Ok ==> final(state)@.wf() && final(state)@.wealth() + tx.fee == old(state)@.wealth(),
{
    if tx.amount == 0 {
        return Err("stake amount must be greater than zero".to_owned());
    }
    let balance: u64 = state.get_or_default(&tx.from).balance;
    if balance < tx.amount.saturating_add(tx.fee) {
        return Err("insufficient balance".to_owned());
    }
    proof {
        account_within_wealth(state@, tx.from@);
    }
    charge_sender(state, tx);
    let mut account = state.get_or_default(&tx.from);
    proof {
        account_within_wealth(state@, tx.from@);
        account_address(state@, tx.from@);
    }
    account.balance = account.balance - tx.amount;
    account.staked = account.staked + tx.amount;
    proof {
        account_keeps_wf(state@, tx.from@, account@);
    }
    state.put_account(&tx.from, account);
    Ok(())
}

/// Somebody other than this account may validate.
pub open spec fn another_qualifies(s: StateModel, a: Seq<char>) -> bool {
    exists|b: Seq<char>| #[trigger] s.qualifies(b) && b != a
}

/// Why releasing stake is refused.
pub open spec fn unstake_fault(s: StateModel, tx: Transaction) -> Option<Seq<char>> {
    let a = s.account(tx.from@);
    let min = s.governance_params.min_validator_stake;
    if a.staked < tx.amount {
        Some("insufficient staked amount"@)
    } else if a.unbonding_stake > 0 {
        Some("an unbonding is already in progress; claim it before unstaking more"@)
    } else if a.staked >= min && a.staked - tx.amount < min && !another_qualifies(s, tx.from@) {
        Some(
            "cannot unstake below the validator minimum: you are the last eligible validator and the network would be left with none"@,
        )
    } else if s.delegated_to(tx.from@) > 0 && !self_bond_suffices(
        a.staked - tx.amount,
        s.delegated_to(tx.from@) as int,
    ) {
        Some(
            "cannot unstake: would drop your self-bond ratio below the required minimum while delegators are still backing this validator"@,
        )
    } else {
        None
    }
}

/// Some stake has begun to unbond, answering for the account itself.
pub open spec fn unstaked(s: StateModel, a: Seq<char>, amount: u64, height: u64) -> StateModel {
    s.with_account(
        a,
        AccountModel {
            staked: (s.account(a).staked - amount) as u64,
            unbonding_stake: amount,
            unbonding_unlock_height: (height + UNBONDING_PERIOD) as u64,
            unbonding_source: None,
            ..s.account(a)
        },
    )
}

fn another_staker(state: &ChainState, address: &Address) -> (r: bool)
    requires
        state@.wf(),
    ensures
        r == another_qualifies(state@, address@),
{
    let stakers = state.stakers();
    let mut i: usize = 0;
    while i < stakers.len()
        invariant
            i <= stakers.len(),
            forall|k: int| 0 <= k < i ==> (#[trigger] stakers@[k]).0@ == address@,
            forall|a: Seq<char>| #[trigger]
                state@.qualifies(a) <==> exists|k: int|
                    0 <= k < stakers@.len() && (#[trigger] stakers@[k]).0@ == a,
        decreases stakers.len() - i,
    {
        if !stakers[i].0.same(address) {
            proof {
                assert(state@.qualifies(stakers@[i as int].0@));
            }
            return true;
        }
        i = i + 1;
    }
    false
}

pub fn execute_unstake(state: &mut ChainState, tx: &Transaction, height: u64) -> (r: Result<
    (),
    String,
>)
    requires
        can_charge(old(state)@, *tx),
        height + UNBONDING_PERIOD <= u64::MAX,
    ensures
        settles(
            old(state)@,
            final(state)@,
            unstake_fault(old(state)@, *tx),
            unstaked(charged(old(state)@, *tx), tx.from@, tx.amount, height),
            r,
        ),
        r is Ok ==> final(state)@.wf() && final(state)@.wealth() + tx.fee == old(state)@.wealth(),
{
    let sender = state.get_or_default(&tx.from);
    if sender.staked < tx.amount {
        return Err("insufficient staked amount".to_owned());
    }
    if sender.unbonding_stake > 0 {
        return Err(
            "an unbonding is already in progress; claim it before unstaking more".to_owned(),
        );
    }
    // A validator set that nobody qualifies for cannot be rotated into.
    let min_stake: u64 = state.governance_params.min_validator_stake;
    if sender.staked >= min_stake && sender.staked - tx.amount < min_stake {
        if !another_staker(state, &tx.from) {
            return Err(
                "cannot unstake below the validator minimum: you are the last eligible validator and the network would be left with none".to_owned(),
            );
        }
    }
    let delegated: u64 = match state.validator_pools.get(&tx.from.to_string()) {
        Some(p) => p.total_delegated_stake,
        None => 0,
    };
    if delegated > 0 && !self_bond_ratio_ok(sender.staked - tx.amount, delegated) {
        return Err(
            "cannot unstake: would drop your self-bond ratio below the required minimum while delegators are still backing this validator".to_owned(),
        );
    }
    charge_sender(state, tx);
    let mut account = state.get_or_default(&tx.from);
    account.staked = account.staked - tx.amount;
    account.unbonding_stake = tx.amount;
    account.unbonding_unlock_height = height + UNBONDING_PERIOD;
    account.unbonding_source = None;
    proof {
        account_address(state@, tx.from@);
        account_keeps_wf(state@, tx.from@, account@);
    }
    state.put_account(&tx.from, account);
    Ok(())
}

/// Why claiming is refused.
pub open spec fn claim_fault(s: StateModel, tx: Transaction, height: u64) -> Option<Seq<char>> {
    let a = s.account(tx.from@);
    if a.unbonding_stake == 0 {
        Some("no unbonding stake to claim"@)
    } else if !a.claimable(height) {
        Some(
            "unbonding period not over: unlocks at height "@ + decimal(
                a.unbonding_unlock_height as nat,
            ) + ", current "@ + decimal(height as nat),
        )
    } else {
        None
    }
}

/// Unbonded stake has become balance.
pub open spec fn claimed(s: StateModel, a: Seq<char>) -> StateModel {
    s.with_account(
        a,
        AccountModel {
            balance: (s.account(a).balance + s.account(a).unbonding_stake) as u64,
            unbonding_stake: 0,
            unbonding_unlock_height: 0,
            unbonding_source: None,
            ..s.account(a)
        },
    )
}

pub fn execute_claim_unbonded(state: &mut ChainState, tx: &Transaction, height: u64) -> (r: Result<
    (),
    String,
>)
    requires
        can_charge(old(state)@, *tx),
    ensures
        settles(
            old(state)@,
            final(state)@,
            claim_fault(old(state)@, *tx, height),
            claimed(charged(old(state)@, *tx), tx.from@),
            r,
        ),
        r is Ok ==> final(state)@.wf() && final(state)@.wealth() + tx.fee == old(state)@.wealth(),
{
    let sender = state.get_or_default(&tx.from);
    if sender.unbonding_stake == 0 {
        return Err("no unbonding stake to claim".to_owned());
    }
    if !sender.can_claim_unbonded(height) {
        let unlock = decimal_text(sender.unbonding_unlock_height);
        let now = decimal_text(height);
        return Err(
            joined4(
                "unbonding period not over: unlocks at height ",
                unlock.as_str(),
                ", current ",
                now.as_str(),
            ),
        );
    }
    charge_sender(state, tx);
    let mut account = state.get_or_default(&tx.from);
    proof {
        account_within_wealth(state@, tx.from@);
        account_address(state@, tx.from@);
    }
    account.balance = account.balance + account.unbonding_stake;
    account.unbonding_stake = 0;
    account.unbonding_unlock_height = 0;
    account.unbonding_source = None;
    proof {
        account_keeps_wf(state@, tx.from@, account@);
    }
    state.put_account(&tx.from, account);
    Ok(())
}

} // verus!
