//! Deploying and calling contracts.
//!
//! The virtual machine runs outside the ledger: it is handed a
//! `ContractHostContext`, and what the call did comes back as `ContractCommitData`.
use crate::crypto::address::address_fault;
use crate::crypto::Address;
use crate::executor::account::AccountModel;
use crate::executor::fees::saturated;
use crate::executor::payments::{
    account_address, can_charge, charge_sender, charged, cost_fits, full_cost, moved, settles,
    shortfall, shortfall_text,
};
use crate::executor::state::{storage_area, stored, ChainState, StateModel};
use crate::executor::value::{account_keeps_wf, account_within_wealth, books_keep_wf};
use crate::order::Key;
use crate::table::{map_of, map_of_entries, Table};
use crate::text::{decimal, decimal_text, joined2, joined5};
use crate::transaction::{ContractCommitData, Findings, Transaction};
use vstd::prelude::*;

verus! {

/// Why deploying is refused.
pub open spec fn deploy_fault(tx: Transaction, f: Findings) -> Option<Seq<char>> {
    if tx.to is Some {
        Some("deploy transactions must not set a recipient"@)
    } else if tx.data@.len() == 0 {
        Some("deploy transaction is missing WASM bytecode"@)
    } else if tx.data@.len() > f.code_size_limit {
        Some(
            "contract bytecode "@ + decimal(tx.data@.len()) + " bytes exceeds the "@ + decimal(
                f.code_size_limit as nat,
            ) + "-byte limit"@,
        )
    } else {
        match f.bytecode {
            Ok(()) => None,
            Err(e) => Some("invalid contract bytecode: "@ + e@),
        }
    }
}

/// An account has become a contract.
pub open spec fn deployed(s: StateModel, a: Seq<char>, code: Seq<u8>) -> StateModel {
    s.with_account(a, AccountModel { code: Some(code), ..s.account(a) })
}

pub fn execute_deploy_contract(state: &mut ChainState, tx: &Transaction, findings: &Findings) -> (r:
    Result<(), String>)
    requires
        can_charge(old(state)@, *tx),
    ensures
        settles(
            old(state)@,
            final(state)@,
            deploy_fault(*tx, *findings),
            deployed(charged(old(state)@, *tx), tx.from@, tx.data@),
            r,
        ),
        r is Ok ==> final(state)@.wf() && final(state)@.wealth() + tx.fee == old(state)@.wealth(),
{
    if tx.to.is_some() {
        return Err("deploy transactions must not set a recipient".to_owned());
    }
    if tx.data.len() == 0 {
        return Err("deploy transaction is missing WASM bytecode".to_owned());
    }
    if tx.data.len() > findings.code_size_limit {
        let size = decimal_text(tx.data.len() as u64);
        let most = decimal_text(findings.code_size_limit as u64);
        return Err(
            joined5(
                "contract bytecode ",
                size.as_str(),
                " bytes exceeds the ",
                most.as_str(),
                "-byte limit",
            ),
        );
    }
    match &findings.bytecode {
        Ok(()) => {},
        Err(e) => {
            return Err(joined2("invalid contract bytecode: ", e.as_str()));
        },
    }
    charge_sender(state, tx);
    let mut account = state.get_or_default(&tx.from);
    account.code = Some(vstd::slice::slice_to_vec(tx.data.as_slice()));
    proof {
        account_address(state@, tx.from@);
        account_keeps_wf(state@, tx.from@, account@);
    }
    state.put_account(&tx.from, account);
    Ok(())
}

/// How a contract's attempt to pay somebody came out.
#[derive(Debug, Clone, Copy, PartialEq, Eq, Structural)]
pub enum TransferOutcome {
    Paid,
    InvalidAddress,
    InsufficientBalance,
}

/// The payments of a list.
pub open spec fn payments(s: Seq<(Address, u64)>) -> Seq<(Seq<char>, u64)> {
    Seq::new(s.len(), |i: int| (s[i].0@, s[i].1))
}

/// The payments of a list, added up.
pub open spec fn payments_sum(s: Seq<(Seq<char>, u64)>) -> nat
    decreases s.len(),
{
    if s.len() == 0 {
        0
    } else {
        payments_sum(s.drop_last()) + s.last().1 as nat
    }
}

/// Stands between a running contract and the state. What the contract writes and
/// pays is held back until the call has ended well; a call that fails leaves nothing.
pub struct ContractHostContext<'a> {
    state: &'a ChainState,
    contract: Address,
    contract_str: String,
    caller_str: String,
    value: u64,
    height: u64,
    input: Vec<u8>,
    storage_writes: Table<Vec<u8>, Vec<u8>>,
    transfers: Vec<(Address, u64)>,
    /// What the payments so far add up to.
    pending_debit: u64,
    return_data: Vec<u8>,
}

/// A `ContractHostContext` as the contract sees it.
pub struct HostModel {
    pub state: StateModel,
    pub contract: Seq<char>,
    pub caller: Seq<char>,
    pub value: u64,
    pub height: u64,
    pub input: Seq<u8>,
    pub storage_writes: Map<Seq<u8>, Seq<u8>>,
    pub transfers: Seq<(Seq<char>, u64)>,
    pub return_data: Seq<u8>,
}

impl HostModel {
    /// Everything that the contract can pay out of: its balance and what came with the call.
    pub open spec fn funds(self) -> u64 {
        saturated(self.state.account(self.contract).balance + self.value)
    }

    /// What the contract can still pay.
    pub open spec fn available(self) -> int {
        self.funds() - payments_sum(self.transfers)
    }
}

impl<'a> View for ContractHostContext<'a> {
    type V = HostModel;

    closed spec fn view(&self) -> HostModel {
        HostModel {
            state: self.state@,
            contract: self.contract@,
            caller: self.caller_str@,
            value: self.value,
            height: self.height,
            input: self.input@,
            storage_writes: self.storage_writes@,
            transfers: payments(self.transfers@),
            return_data: self.return_data@,
        }
    }
}

impl<'a> ContractHostContext<'a> {
    /// The payments are counted, and within the contract's funds.
    pub closed spec fn wf(&self) -> bool {
        &&& self.contract_str@ == self.contract@
        &&& self.pending_debit == payments_sum(payments(self.transfers@))
        &&& self.pending_debit <= self@.funds()
    }

    pub fn new(
        state: &'a ChainState,
        contract: Address,
        caller: Address,
        value: u64,
        height: u64,
        input: Vec<u8>,
    ) -> (r: Self)
        ensures
            r.wf(),
            r@ == (HostModel {
                state: state@,
                contract: contract@,
                caller: caller@,
                value,
                height,
                input: input@,
                storage_writes: Map::empty(),
                transfers: Seq::empty(),
                return_data: Seq::empty(),
            }),
    {
        let transfers: Vec<(Address, u64)> = Vec::new();
        proof {
            assert(payments(transfers@) =~= Seq::empty());
        }
        let contract_str = contract.to_string();
        let caller_str = caller.to_string();
        ContractHostContext {
            state,
            contract,
            contract_str,
            caller_str,
            value,
            height,
            input,
            storage_writes: Table::new(),
            transfers,
            pending_debit: 0,
            return_data: Vec::new(),
        }
    }

    /// What the contract could still pay right now.
    pub fn available_balance(&self) -> (r: u64)
        requires
            self.wf(),
        ensures
            r == self@.available(),
    {
        let balance: u64 = match self.state.get(&self.contract) {
            Some(a) => a.balance,
            None => 0,
        };
        balance.saturating_add(self.value).saturating_sub(self.pending_debit)
    }

    /// What the finished call wants done.
    pub fn into_commit_data(self) -> (r: ContractCommitData)
        requires
            self.wf(),
        ensures
            r.contract@ == self@.contract,
            r.storage_writes@ == self@.storage_writes,
            payments(r.transfers@) == self@.transfers,
            r.return_data@ == self@.return_data,
            payments_sum(payments(r.transfers@)) <= self@.funds(),
    {
        ContractCommitData {
            contract: self.contract,
            storage_writes: self.storage_writes,
            transfers: self.transfers,
            return_data: self.return_data,
        }
    }

    /// What the contract has stored under a key, its own writes in this call included.
    pub fn storage_read(&self, key: &[u8]) -> (r: Option<Vec<u8>>)
        ensures
            match r {
                Some(v) => read_through(self@, key@) == Some(v@),
                None => read_through(self@, key@) is None,
            },
    {
        match self.storage_writes.get(&vstd::slice::slice_to_vec(key)) {
            Some(v) => Some(vstd::slice::slice_to_vec(v.as_slice())),
            None => self.state.contract_storage_read(&self.contract, key),
        }
    }

    pub fn storage_write(&mut self, key: &[u8], value: Vec<u8>)
        requires
            old(self).wf(),
        ensures
            final(self).wf(),
            final(self)@ == (HostModel {
                storage_writes: old(self)@.storage_writes.insert(key@, value@),
                ..old(self)@
            }),
    {
        self.storage_writes.insert(vstd::slice::slice_to_vec(key), value);
    }

    /// Pays somebody out of the contract's funds.
    pub fn transfer(&mut self, to: &str, amount: u64) -> (r: TransferOutcome)
        requires
            old(self).wf(),
        ensures
            final(self).wf(),
            r == (if address_fault(to@) is Some {
                TransferOutcome::InvalidAddress
            } else if amount > old(self)@.available() {
                TransferOutcome::InsufficientBalance
            } else {
                TransferOutcome::Paid
            }),
            final(self)@ == (if r is Paid {
                HostModel { transfers: old(self)@.transfers.push((to@, amount)), ..old(self)@ }
            } else {
                old(self)@
            }),
    {
        let to_addr = match Address::from_str(to) {
            Ok(a) => a,
            Err(_) => {
                return TransferOutcome::InvalidAddress;
            },
        };
        if amount > self.available_balance() {
            return TransferOutcome::InsufficientBalance;
        }
        let ghost was = payments(self.transfers@);
        self.pending_debit = self.pending_debit + amount;
        self.transfers.push((to_addr, amount));
        proof {
            assert(payments(self.transfers@) =~= was.push((to@, amount)));
            assert(payments(self.transfers@).drop_last() =~= was);
        }
        TransferOutcome::Paid
    }

    pub fn caller(&self) -> (r: &str)
        ensures
            r@ == self@.caller,
    {
        self.caller_str.as_str()
    }

    pub fn self_address(&self) -> (r: &str)
        requires
            self.wf(),
        ensures
            r@ == self@.contract,
    {
        self.contract_str.as_str()
    }

    pub fn value(&self) -> (r: u64)
        ensures
            r == self@.value,
    {
        self.value
    }

    pub fn block_height(&self) -> (r: u64)
        ensures
            r == self@.height,
    {
        self.height
    }

    pub fn input(&self) -> (r: &[u8])
        ensures
            r@ == self@.input,
    {
        self.input.as_slice()
    }

    pub fn set_return_data(&mut self, data: Vec<u8>)
        requires
            old(self).wf(),
        ensures
            final(self).wf(),
            final(self)@ == (HostModel { return_data: data@, ..old(self)@ }),
    {
        self.return_data = data;
    }
}

/// What a contract reads under a key in the middle of a call.
pub open spec fn read_through(h: HostModel, key: Seq<u8>) -> Option<Seq<u8>> {
    if h.storage_writes.contains_key(key) {
        Some(h.storage_writes[key])
    } else {
        stored(h.state, h.contract, key)
    }
}

/// Why a call is refused before the contract runs.
pub open spec fn call_fault(s: StateModel, tx: Transaction) -> Option<Seq<char>> {
    let balance = s.account(tx.from@).balance;
    if tx.to is None {
        Some("call transactions require a target contract address"@)
    } else if balance < full_cost(tx) {
        Some(shortfall(full_cost(tx), balance))
    } else if s.account(tx.to->0@).code is None {
        Some("target address has no deployed contract"@)
    } else {
        None
    }
}

/// Why a call is refused, or how the contract failed.
pub open spec fn call_refusal(s: StateModel, tx: Transaction, f: Findings) -> Option<Seq<char>> {
    match call_fault(s, tx) {
        Some(words) => Some(words),
        None => match f.call {
            Err(e) => Some("contract call failed: "@ + e@),
            Ok(_) => None,
        },
    }
}

/// A contract's storage with a call's writes in it.
pub open spec fn with_writes(
    s: StateModel,
    contract: Seq<char>,
    writes: Map<Seq<u8>, Seq<u8>>,
) -> StateModel {
    if writes.len() == 0 {
        s
    } else {
        StateModel {
            contract_storage: s.contract_storage.insert(
                contract,
                storage_area(s, contract).union_prefer_right(writes),
            ),
            ..s
        }
    }
}

/// A contract has made a list of payments.
pub open spec fn paid_out(s: StateModel, contract: Seq<char>, list: Seq<(Seq<char>, u64)>) -> StateModel
    decreases list.len(),
{
    if list.len() == 0 {
        s
    } else {
        moved(
            paid_out(s, contract, list.drop_last()),
            contract,
            list.last().0,
            list.last().1,
        )
    }
}

/// The contract can make every payment of a list, one after another.
pub open spec fn can_pay_out(s: StateModel, contract: Seq<char>, list: Seq<(Seq<char>, u64)>) -> bool
    decreases list.len(),
{
    if list.len() == 0 {
        true
    } else {
        &&& can_pay_out(s, contract, list.drop_last())
        &&& paid_out(s, contract, list.drop_last()).account(contract).balance >= list.last().1
    }
}

/// The call's value has reached the contract and its effects have been applied.
pub open spec fn called(
    s: StateModel,
    from: Seq<char>,
    contract: Seq<char>,
    amount: u64,
    commit: ContractCommitData,
) -> StateModel {
    paid_out(
        with_writes(moved(s, from, contract, amount), contract, commit.storage_writes@),
        contract,
        payments(commit.transfers@),
    )
}

/// The contract can make the payments it wants.
pub open spec fn commit_fits(s: StateModel, tx: Transaction, f: Findings) -> bool {
    call_refusal(s, tx, f) is None ==> can_pay_out(
        moved(charged(s, tx), tx.from@, tx.to->0@, tx.amount),
        tx.to->0@,
        payments(f.call->Ok_0.transfers@),
    )
}

/// The fuel that a call gets.
pub open spec fn fuel_for(s: StateModel, tx: Transaction) -> u64 {
    saturated(tx.fee as int * s.governance_params.fuel_per_fee_unit as int)
}

/// A call gets so much fuel for every unit of its fee, as the parameter says, or all
/// that a number can hold.
pub proof fn fees_buy_fuel(s: StateModel, tx: Transaction)
    ensures
        tx.fee * s.governance_params.fuel_per_fee_unit <= u64::MAX ==> fuel_for(s, tx) == tx.fee
            * s.governance_params.fuel_per_fee_unit,
        tx.fee * s.governance_params.fuel_per_fee_unit > u64::MAX ==> fuel_for(s, tx) == u64::MAX,
{
}

/// The code that a call would run and the fuel it gets, or why it is refused.
pub fn plan_contract_call(state: &ChainState, tx: &Transaction) -> (r: Result<
    (Vec<u8>, u64),
    String,
>)
    ensures
        match r {
            Ok((code, fuel)) => {
                &&& call_fault(state@, *tx) is None
                &&& state@.account(tx.to->0@).code == Some(code@)
                &&& fuel == saturated(
                    tx.fee as int * state@.governance_params.fuel_per_fee_unit as int,
                )
                &&& fuel == fuel_for(state@, *tx)
            },
            Err(words) => call_fault(state@, *tx) == Some(words@),
        },
{
    let target = match &tx.to {
        None => {
            return Err("call transactions require a target contract address".to_owned());
        },
        Some(t) => t,
    };
    let balance: u64 = state.get_or_default(&tx.from).balance;
    let cost: u64 = tx.amount.saturating_add(tx.fee);
    if balance < cost {
        return Err(shortfall_text(cost, balance));
    }
    let account = state.get_or_default(target);
    match account.code {
        None => Err("target address has no deployed contract".to_owned()),
        Some(code) => {
            let fuel: u64 = saturating_product(
                tx.fee,
                state.governance_params.fuel_per_fee_unit,
            );
            Ok((code, fuel))
        },
    }
}

/// `a * b`, or the largest number there is.
pub fn saturating_product(a: u64, b: u64) -> (r: u64)
    ensures
        r == saturated(a as int * b as int),
{
    match a.checked_mul(b) {
        Some(p) => p,
        None => {
            proof {
                assert(a as int * b as int > u64::MAX);
            }
            u64::MAX
        },
    }
}

impl ChainState {
    /// Applies a call's storage writes.
    fn apply_writes(&mut self, contract: &Address, writes: &Table<Vec<u8>, Vec<u8>>)
        requires
            old(self)@.wf(),
        ensures
            final(self)@ == with_writes(old(self)@, contract@, writes@),
            final(self)@.wf(),
            final(self)@.wealth() == old(self)@.wealth(),
    {
        let ghost s = self@;
        let n: usize = writes.len();
        let ghost pairs = writes.pairs();
        proof {
            map_of_entries(pairs);
        }
        if n == 0 {
            return;
        }
        let name = contract.to_string();
        let mut area = match self.contract_storage.remove(&name) {
            Some(t) => t,
            None => Table::new(),
        };
        let ghost start = area@;
        proof {
            assert(start =~= storage_area(s, contract@));
            assert(pairs.take(0) =~= Seq::empty());
            assert(start.union_prefer_right(map_of(pairs.take(0))) =~= start);
        }
        let mut i: usize = 0;
        while i < n
            invariant
                i <= n == pairs.len(),
                pairs == writes.pairs(),
                area@ == start.union_prefer_right(map_of(pairs.take(i as int))),
            decreases n - i,
        {
            let key = writes.key_at(i).copy_key();
            let value = vstd::slice::slice_to_vec(writes.value_at(i).as_slice());
            let ghost was = area@;
            area.insert(key, value);
            proof {
                let t = pairs.take(i as int);
                let u = pairs.take(i + 1);
                assert(u.drop_last() =~= t);
                assert(u.last() == pairs[i as int]);
                assert(area@ =~= start.union_prefer_right(map_of(u)));
            }
            i = i + 1;
        }
        self.contract_storage.insert(name, area);
        proof {
            assert(pairs.take(n as int) =~= pairs);
            assert(self.contract_storage@ =~= with_writes(
                s,
                contract@,
                writes@,
            ).contract_storage);
            books_keep_wf(s, self@);
        }
    }

    /// Makes a contract's payments.
    fn pay_out(&mut self, contract: &Address, list: &Vec<(Address, u64)>)
        requires
            old(self)@.wf(),
            can_pay_out(old(self)@, contract@, payments(list@)),
        ensures
            final(self)@ == paid_out(old(self)@, contract@, payments(list@)),
            final(self)@.wf(),
            final(self)@.wealth() == old(self)@.wealth(),
    {
        let ghost s = self@;
        let ghost all = payments(list@);
        let mut i: usize = 0;
        proof {
            assert(all.take(0) =~= Seq::empty());
        }
        while i < list.len()
            invariant
                i <= list@.len(),
                all == payments(list@),
                can_pay_out(s, contract@, all),
                self@ == paid_out(s, contract@, all.take(i as int)),
                self@.wf(),
                self@.wealth() == s.wealth(),
            decreases list.len() - i,
        {
            proof {
                can_pay_prefix(s, contract@, all, i + 1);
                assert(all.take(i + 1).drop_last() =~= all.take(i as int));
                assert(all.take(i + 1).last() == all[i as int]);
            }
            self.move_balance(contract, &list[i].0, list[i].1);
            i = i + 1;
        }
        proof {
            assert(all.take(i as int) =~= all);
        }
    }
}

proof fn can_pay_prefix(s: StateModel, contract: Seq<char>, list: Seq<(Seq<char>, u64)>, i: int)
    requires
        0 <= i <= list.len(),
        can_pay_out(s, contract, list),
    ensures
        can_pay_out(s, contract, list.take(i)),
    decreases list.len(),
{
    if i == list.len() {
        assert(list.take(i) =~= list);
    } else {
        can_pay_prefix(s, contract, list.drop_last(), i);
        assert(list.drop_last().take(i) =~= list.take(i));
    }
}

pub fn execute_call_contract(state: &mut ChainState, tx: &Transaction, findings: &Findings) -> (r:
    Result<(), String>)
    requires
        can_charge(old(state)@, *tx),
        cost_fits(old(state)@, *tx),
        commit_fits(old(state)@, *tx, *findings),
    ensures
        settles(
            old(state)@,
            final(state)@,
            call_refusal(old(state)@, *tx, *findings),
            called(
                charged(old(state)@, *tx),
                tx.from@,
                tx.to->0@,
                tx.amount,
                findings.call->Ok_0,
            ),
            r,
        ),
        r is Ok ==> final(state)@.wf() && final(state)@.wealth() + tx.fee == old(state)@.wealth(),
{
    match plan_contract_call(state, tx) {
        Ok(_) => {},
        Err(words) => {
            return Err(words);
        },
    }
    let commit = match &findings.call {
        Err(e) => {
            return Err(joined2("contract call failed: ", e.as_str()));
        },
        Ok(c) => c,
    };
    match &tx.to {
        None => Err("call transactions require a target contract address".to_owned()),
        Some(target) => {
            proof {
                account_within_wealth(state@, tx.from@);
            }
            charge_sender(state, tx);
            state.move_balance(&tx.from, target, tx.amount);
            let ghost before = state@;
            state.apply_writes(target, &commit.storage_writes);
            proof {
                writes_leave_payments(
                    before,
                    target@,
                    commit.storage_writes@,
                    payments(commit.transfers@),
                );
            }
            state.pay_out(target, &commit.transfers);
            Ok(())
        },
    }
}

/// Whether a called contract can make the payments it wants.
pub fn commit_has_room(state: &ChainState, tx: &Transaction, findings: &Findings) -> (r: bool)
    requires
        can_charge(state@, *tx),
        cost_fits(state@, *tx),
    ensures
        r == commit_fits(state@, *tx, *findings),
{
    match plan_contract_call(state, tx) {
        Ok(_) => {},
        Err(_) => {
            return true;
        },
    }
    let commit = match &findings.call {
        Err(_) => {
            return true;
        },
        Ok(c) => c,
    };
    let target = match &tx.to {
        None => {
            return true;
        },
        Some(a) => a,
    };
    let ghost start = moved(charged(state@, *tx), tx.from@, target@, tx.amount);
    let ghost all = payments(commit.transfers@);
    proof {
        call_value_arrives(state@, *tx);
    }
    let mut funds: u64 = if tx.from.same(target) {
        state.get_or_default(target).balance - tx.fee
    } else {
        state.get_or_default(target).balance + tx.amount
    };
    let mut i: usize = 0;
    proof {
        assert(all.take(0) =~= Seq::empty());
    }
    while i < commit.transfers.len()
        invariant
            i <= commit.transfers@.len(),
            all == payments(commit.transfers@),
            start.wf(),
            can_pay_out(start, target@, all.take(i as int)),
            paid_out(start, target@, all.take(i as int)).wf(),
            funds == paid_out(start, target@, all.take(i as int)).account(target@).balance,
            findings.call is Ok,
            findings.call->Ok_0 == *commit,
            tx.to is Some,
            tx.to->0@ == target@,
            call_fault(state@, *tx) is None,
            start == moved(charged(state@, *tx), tx.from@, target@, tx.amount),
        decreases commit.transfers.len() - i,
    {
        let amount: u64 = commit.transfers[i].1;
        let ghost before = paid_out(start, target@, all.take(i as int));
        proof {
            assert(all.take(i + 1).drop_last() =~= all.take(i as int));
            assert(all.take(i + 1).last() == all[i as int]);
        }
        if amount > funds {
            proof {
                if can_pay_out(start, target@, all) {
                    can_pay_prefix(start, target@, all, i + 1);
                }
            }
            return false;
        }
        proof {
            moved_facts(before, target@, all[i as int].0, amount);
        }
        if !commit.transfers[i].0.same(target) {
            funds = funds - amount;
        }
        i = i + 1;
    }
    proof {
        assert(all.take(i as int) =~= all);
    }
    true
}

/// What a contract has to spend once a call's value has reached it.
proof fn call_value_arrives(s: StateModel, tx: Transaction)
    requires
        can_charge(s, tx),
        cost_fits(s, tx),
        call_fault(s, tx) is None,
    ensures
        moved(charged(s, tx), tx.from@, tx.to->0@, tx.amount).wf(),
        s.account(tx.to->0@).balance + tx.amount <= u64::MAX || tx.from@ == tx.to->0@,
        moved(charged(s, tx), tx.from@, tx.to->0@, tx.amount).account(tx.to->0@).balance == (
        if tx.from@ == tx.to->0@ {
            s.account(tx.from@).balance - tx.fee
        } else {
            s.account(tx.to->0@).balance + tx.amount
        }),
{
    let target = tx.to->0@;
    let c = charged(s, tx);
    account_within_wealth(s, tx.from@);
    account_within_wealth(s, target);
    account_address(s, tx.from@);
    account_keeps_wf(
        s,
        tx.from@,
        AccountModel {
            balance: (s.account(tx.from@).balance - tx.fee) as u64,
            nonce: (s.account(tx.from@).nonce + 1) as u64,
            ..s.account(tx.from@)
        },
    );
    moved_facts(c, tx.from@, target, tx.amount);
    if tx.from@ != target {
        assert(c.account(target) == s.account(target));
        account_within_wealth(moved(c, tx.from@, target, tx.amount), target);
    }
}

proof fn writes_leave_payments(
    s: StateModel,
    contract: Seq<char>,
    writes: Map<Seq<u8>, Seq<u8>>,
    list: Seq<(Seq<char>, u64)>,
)
    ensures
        can_pay_out(with_writes(s, contract, writes), contract, list) == can_pay_out(
            s,
            contract,
            list,
        ),
        paid_out(with_writes(s, contract, writes), contract, list).accounts == paid_out(
            s,
            contract,
            list,
        ).accounts,
    decreases list.len(),
{
    if list.len() > 0 {
        writes_leave_payments(s, contract, writes, list.drop_last());
    }
}

/// Payments within a contract's funds can all be made.
proof fn funded_payments(s: StateModel, contract: Seq<char>, list: Seq<(Seq<char>, u64)>)
    requires
        s.account(contract).balance >= payments_sum(list),
        s.wf(),
    ensures
        can_pay_out(s, contract, list),
        paid_out(s, contract, list).account(contract).balance + payments_sum(list)
            >= s.account(contract).balance,
        paid_out(s, contract, list).wf(),
        paid_out(s, contract, list).wealth() == s.wealth(),
    decreases list.len(),
{
    if list.len() > 0 {
        let front = list.drop_last();
        funded_payments(s, contract, front);
        let t = paid_out(s, contract, front);
        let to = list.last().0;
        let amount = list.last().1;
        moved_facts(t, contract, to, amount);
    }
}

pub(crate) proof fn moved_facts(s: StateModel, from: Seq<char>, to: Seq<char>, amount: u64)
    requires
        s.wf(),
        s.account(from).balance >= amount,
    ensures
        moved(s, from, to, amount).wf(),
        moved(s, from, to, amount).wealth() == s.wealth(),
        from != to ==> moved(s, from, to, amount).account(from).balance
            == s.account(from).balance - amount,
        from != to ==> moved(s, from, to, amount).account(to).balance == s.account(to).balance
            + amount,
        from == to ==> moved(s, from, to, amount).account(from).balance == s.account(from).balance,
{
    let payer = AccountModel {
        balance: (s.account(from).balance - amount) as u64,
        ..s.account(from)
    };
    account_within_wealth(s, from);
    account_address(s, from);
    account_keeps_wf(s, from, payer);
    let t = s.with_account(from, payer);
    account_within_wealth(t, to);
    account_address(t, to);
    let payee = AccountModel { balance: (t.account(to).balance + amount) as u64, ..t.account(to) };
    account_keeps_wf(t, to, payee);
}

/// The payments that a host context let through can be made when the call is
/// committed, as long as the contract has not called itself.
pub proof fn host_payments_can_be_made(s: StateModel, tx: Transaction, list: Seq<(Seq<char>, u64)>)
    requires
        can_charge(s, tx),
        cost_fits(s, tx),
        call_fault(s, tx) is None,
        tx.from@ != tx.to->0@,
        payments_sum(list) <= saturated(s.account(tx.to->0@).balance + tx.amount),
    ensures
        can_pay_out(
            moved(charged(s, tx), tx.from@, tx.to->0@, tx.amount),
            tx.to->0@,
            list,
        ),
{
    let target = tx.to->0@;
    call_value_arrives(s, tx);
    funded_payments(moved(charged(s, tx), tx.from@, target, tx.amount), target, list);
}

/// A call changes accounts and contract storage, and nothing else.
pub proof fn call_leaves_books(
    s: StateModel,
    from: Seq<char>,
    contract: Seq<char>,
    amount: u64,
    commit: ContractCommitData,
)
    ensures
        ({
            let t = called(s, from, contract, amount, commit);
            t == (StateModel {
                accounts: t.accounts,
                contract_storage: t.contract_storage,
                ..s
            })
        }),
{
    payments_leave_books(
        with_writes(moved(s, from, contract, amount), contract, commit.storage_writes@),
        contract,
        payments(commit.transfers@),
    );
}

proof fn payments_leave_books(s: StateModel, contract: Seq<char>, list: Seq<(Seq<char>, u64)>)
    ensures
        paid_out(s, contract, list) == (StateModel {
            accounts: paid_out(s, contract, list).accounts,
            ..s
        }),
    decreases list.len(),
{
    if list.len() > 0 {
        payments_leave_books(s, contract, list.drop_last());
    }
}

} // verus!
