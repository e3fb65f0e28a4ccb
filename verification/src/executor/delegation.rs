//! Putting stake behind a validator, moving it and taking it back.
use crate::crypto::address::address_fault;
use crate::crypto::Address;
use crate::encoding::{le_value, read_le};
use crate::executor::account::{
    redelegation_models, self_bond_ratio_ok, self_bond_suffices, AccountModel, DelegationPool,
    Redelegation, RedelegationList, RedelegationModel, DEFAULT_COMMISSION_BPS, MAX_COMMISSION_BPS,
    UNBONDING_PERIOD,
};
use crate::executor::fees::saturated;
use crate::executor::payments::{
    account_address, can_charge, charge_sender, charged, cost_fits, full_cost, settles, shortfall,
    shortfall_text,
};
use crate::executor::slashing::{ceil_div, ceil_of, position_after};
use crate::executor::state::{by_shares, ChainState, StateModel, VALUE_LIMIT};
use crate::executor::validators::{redeemable, share_value, value_fits};
use crate::executor::value::{
    account_keeps_wf, account_within_wealth, books_keep_wf,
    pool_and_positions_keep_wf, pool_keeps_wf, position_within_pool, shares_with_position,
    wealth_with_pool,
};
use crate::sums::{total, total_of_empty};
use crate::table::{map_of_entries, Table};
use crate::text::{decimal, decimal_text, joined4, joined5, utf8_text};
use crate::transaction::Transaction;
use vstd::prelude::*;

verus! {

/// The shares that a deposit buys at the pool's price, rounded down and kept to 64
/// bits; one for one while the pool is empty.
pub open spec fn minted(pool: DelegationPool, amount: u64) -> int {
    if pool.total_shares == 0 || pool.total_delegated_stake == 0 {
        amount as int
    } else {
        (amount as int * pool.total_shares as int / pool.total_delegated_stake as int)
            % 0x1_0000_0000_0000_0000
    }
}

/// The shares that a withdrawal uses up at the pool's price, rounded up.
pub open spec fn redeemed(pool: DelegationPool, amount: u64) -> int {
    ceil_div(amount as int * pool.total_shares as int, pool.total_delegated_stake as int)
}

/// A deposit leaves the pool's shares countable.
pub open spec fn mint_fits(s: StateModel, validator: Seq<char>, amount: u64) -> bool {
    s.pool(validator).total_shares + minted(s.pool(validator), amount) <= u64::MAX
}

/// The shares that a delegator holds, none if it has no position.
pub open spec fn held_by(s: StateModel, validator: Seq<char>, delegator: Seq<char>) -> u64 {
    match s.shares_of(validator, delegator) {
        Some(n) => n,
        None => 0,
    }
}

/// A delegator has put an amount into a validator's pool.
pub open spec fn deposited(
    s: StateModel,
    validator: Seq<char>,
    delegator: Seq<char>,
    amount: u64,
) -> StateModel {
    let pool = s.pool(validator);
    let shares = minted(pool, amount);
    s.with_pool(
        validator,
        DelegationPool {
            total_shares: (pool.total_shares + shares) as u64,
            total_delegated_stake: (pool.total_delegated_stake + amount) as u64,
            ..pool
        },
    ).with_positions(
        validator,
        s.positions(validator).insert(
            delegator,
            (held_by(s, validator, delegator) + shares) as u64,
        ),
    )
}

/// A delegator has taken an amount out of a validator's pool.
pub open spec fn withdrawn(
    s: StateModel,
    validator: Seq<char>,
    delegator: Seq<char>,
    amount: u64,
) -> StateModel {
    let pool = s.pool(validator);
    let shares = redeemed(pool, amount);
    s.with_pool(
        validator,
        DelegationPool {
            total_shares: (pool.total_shares - shares) as u64,
            total_delegated_stake: (pool.total_delegated_stake - amount) as u64,
            ..pool
        },
    ).with_positions(
        validator,
        position_after(
            s.positions(validator),
            delegator,
            (held_by(s, validator, delegator) - shares) as u64,
        ),
    )
}

/// A share of `after` is worth at least as much as a share of `before`.
pub open spec fn price_holds(before: DelegationPool, after: DelegationPool) -> bool {
    after.total_delegated_stake as int * before.total_shares as int
        >= before.total_delegated_stake as int * after.total_shares as int
}

/// A deposit never lowers the price of the shares that are out already.
pub proof fn deposit_holds_price(pool: DelegationPool, amount: u64)
    requires
        pool.total_shares + minted(pool, amount) <= u64::MAX,
        pool.total_delegated_stake + amount <= u64::MAX,
    ensures
        pool.total_shares > 0 ==> price_holds(
            pool,
            DelegationPool {
                total_shares: (pool.total_shares + minted(pool, amount)) as u64,
                total_delegated_stake: (pool.total_delegated_stake + amount) as u64,
                ..pool
            },
        ),
{
    if pool.total_shares > 0 && pool.total_delegated_stake > 0 {
        let a = amount as int;
        let s = pool.total_shares as int;
        let d = pool.total_delegated_stake as int;
        let q = a * s / d;
        let m = q % 0x1_0000_0000_0000_0000;
        minted_fits_u128(amount, pool.total_shares, pool.total_delegated_stake);
        assert(d * q <= a * s) by {
            vstd::arithmetic::div_mod::lemma_fundamental_div_mod(a * s, d);
        }
        assert(d * m <= d * q) by (nonlinear_arith)
            requires
                m <= q,
                0 < d,
        ;
        assert((d + a) * s >= d * (s + m)) by (nonlinear_arith)
            requires
                d * m <= a * s,
        ;
    } else {
        let d = pool.total_delegated_stake as int;
        assert((d + amount) * pool.total_shares >= 0) by (nonlinear_arith)
            requires
                d >= 0,
                amount >= 0,
                pool.total_shares >= 0,
        ;
    }
}

/// A withdrawal never lowers the price of the shares that are left.
pub proof fn withdrawal_holds_price(pool: DelegationPool, amount: u64)
    requires
        0 < pool.total_delegated_stake,
        amount <= pool.total_delegated_stake,
        redeemed(pool, amount) <= pool.total_shares,
    ensures
        price_holds(
            pool,
            DelegationPool {
                total_shares: (pool.total_shares - redeemed(pool, amount)) as u64,
                total_delegated_stake: (pool.total_delegated_stake - amount) as u64,
                ..pool
            },
        ),
        0 <= redeemed(pool, amount),
        redeemed(pool, amount) * pool.total_delegated_stake >= amount * pool.total_shares,
{
    let a = amount as int;
    let s = pool.total_shares as int;
    let d = pool.total_delegated_stake as int;
    let r = redeemed(pool, amount);
    assert(0 <= a * s) by (nonlinear_arith)
        requires
            0 <= a,
            0 <= s,
    ;
    vstd::arithmetic::div_mod::lemma_div_pos_is_pos(a * s, d);
    assert(r * d >= a * s) by {
        vstd::arithmetic::div_mod::lemma_fundamental_div_mod(a * s, d);
        let q = a * s / d;
        assert(q * d == d * q) by (nonlinear_arith);
        assert((q + 1) * d == d * q + d) by (nonlinear_arith);
    }
    assert((d - a) * s >= d * (s - r)) by (nonlinear_arith)
        requires
            r * d >= a * s,
    ;
}

/// What can be redeemed with some shares needs no more than those shares.
proof fn redeemed_within(shares: int, pool: DelegationPool, amount: u64)
    requires
        0 <= shares <= pool.total_shares,
        0 < pool.total_shares,
        0 < pool.total_delegated_stake,
        amount <= shares * pool.total_delegated_stake as int / pool.total_shares as int,
    ensures
        0 <= redeemed(pool, amount) <= shares,
{
    let a = amount as int;
    let s = pool.total_shares as int;
    let d = pool.total_delegated_stake as int;
    let v = shares * d / s;
    assert(s * v <= shares * d) by {
        vstd::arithmetic::div_mod::lemma_fundamental_div_mod(shares * d, s);
    }
    assert(a * s <= shares * d) by (nonlinear_arith)
        requires
            0 <= a <= v,
            0 < s,
            s * v <= shares * d,
    ;
    assert(0 <= a * s) by (nonlinear_arith)
        requires
            0 <= a,
            0 < s,
    ;
    vstd::arithmetic::div_mod::lemma_div_pos_is_pos(a * s, d);
    vstd::arithmetic::div_mod::lemma_div_is_ordered(a * s, shares * d, d);
    vstd::arithmetic::div_mod::lemma_div_multiples_vanish(shares, d);
    assert(d * shares == shares * d) by (nonlinear_arith);
    if (a * s) % d != 0 && a * s / d == shares {
        vstd::arithmetic::div_mod::lemma_fundamental_div_mod(a * s, d);
        assert(false);
    }
}

proof fn minted_fits_u128(amount: u64, shares: u64, value: u64)
    requires
        value > 0,
    ensures
        0 <= amount as int * shares as int <= u128::MAX,
        0 <= amount as int * shares as int / value as int,
{
    assert(0 <= amount as int * shares as int <= 0xffff_ffff_ffff_ffff * 0xffff_ffff_ffff_ffff)
        by (nonlinear_arith)
        requires
            0 <= amount <= 0xffff_ffff_ffff_ffff,
            0 <= shares <= 0xffff_ffff_ffff_ffff,
    ;
    vstd::arithmetic::div_mod::lemma_div_pos_is_pos(amount as int * shares as int, value as int);
}

/// The shares that a deposit buys.
fn shares_for(pool: &DelegationPool, amount: u64) -> (r: u64)
    ensures
        r == minted(*pool, amount),
{
    if pool.total_shares == 0 || pool.total_delegated_stake == 0 {
        amount
    } else {
        proof {
            minted_fits_u128(amount, pool.total_shares, pool.total_delegated_stake);
        }
        let shares: u128 = amount as u128 * pool.total_shares as u128
            / pool.total_delegated_stake as u128;
        assert((shares % 0x1_0000_0000_0000_0000) <= 0xffff_ffff_ffff_ffff);
        (shares % 0x1_0000_0000_0000_0000) as u64
    }
}

proof fn positions_facts(s: StateModel, validator: Seq<char>)
    requires
        s.wf(),
    ensures
        s.positions(validator).dom().finite(),
        total(s.positions(validator), by_shares()) <= s.pool(validator).total_shares,
{
    if s.delegator_shares.contains_key(validator) {
        assert(s.shares_backed(validator));
    } else {
        total_of_empty::<Seq<char>, u64>(by_shares());
    }
}

impl ChainState {
    /// A validator's pool, or an empty one.
    fn pool_or_empty(&self, validator: &String) -> (r: DelegationPool)
        ensures
            r == self@.pool(validator@),
    {
        match self.validator_pools.get(validator) {
            Some(p) => *p,
            None => DelegationPool {
                total_shares: 0,
                total_delegated_stake: 0,
                commission_bps: DEFAULT_COMMISSION_BPS,
            },
        }
    }

    /// The shares that a delegator holds in a validator's pool.
    fn position(&self, validator: &String, delegator: &String) -> (r: Option<u64>)
        ensures
            r == self@.shares_of(validator@, delegator@),
    {
        match self.delegator_shares.get(validator) {
            Some(positions) => match positions.get(delegator) {
                Some(n) => Some(*n),
                None => None,
            },
            None => None,
        }
    }

    /// Whether a deposit leaves the pool's shares countable.
    pub fn deposit_has_room(&self, validator: &Address, amount: u64) -> (r: bool)
        ensures
            r == mint_fits(self@, validator@, amount),
    {
        let pool = self.pool_or_empty(&validator.to_string());
        let shares: u64 = shares_for(&pool, amount);
        match pool.total_shares.checked_add(shares) {
            Some(_) => true,
            None => false,
        }
    }

    /// Puts an amount into a validator's pool for a delegator.
    fn deposit(&mut self, validator: &String, delegator: &String, amount: u64)
        requires
            old(self)@.wf(),
            mint_fits(old(self)@, validator@, amount),
            old(self)@.wealth() + amount <= VALUE_LIMIT,
        ensures
            final(self)@ == deposited(old(self)@, validator@, delegator@, amount),
            final(self)@.wf(),
            final(self)@.wealth() == old(self)@.wealth() + amount,
    {
        let ghost s = self@;
        let pool = self.pool_or_empty(validator);
        let shares: u64 = shares_for(&pool, amount);
        let held: u64 = match self.position(validator, delegator) {
            Some(n) => n,
            None => 0,
        };
        proof {
            wealth_with_pool(s, validator@, pool);
            positions_facts(s, validator@);
            if s.shares_of(validator@, delegator@) is Some {
                position_within_pool(s, validator@, delegator@);
            }
        }
        let grown = DelegationPool {
            total_shares: pool.total_shares + shares,
            total_delegated_stake: pool.total_delegated_stake + amount,
            commission_bps: pool.commission_bps,
        };
        let mut positions = match self.delegator_shares.remove(validator) {
            Some(t) => t,
            None => Table::new(),
        };
        positions.insert(delegator.clone(), held + shares);
        self.delegator_shares.insert(validator.clone(), positions);
        self.validator_pools.insert(validator.clone(), grown);
        proof {
            let after = s.positions(validator@).insert(delegator@, (held + shares) as u64);
            shares_with_position(s.positions(validator@), delegator@, (held + shares) as u64);
            pool_and_positions_keep_wf(s, validator@, grown, after);
            let goal = deposited(s, validator@, delegator@, amount);
            assert(self.delegator_shares@ =~= goal.delegator_shares);
            assert(self.validator_pools@ =~= goal.validator_pools);
        }
    }

    /// Takes an amount out of a validator's pool for a delegator.
    fn withdraw(&mut self, validator: &String, delegator: &String, amount: u64)
        requires
            old(self)@.wf(),
            old(self)@.validator_pools.contains_key(validator@),
            old(self)@.pool(validator@).total_shares > 0,
            old(self)@.pool(validator@).total_delegated_stake > 0,
            old(self)@.shares_of(validator@, delegator@) is Some,
            amount <= share_value(
                old(self)@.shares_of(validator@, delegator@)->0,
                old(self)@.pool(validator@),
            ),
        ensures
            final(self)@ == withdrawn(old(self)@, validator@, delegator@, amount),
            final(self)@.wf(),
            final(self)@.wealth() + amount == old(self)@.wealth(),
    {
        let ghost s = self@;
        let pool = self.pool_or_empty(validator);
        let held: u64 = match self.position(validator, delegator) {
            Some(n) => n,
            None => 0,
        };
        proof {
            position_within_pool(s, validator@, delegator@);
            positions_facts(s, validator@);
            value_fits(held as int, pool.total_delegated_stake as int, pool.total_shares as int);
            redeemed_within(held as int, pool, amount);
        }
        let shares: u64 = ceil_of(amount, pool.total_shares, pool.total_delegated_stake) as u64;
        let smaller = DelegationPool {
            total_shares: pool.total_shares - shares,
            total_delegated_stake: pool.total_delegated_stake - amount,
            commission_bps: pool.commission_bps,
        };
        let mut positions = match self.delegator_shares.remove(validator) {
            Some(t) => t,
            None => Table::new(),
        };
        let left: u64 = held - shares;
        if left == 0 {
            positions.remove(delegator);
        } else {
            positions.insert(delegator.clone(), left);
        }
        self.delegator_shares.insert(validator.clone(), positions);
        self.validator_pools.insert(validator.clone(), smaller);
        proof {
            let after = position_after(s.positions(validator@), delegator@, left);
            shares_with_position(s.positions(validator@), delegator@, left);
            wealth_with_pool(s, validator@, smaller);
            pool_and_positions_keep_wf(s, validator@, smaller, after);
            let goal = withdrawn(s, validator@, delegator@, amount);
            assert(self.delegator_shares@ =~= goal.delegator_shares);
            assert(self.validator_pools@ =~= goal.validator_pools);
        }
    }
}

/// Why delegating is refused.
pub open spec fn delegate_fault(s: StateModel, tx: Transaction) -> Option<Seq<char>> {
    let balance = s.account(tx.from@).balance;
    if tx.to is None {
        Some("delegate requires a target validator address"@)
    } else if tx.amount == 0 {
        Some("delegation amount must be greater than zero"@)
    } else if balance < full_cost(tx) {
        Some(shortfall(full_cost(tx), balance))
    } else {
        let target = tx.to->0@;
        if s.account(target).staked == 0 {
            Some("target address has never self-staked — not a recognized validator identity"@)
        } else if !self_bond_suffices(
            s.account(target).staked as int,
            saturated(s.delegated_to(target) + tx.amount) as int,
        ) {
            Some(
                "delegation rejected: this validator's self-bond ratio is already at its maximum leverage for its current self-stake"@,
            )
        } else if minted(s.pool(target), tx.amount) == 0 {
            Some(
                "delegation amount is too small to mint any pool shares at the current share price"@,
            )
        } else {
            None
        }
    }
}

/// Some of the sender's balance has gone into a validator's pool.
pub open spec fn delegated(s: StateModel, from: Seq<char>, to: Seq<char>, amount: u64) -> StateModel {
    deposited(
        s.with_account(
            from,
            AccountModel { balance: (s.account(from).balance - amount) as u64, ..s.account(from) },
        ),
        to,
        from,
        amount,
    )
}

/// The shares of a delegation that is not refused can be counted.
pub open spec fn delegate_fits(s: StateModel, tx: Transaction) -> bool {
    delegate_fault(s, tx) is None ==> mint_fits(s, tx.to->0@, tx.amount)
}

/// Whether the shares of a delegation that is not refused can be counted.
pub fn delegate_has_room(state: &ChainState, tx: &Transaction) -> (r: bool)
    ensures
        r == delegate_fits(state@, *tx),
{
    let target = match &tx.to {
        None => {
            return true;
        },
        Some(t) => t,
    };
    if state.deposit_has_room(target, tx.amount) {
        return true;
    }
    let pool = state.pool_or_empty(&target.to_string());
    let own: u64 = state.get_or_default(target).staked;
    tx.amount == 0 || state.get_or_default(&tx.from).balance < tx.amount.saturating_add(tx.fee)
        || own == 0 || !self_bond_ratio_ok(own, pool.total_delegated_stake.saturating_add(tx.amount))
        || shares_for(&pool, tx.amount) == 0
}

pub fn execute_delegate(state: &mut ChainState, tx: &Transaction) -> (r: Result<(), String>)
    requires
        can_charge(old(state)@, *tx),
        cost_fits(old(state)@, *tx),
        delegate_fits(old(state)@, *tx),
    ensures
        settles(
            old(state)@,
            final(state)@,
            delegate_fault(old(state)@, *tx),
            delegated(charged(old(state)@, *tx), tx.from@, tx.to->0@, tx.amount),
            r,
        ),
        r is Ok ==> final(state)@.wf() && final(state)@.wealth() + tx.fee == old(state)@.wealth(),
{
    let target = match &tx.to {
        None => {
            return Err("delegate requires a target validator address".to_owned());
        },
        Some(t) => t,
    };
    if tx.amount == 0 {
        return Err("delegation amount must be greater than zero".to_owned());
    }
    let balance: u64 = state.get_or_default(&tx.from).balance;
    let cost: u64 = tx.amount.saturating_add(tx.fee);
    if balance < cost {
        return Err(shortfall_text(cost, balance));
    }
    let target_key = target.to_string();
    let target_staked: u64 = state.get_or_default(target).staked;
    if target_staked == 0 {
        return Err(
            "target address has never self-staked — not a recognized validator identity".to_owned(),
        );
    }
    let pool = state.pool_or_empty(&target_key);
    if !self_bond_ratio_ok(target_staked, pool.total_delegated_stake.saturating_add(tx.amount)) {
        return Err(
            "delegation rejected: this validator's self-bond ratio is already at its maximum leverage for its current self-stake".to_owned(),
        );
    }
    if shares_for(&pool, tx.amount) == 0 {
        return Err(
            "delegation amount is too small to mint any pool shares at the current share price".to_owned(),
        );
    }
    proof {
        account_within_wealth(state@, tx.from@);
    }
    charge_sender(state, tx);
    let mut account = state.get_or_default(&tx.from);
    account.balance = account.balance - tx.amount;
    proof {
        account_within_wealth(state@, tx.from@);
        account_address(state@, tx.from@);
        account_keeps_wf(state@, tx.from@, account@);
    }
    state.put_account(&tx.from, account);
    state.deposit(&target_key, &tx.from.to_string(), tx.amount);
    Ok(())
}

/// `have` and `requested` in the words of a refusal.
pub open spec fn too_little_delegated(have: u64, requested: u64) -> Seq<char> {
    "insufficient delegated balance: have "@ + decimal(have as nat) + ", requested "@ + decimal(
        requested as nat,
    )
}

fn too_little_delegated_text(have: u64, requested: u64) -> (r: String)
    ensures
        r@ == too_little_delegated(have, requested),
{
    let h = decimal_text(have);
    let q = decimal_text(requested);
    joined4("insufficient delegated balance: have ", h.as_str(), ", requested ", q.as_str())
}

/// Why taking delegated stake back is refused.
pub open spec fn undelegate_fault(s: StateModel, tx: Transaction) -> Option<Seq<char>> {
    if tx.to is None {
        Some("undelegate requires a target validator address"@)
    } else if tx.amount == 0 {
        Some("undelegation amount must be greater than zero"@)
    } else if s.account(tx.from@).unbonding_stake > 0 {
        Some("an unbonding is already in progress; claim it before undelegating more"@)
    } else {
        let target = tx.to->0@;
        let pool = s.pool(target);
        if !s.validator_pools.contains_key(target) {
            Some("no delegation pool for this validator"@)
        } else if pool.total_shares == 0 || pool.total_delegated_stake == 0 {
            Some("delegation pool is empty"@)
        } else {
            match s.shares_of(target, tx.from@) {
                None => Some("no delegation from this address to this validator"@),
                Some(held) => if tx.amount > share_value(held, pool) {
                    Some(too_little_delegated(share_value(held, pool), tx.amount))
                } else {
                    None
                },
            }
        }
    }
}

/// An amount has come out of a validator's pool and begun to unbond, still
/// answering for that validator.
pub open spec fn undelegated(
    s: StateModel,
    from: Seq<char>,
    validator: Seq<char>,
    amount: u64,
    height: u64,
) -> StateModel {
    let out = withdrawn(s, validator, from, amount);
    out.with_account(
        from,
        AccountModel {
            unbonding_stake: amount,
            unbonding_unlock_height: (height + UNBONDING_PERIOD) as u64,
            unbonding_source: Some(validator),
            ..out.account(from)
        },
    )
}

/// The value of a position.
fn position_value(held: u64, pool: &DelegationPool) -> (r: u64)
    requires
        held <= pool.total_shares,
        0 < pool.total_shares,
    ensures
        r == share_value(held, *pool),
{
    proof {
        value_fits(held as int, pool.total_delegated_stake as int, pool.total_shares as int);
    }
    (held as u128 * pool.total_delegated_stake as u128 / pool.total_shares as u128) as u64
}

pub fn execute_undelegate(state: &mut ChainState, tx: &Transaction, height: u64) -> (r: Result<
    (),
    String,
>)
    requires
        can_charge(old(state)@, *tx),
        height + UNBONDING_PERIOD <= u64::MAX,
    ensures
        settles(
            old(state)@,
            final(state)@,
            undelegate_fault(old(state)@, *tx),
            undelegated(charged(old(state)@, *tx), tx.from@, tx.to->0@, tx.amount, height),
            r,
        ),
        r is Ok ==> final(state)@.wf() && final(state)@.wealth() + tx.fee == old(state)@.wealth(),
{
    let target = match &tx.to {
        None => {
            return Err("undelegate requires a target validator address".to_owned());
        },
        Some(t) => t,
    };
    if tx.amount == 0 {
        return Err("undelegation amount must be greater than zero".to_owned());
    }
    if state.get_or_default(&tx.from).unbonding_stake > 0 {
        return Err(
            "an unbonding is already in progress; claim it before undelegating more".to_owned(),
        );
    }
    let target_key = target.to_string();
    let sender_key = tx.from.to_string();
    let pool = match state.validator_pools.get(&target_key) {
        None => {
            return Err("no delegation pool for this validator".to_owned());
        },
        Some(p) => *p,
    };
    if pool.total_shares == 0 || pool.total_delegated_stake == 0 {
        return Err("delegation pool is empty".to_owned());
    }
    let held: u64 = match state.position(&target_key, &sender_key) {
        None => {
            return Err("no delegation from this address to this validator".to_owned());
        },
        Some(n) => n,
    };
    proof {
        position_within_pool(state@, target@, tx.from@);
    }
    let value: u64 = position_value(held, &pool);
    if tx.amount > value {
        return Err(too_little_delegated_text(value, tx.amount));
    }
    charge_sender(state, tx);
    state.withdraw(&target_key, &sender_key, tx.amount);
    let mut account = state.get_or_default(&tx.from);
    account.unbonding_stake = tx.amount;
    account.unbonding_unlock_height = height + UNBONDING_PERIOD;
    account.unbonding_source = Some(target_key);
    proof {
        account_address(state@, tx.from@);
        account_keeps_wf(state@, tx.from@, account@);
    }
    state.put_account(&tx.from, account);
    Ok(())
}

/// The text that a transaction's payload encodes.
pub open spec fn payload_text(tx: Transaction) -> Seq<char> {
    vstd::utf8::decode_utf8(tx.data@)
}

/// A delegator's stake at a validator came there by a move that still answers
/// for another validator.
pub open spec fn still_moving(s: StateModel, delegator: Seq<char>, validator: Seq<char>) -> bool {
    exists|src: Seq<char>, i: int|
        s.redelegations.contains_key(src) && 0 <= i < s.redelegations[src].len() && (
        #[trigger] s.redelegations[src][i]).delegator == delegator && s.redelegations[src][i].dst
            == validator
}

/// Why moving delegated stake is refused.
pub open spec fn redelegate_fault(s: StateModel, tx: Transaction) -> Option<Seq<char>> {
    if tx.amount == 0 {
        Some("redelegation amount must be greater than zero"@)
    } else if tx.to is None {
        Some("redelegate requires a destination validator address"@)
    } else if !vstd::utf8::valid_utf8(tx.data@) {
        Some("redelegate source address is not valid UTF-8"@)
    } else if address_fault(payload_text(tx)) is Some {
        Some("redelegate source is not a valid address"@)
    } else {
        let src = payload_text(tx);
        let dst = tx.to->0@;
        let pool = s.pool(src);
        if src == dst {
            Some("cannot redelegate to the same validator"@)
        } else if still_moving(s, tx.from@, src) {
            Some(
                "this delegation is itself still inside a redelegation window; wait for it to end before moving the stake on"@,
            )
        } else if s.account(dst).staked == 0 {
            Some("destination address has never self-staked — not a recognized validator identity"@)
        } else if !self_bond_suffices(
            s.account(dst).staked as int,
            saturated(s.delegated_to(dst) + tx.amount) as int,
        ) {
            Some(
                "redelegation rejected: the destination validator's self-bond ratio is already at its maximum leverage for its current self-stake"@,
            )
        } else if !s.validator_pools.contains_key(src) {
            Some("no delegation pool for the source validator"@)
        } else if pool.total_shares == 0 || pool.total_delegated_stake == 0 {
            Some("source delegation pool is empty"@)
        } else {
            match s.shares_of(src, tx.from@) {
                None => Some("no delegation from this address to the source validator"@),
                Some(held) => if tx.amount > share_value(held, pool) {
                    Some(too_little_delegated(share_value(held, pool), tx.amount))
                } else if minted(s.pool(dst), tx.amount) == 0 {
                    Some(
                        "redelegation amount is too small to mint any shares at the destination's current share price"@,
                    )
                } else {
                    None
                },
            }
        }
    }
}

/// The moves away from a validator.
pub open spec fn moves_from(s: StateModel, src: Seq<char>) -> Seq<RedelegationModel> {
    if s.redelegations.contains_key(src) {
        s.redelegations[src]
    } else {
        Seq::empty()
    }
}

/// An amount has moved from one pool to another, and is remembered as answering
/// for the first until its time is up.
pub open spec fn redelegated(
    s: StateModel,
    from: Seq<char>,
    src: Seq<char>,
    dst: Seq<char>,
    amount: u64,
    height: u64,
) -> StateModel {
    let t = deposited(withdrawn(s, src, from, amount), dst, from, amount);
    StateModel {
        redelegations: t.redelegations.insert(
            src,
            moves_from(t, src).push(
                RedelegationModel {
                    delegator: from,
                    dst,
                    amount,
                    unlock_height: (height + UNBONDING_PERIOD) as u64,
                },
            ),
        ),
        ..t
    }
}

fn is_still_moving(state: &ChainState, delegator: &String, validator: &String) -> (r: bool)
    ensures
        r == still_moving(state@, delegator@, validator@),
{
    let ghost s = state@;
    let n: usize = state.redelegations.len();
    let ghost pairs = state.redelegations.pairs();
    proof {
        map_of_entries(pairs);
    }
    let mut i: usize = 0;
    while i < n
        invariant
            i <= n == pairs.len(),
            s == state@,
            pairs == state.redelegations.pairs(),
            forall|j: int|
                0 <= j < n ==> s.redelegations.contains_key((#[trigger] pairs[j]).0)
                    && s.redelegations[pairs[j].0] == pairs[j].1,
            forall|k: Seq<char>| #[trigger]
                s.redelegations.contains_key(k) ==> exists|j: int|
                    0 <= j < n && (#[trigger] pairs[j]).0 == k,
            forall|j: int, m: int|
                0 <= j < i && 0 <= m < pairs[j].1.len() ==> !((
                #[trigger] pairs[j].1[m]).delegator == delegator@ && pairs[j].1[m].dst
                    == validator@),
        decreases n - i,
    {
        let list = state.redelegations.value_at(i);
        let mut m: usize = 0;
        while m < list.entries.len()
            invariant
                i < n == pairs.len(),
                s == state@,
                list@ == pairs[i as int].1,
                s.redelegations.contains_key(pairs[i as int].0),
                s.redelegations[pairs[i as int].0] == pairs[i as int].1,
                m <= list.entries@.len(),
                forall|q: int|
                    0 <= q < m ==> !((#[trigger] pairs[i as int].1[q]).delegator == delegator@
                        && pairs[i as int].1[q].dst == validator@),
            decreases list.entries.len() - m,
        {
            let entry = &list.entries[m];
            proof {
                assert(list@[m as int] == entry@);
            }
            if entry.delegator == *delegator && entry.dst == *validator {
                proof {
                    let src = pairs[i as int].0;
                    assert(s.redelegations[src][m as int].delegator == delegator@);
                }
                return true;
            }
            m = m + 1;
        }
        i = i + 1;
    }
    proof {
        if still_moving(s, delegator@, validator@) {
            let (src, m) = choose|src: Seq<char>, m: int|
                s.redelegations.contains_key(src) && 0 <= m < s.redelegations[src].len() && (
                #[trigger] s.redelegations[src][m]).delegator == delegator@
                    && s.redelegations[src][m].dst == validator@;
            let j = choose|j: int| 0 <= j < n && (#[trigger] pairs[j]).0 == src;
            assert(pairs[j].1[m] == s.redelegations[src][m]);
        }
    }
    false
}

/// The shares of a redelegation of no more than the sender has can be counted.
pub open spec fn redelegate_fits(s: StateModel, tx: Transaction) -> bool {
    tx.to is Some && vstd::utf8::valid_utf8(tx.data@) && redeemable(s, payload_text(tx), tx.from@)
        is Some && tx.amount <= redeemable(s, payload_text(tx), tx.from@)->0 ==> mint_fits(
        s,
        tx.to->0@,
        tx.amount,
    )
}

/// Whether the shares of a redelegation of no more than the sender has can be counted.
pub fn redelegate_has_room(state: &ChainState, tx: &Transaction) -> (r: bool)
    requires
        state@.wf(),
    ensures
        r == redelegate_fits(state@, *tx),
{
    let target = match &tx.to {
        None => {
            return true;
        },
        Some(t) => t,
    };
    if state.deposit_has_room(target, tx.amount) {
        return true;
    }
    let src = match utf8_text(tx.data.as_slice()) {
        None => {
            return true;
        },
        Some(t) => t,
    };
    let pool = match state.validator_pools.get(&src) {
        None => {
            return true;
        },
        Some(p) => *p,
    };
    match state.position(&src, &tx.from.to_string()) {
        None => true,
        Some(held) => {
            proof {
                position_within_pool(state@, src@, tx.from@);
            }
            pool.total_shares == 0 || tx.amount > position_value(held, &pool)
        },
    }
}

pub fn execute_redelegate(state: &mut ChainState, tx: &Transaction, height: u64) -> (r: Result<
    (),
    String,
>)
    requires
        can_charge(old(state)@, *tx),
        redelegate_fits(old(state)@, *tx),
        height + UNBONDING_PERIOD <= u64::MAX,
    ensures
        settles(
            old(state)@,
            final(state)@,
            redelegate_fault(old(state)@, *tx),
            redelegated(
                charged(old(state)@, *tx),
                tx.from@,
                payload_text(*tx),
                tx.to->0@,
                tx.amount,
                height,
            ),
            r,
        ),
        r is Ok ==> final(state)@.wf() && final(state)@.wealth() + tx.fee == old(state)@.wealth(),
{
    if tx.amount == 0 {
        return Err("redelegation amount must be greater than zero".to_owned());
    }
    let dst = match &tx.to {
        None => {
            return Err("redelegate requires a destination validator address".to_owned());
        },
        Some(d) => d,
    };
    let src_text = match utf8_text(tx.data.as_slice()) {
        None => {
            return Err("redelegate source address is not valid UTF-8".to_owned());
        },
        Some(t) => t,
    };
    match Address::from_str(src_text.as_str()) {
        Err(_) => {
            return Err("redelegate source is not a valid address".to_owned());
        },
        Ok(_) => {},
    }
    let dst_key = dst.to_string();
    let sender_key = tx.from.to_string();
    if src_text == dst_key {
        return Err("cannot redelegate to the same validator".to_owned());
    }
    // Moving on while an earlier move is open would have to keep every earlier
    // validator's claim alive on the same stake.
    if is_still_moving(state, &sender_key, &src_text) {
        return Err(
            "this delegation is itself still inside a redelegation window; wait for it to end before moving the stake on".to_owned(),
        );
    }
    let dst_staked: u64 = state.get_or_default(dst).staked;
    if dst_staked == 0 {
        return Err(
            "destination address has never self-staked — not a recognized validator identity".to_owned(),
        );
    }
    let dst_pool = state.pool_or_empty(&dst_key);
    if !self_bond_ratio_ok(dst_staked, dst_pool.total_delegated_stake.saturating_add(tx.amount)) {
        return Err(
            "redelegation rejected: the destination validator's self-bond ratio is already at its maximum leverage for its current self-stake".to_owned(),
        );
    }
    let src_pool = match state.validator_pools.get(&src_text) {
        None => {
            return Err("no delegation pool for the source validator".to_owned());
        },
        Some(p) => *p,
    };
    if src_pool.total_shares == 0 || src_pool.total_delegated_stake == 0 {
        return Err("source delegation pool is empty".to_owned());
    }
    let held: u64 = match state.position(&src_text, &sender_key) {
        None => {
            return Err("no delegation from this address to the source validator".to_owned());
        },
        Some(n) => n,
    };
    proof {
        position_within_pool(state@, src_text@, tx.from@);
    }
    let value: u64 = position_value(held, &src_pool);
    if tx.amount > value {
        return Err(too_little_delegated_text(value, tx.amount));
    }
    if shares_for(&dst_pool, tx.amount) == 0 {
        return Err(
            "redelegation amount is too small to mint any shares at the destination's current share price".to_owned(),
        );
    }
    charge_sender(state, tx);
    state.withdraw(&src_text, &sender_key, tx.amount);
    state.deposit(&dst_key, &sender_key, tx.amount);
    let ghost t = state@;
    let mut list = match state.redelegations.remove(&src_text) {
        Some(l) => l,
        None => RedelegationList { entries: Vec::new() },
    };
    let ghost earlier = list@;
    proof {
        assert(earlier =~= moves_from(t, src_text@));
    }
    let entry = Redelegation {
        delegator: sender_key,
        dst: dst_key,
        amount: tx.amount,
        unlock_height: height + UNBONDING_PERIOD,
    };
    list.entries.push(entry);
    proof {
        assert(list@ =~= earlier.push(entry@));
    }
    state.redelegations.insert(src_text, list);
    proof {
        books_keep_wf(t, state@);
        let goal = redelegated(
            charged(old(state)@, *tx),
            tx.from@,
            payload_text(*tx),
            tx.to->0@,
            tx.amount,
            height,
        );
        assert(state.redelegations@ =~= goal.redelegations);
    }
    Ok(())
}

/// Why setting a commission is refused.
pub open spec fn commission_fault(tx: Transaction) -> Option<Seq<char>> {
    if tx.data@.len() != 2 {
        Some("malformed commission payload: expected 2 bytes"@)
    } else if le_value(tx.data@) > MAX_COMMISSION_BPS {
        Some(
            "commission "@ + decimal(le_value(tx.data@)) + " bps exceeds the maximum of "@
                + decimal(MAX_COMMISSION_BPS as nat) + " bps"@,
        )
    } else {
        None
    }
}

/// A validator's commission has been set; its pool comes into being if need be.
pub open spec fn commission_set(s: StateModel, validator: Seq<char>, bps: u16) -> StateModel {
    s.with_pool(validator, DelegationPool { commission_bps: bps, ..s.pool(validator) })
}

pub fn execute_set_commission(state: &mut ChainState, tx: &Transaction) -> (r: Result<(), String>)
    requires
        can_charge(old(state)@, *tx),
    ensures
        settles(
            old(state)@,
            final(state)@,
            commission_fault(*tx),
            commission_set(charged(old(state)@, *tx), tx.from@, le_value(tx.data@) as u16),
            r,
        ),
        r is Ok ==> final(state)@.wf() && final(state)@.wealth() + tx.fee == old(state)@.wealth(),
{
    if tx.data.len() != 2 {
        return Err("malformed commission payload: expected 2 bytes".to_owned());
    }
    let bps: u64 = read_le(tx.data.as_slice());
    if bps > MAX_COMMISSION_BPS as u64 {
        let got = decimal_text(bps);
        let most = decimal_text(MAX_COMMISSION_BPS as u64);
        return Err(
            joined5(
                "commission ",
                got.as_str(),
                " bps exceeds the maximum of ",
                most.as_str(),
                " bps",
            ),
        );
    }
    charge_sender(state, tx);
    let key = tx.from.to_string();
    let pool = state.pool_or_empty(&key);
    let changed = DelegationPool {
        total_shares: pool.total_shares,
        total_delegated_stake: pool.total_delegated_stake,
        commission_bps: bps as u16,
    };
    proof {
        if state@.delegator_shares.contains_key(tx.from@) {
            assert(state@.shares_backed(tx.from@));
        }
        pool_keeps_wf(state@, tx.from@, changed);
    }
    state.validator_pools.insert(key, changed);
    Ok(())
}

/// A move still answers for the validator that was left.
pub open spec fn still_open(e: RedelegationModel, height: u64) -> bool {
    height < e.unlock_height && e.amount > 0
}

/// The moves of a list that still answer.
pub open spec fn open_moves(list: Seq<RedelegationModel>, height: u64) -> Seq<RedelegationModel> {
    list.filter(|e: RedelegationModel| still_open(e, height))
}

/// Moves whose time is up, or that have nothing left to answer with, are forgotten.
pub open spec fn pruned(s: StateModel, height: u64) -> StateModel {
    StateModel {
        redelegations: Map::new(
            |v: Seq<char>|
                s.redelegations.contains_key(v) && open_moves(s.redelegations[v], height).len() > 0,
            |v: Seq<char>| open_moves(s.redelegations[v], height),
        ),
        ..s
    }
}

fn kept_moves(list: &RedelegationList, height: u64) -> (r: RedelegationList)
    ensures
        r@ == open_moves(list@, height),
{
    let ghost keep = |e: RedelegationModel| still_open(e, height);
    let mut entries: Vec<Redelegation> = Vec::new();
    let mut i: usize = 0;
    proof {
        assert(list@.take(0) =~= Seq::empty());
        reveal(Seq::filter);
        assert(redelegation_models(entries@) =~= Seq::empty());
    }
    while i < list.entries.len()
        invariant
            i <= list.entries@.len(),
            keep == (|e: RedelegationModel| still_open(e, height)),
            redelegation_models(entries@) == list@.take(i as int).filter(keep),
        decreases list.entries.len() - i,
    {
        let entry = &list.entries[i];
        let ghost was = entries@;
        proof {
            assert(list@.take(i + 1) =~= list@.take(i as int).push(entry@));
            list@.take(i as int).lemma_filter_push(entry@, keep);
        }
        if height < entry.unlock_height && entry.amount > 0 {
            entries.push(entry.clone());
            proof {
                assert(redelegation_models(entries@) =~= redelegation_models(was).push(entry@));
            }
        }
        i = i + 1;
    }
    proof {
        assert(list@.take(i as int) =~= list@);
    }
    RedelegationList { entries }
}

impl ChainState {
    /// Forgets the moves whose time is up.
    pub fn prune_expired_redelegations(&mut self, height: u64)
        ensures
            final(self)@ == pruned(old(self)@, height),
            old(self)@.wf() ==> final(self)@.wf() && final(self)@.wealth() == old(self)@.wealth(),
    {
        let ghost s = self@;
        let n: usize = self.redelegations.len();
        let ghost pairs = self.redelegations.pairs();
        proof {
            map_of_entries(pairs);
        }
        let mut kept: Table<String, RedelegationList> = Table::new();
        let mut i: usize = 0;
        while i < n
            invariant
                i <= n == pairs.len(),
                self@ == s,
                pairs == self.redelegations.pairs(),
                forall|j: int|
                    0 <= j < n ==> s.redelegations.contains_key((#[trigger] pairs[j]).0)
                        && s.redelegations[pairs[j].0] == pairs[j].1,
                forall|k: Seq<char>| #[trigger]
                    kept@.contains_key(k) ==> s.redelegations.contains_key(k) && open_moves(
                        s.redelegations[k],
                        height,
                    ).len() > 0 && kept@[k] == open_moves(s.redelegations[k], height),
                forall|j: int|
                    0 <= j < i && open_moves((#[trigger] pairs[j]).1, height).len() > 0
                        ==> kept@.contains_key(pairs[j].0),
            decreases n - i,
        {
            let open = kept_moves(self.redelegations.value_at(i), height);
            proof {
                assert(open.entries@.len() == open@.len());
            }
            if open.entries.len() > 0 {
                kept.insert(self.redelegations.key_at(i).clone(), open);
            }
            i = i + 1;
        }
        proof {
            let goal = pruned(s, height).redelegations;
            assert forall|k: Seq<char>| #[trigger] goal.contains_key(k) implies kept@.contains_key(
                k,
            ) by {
                let j = choose|j: int| 0 <= j < pairs.len() && (#[trigger] pairs[j]).0 == k;
                assert(open_moves(pairs[j].1, height).len() > 0);
            }
            assert(kept@ =~= goal);
            if s.wf() {
                books_keep_wf(s, pruned(s, height));
            }
        }
        self.redelegations = kept;
    }
}

} // verus!
