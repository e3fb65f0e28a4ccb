//! Fees and rewards.
use crate::crypto::Address;
use crate::executor::account::{AccountModel, DelegationPool};
use crate::executor::state::{ChainState, StateModel, VALUE_LIMIT};
use crate::executor::value::{
    account_and_pool_within_wealth, account_keeps_wf, account_within_wealth, pool_keeps_wf,
};
use vstd::prelude::*;

verus! {

/// A number, or the largest that 64 bits hold.
pub open spec fn saturated(n: int) -> u64 {
    if n > u64::MAX {
        u64::MAX
    } else {
        n as u64
    }
}

/// An account with more in its balance.
pub open spec fn credited(s: StateModel, address: Seq<char>, amount: int) -> StateModel {
    s.with_account(
        address,
        AccountModel {
            balance: saturated(s.account(address).balance + amount),
            ..s.account(address)
        },
    )
}

/// The part of a reward that a validator's own stake earns.
pub open spec fn self_share(s: StateModel, validator: Seq<char>, amount: u64) -> int {
    let own = s.account(validator).staked as int;
    amount as int * own / (own + s.delegated_to(validator))
}

/// What the validator keeps of its delegators' part.
pub open spec fn commission(s: StateModel, validator: Seq<char>, amount: u64) -> int {
    (amount - self_share(s, validator, amount)) * s.pool(validator).commission_bps as int / 10_000
}

/// What a reward adds to the validator's pool.
pub open spec fn pool_gain(s: StateModel, validator: Seq<char>, amount: u64) -> int {
    amount - self_share(s, validator, amount) - commission(s, validator, amount)
}

/// The validator's stake, or its delegators', earns rewards.
pub open spec fn earns_with_pool(s: StateModel, validator: Seq<char>) -> bool {
    &&& s.validator_pools.contains_key(validator)
    &&& s.account(validator).staked + s.delegated_to(validator) > 0
}

/// A reward paid out: shared with the delegators by stake, less commission, or
/// all the recipient's if there is no pool to share it with.
pub open spec fn rewarded(s: StateModel, validator: Seq<char>, amount: u64) -> StateModel {
    if amount == 0 {
        s
    } else if !earns_with_pool(s, validator) {
        credited(s, validator, amount as int)
    } else {
        let paid = credited(s, validator, amount - pool_gain(s, validator, amount));
        if pool_gain(s, validator, amount) > 0 {
            paid.with_pool(
                validator,
                DelegationPool {
                    total_delegated_stake: (s.delegated_to(validator) + pool_gain(
                        s,
                        validator,
                        amount,
                    )) as u64,
                    ..s.pool(validator)
                },
            )
        } else {
            paid
        }
    }
}

pub(crate) proof fn shares_are_parts(amount: int, own: int, all: int, bps: int)
    requires
        0 <= amount,
        0 <= own <= all,
        0 < all,
        0 <= bps <= 10_000,
    ensures
        0 <= amount * own / all <= amount,
        0 <= (amount - amount * own / all) * bps / 10_000 <= amount - amount * own / all,
{
    let part = amount * own / all;
    assert(0 <= amount * own <= amount * all) by (nonlinear_arith)
        requires
            0 <= amount,
            0 <= own <= all,
    ;
    vstd::arithmetic::div_mod::lemma_div_is_ordered(amount * own, amount * all, all);
    vstd::arithmetic::div_mod::lemma_div_multiples_vanish(amount, all);
    assert(amount * all == all * amount) by (nonlinear_arith);
    vstd::arithmetic::div_mod::lemma_div_pos_is_pos(amount * own, all);
    let rest = amount - part;
    assert(0 <= rest * bps <= rest * 10_000) by (nonlinear_arith)
        requires
            0 <= rest,
            0 <= bps <= 10_000,
    ;
}

impl ChainState {
    fn credit(&mut self, address: &Address, amount: u64)
        requires
            old(self)@.wf(),
            old(self)@.wealth() + amount <= VALUE_LIMIT,
        ensures
            final(self)@ == credited(old(self)@, address@, amount as int),
            final(self)@.wf(),
            final(self)@.wealth() == old(self)@.wealth() + amount,
    {
        let mut account = self.get_or_default(address);
        proof {
            account_within_wealth(self@, address@);
        }
        account.balance = account.balance.saturating_add(amount);
        proof {
            account_keeps_wf(self@, address@, account@);
        }
        self.put_account(address, account);
    }
}

/// Pays a reward to a validator, sharing it with the validator's pool if it has one.
pub fn credit_validator_reward(state: &mut ChainState, recipient: &Address, amount: u64)
    requires
        old(state)@.wf(),
        old(state)@.wealth() + amount <= VALUE_LIMIT,
    ensures
        final(state)@ == rewarded(old(state)@, recipient@, amount),
        final(state)@.wf(),
        final(state)@.wealth() == old(state)@.wealth() + amount,
{
    if amount == 0 {
        return;
    }
    let key = recipient.to_string();
    let ghost before = state@;
    proof {
        account_and_pool_within_wealth(state@, recipient@, recipient@);
    }
    let pool = match state.validator_pools.get(&key) {
        None => {
            state.credit(recipient, amount);
            return;
        },
        Some(p) => *p,
    };
    let self_stake: u128 = state.get_or_default(recipient).staked as u128;
    let total_stake: u128 = self_stake + pool.total_delegated_stake as u128;
    if total_stake == 0 {
        state.credit(recipient, amount);
        return;
    }
    proof {
        shares_are_parts(
            amount as int,
            self_stake as int,
            total_stake as int,
            pool.commission_bps as int,
        );
        assert(amount as int * self_stake as int <= 0xffff_ffff_ffff_ffff * 0xffff_ffff_ffff_ffff)
            by (nonlinear_arith)
            requires
                0 <= amount <= 0xffff_ffff_ffff_ffff,
                0 <= self_stake <= 0xffff_ffff_ffff_ffff,
        ;
    }
    let own: u64 = (amount as u128 * self_stake / total_stake) as u64;
    let delegated_share: u64 = amount - own;
    proof {
        assert(delegated_share as int * pool.commission_bps as int <= 0xffff_ffff_ffff_ffff * 0xffff)
            by (nonlinear_arith)
            requires
                0 <= delegated_share <= 0xffff_ffff_ffff_ffff,
                0 <= pool.commission_bps <= 0xffff,
        ;
    }
    let kept: u64 = (delegated_share as u128 * pool.commission_bps as u128 / 10_000) as u64;
    let gain: u64 = delegated_share - kept;
    let validator_total: u64 = own + kept;
    proof {
        assert(own == self_share(before, recipient@, amount));
        assert(kept == commission(before, recipient@, amount));
        assert(gain == pool_gain(before, recipient@, amount));
    }
    state.credit(recipient, validator_total);
    if gain > 0 {
        let grown = DelegationPool {
            total_shares: pool.total_shares,
            total_delegated_stake: pool.total_delegated_stake + gain,
            commission_bps: pool.commission_bps,
        };
        proof {
            if state@.delegator_shares.contains_key(recipient@) {
                assert(state@.shares_backed(recipient@));
            }
            pool_keeps_wf(state@, recipient@, grown);
        }
        state.validator_pools.insert(key, grown);
    }
}

/// How much of a fee is burned: the base fee, as far as the fee covers it.
pub open spec fn burned_part(fee: u64, base_fee: u64) -> u64 {
    if base_fee <= fee {
        base_fee
    } else {
        fee
    }
}

/// Splits a fee: the base fee is burned, the rest is the validator's.
pub fn distribute_fee(state: &mut ChainState, validator: &Address, fee: u64, base_fee_amount: u64) -> (r:
    (u64, u64))
    requires
        old(state)@.wf(),
        old(state)@.wealth() + fee <= VALUE_LIMIT,
    ensures
        r.0 == burned_part(fee, base_fee_amount),
        r.0 + r.1 == fee,
        final(state)@ == rewarded(old(state)@, validator@, r.1),
        final(state)@.wf(),
        final(state)@.wealth() + r.0 == old(state)@.wealth() + fee,
{
    let burned: u64 = if base_fee_amount <= fee {
        base_fee_amount
    } else {
        fee
    };
    let reward: u64 = fee - burned;
    credit_validator_reward(state, validator, reward);
    (burned, reward)
}

/// A reward changes accounts and pools, and nothing else.
pub proof fn reward_leaves_books(s: StateModel, validator: Seq<char>, amount: u64)
    ensures
        ({
            let t = rewarded(s, validator, amount);
            t == (StateModel {
                accounts: t.accounts,
                validator_pools: t.validator_pools,
                ..s
            })
        }),
{
}

} // verus!
