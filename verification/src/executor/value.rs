//! How single changes move the totals of a state.
use crate::executor::account::{AccountModel, DelegationPool};
use crate::executor::state::{
    account_value, by_account_value, by_pool_value, by_shares, StateModel, VALUE_LIMIT,
};
use crate::sums::{total, total_after_insert, total_bounds_entry};
use vstd::prelude::*;

verus! {

/// Writing an account changes the wealth by what the account gains.
pub proof fn wealth_with_account(s: StateModel, address: Seq<char>, a: AccountModel)
    requires
        s.accounts.dom().finite(),
    ensures
        s.with_account(address, a).wealth() + account_value(s.account(address)) == s.wealth()
            + account_value(a),
        s.with_account(address, a).accounts.dom().finite(),
        account_value(s.account(address)) <= s.wealth(),
{
    total_after_insert(s.accounts, by_account_value(), address, a);
    if s.accounts.contains_key(address) {
        total_bounds_entry(s.accounts, by_account_value(), address);
    }
}

/// No account owns more than there is.
pub proof fn account_within_wealth(s: StateModel, address: Seq<char>)
    requires
        s.accounts.dom().finite(),
    ensures
        account_value(s.account(address)) <= s.wealth(),
{
    if s.accounts.contains_key(address) {
        total_bounds_entry(s.accounts, by_account_value(), address);
    }
}

/// An account and a pool together do not hold more than there is.
pub proof fn account_and_pool_within_wealth(s: StateModel, a: Seq<char>, v: Seq<char>)
    requires
        s.accounts.dom().finite(),
        s.validator_pools.dom().finite(),
    ensures
        account_value(s.account(a)) + s.delegated_to(v) <= s.wealth(),
{
    account_within_wealth(s, a);
    if s.accounts.contains_key(a) {
        total_bounds_entry(s.accounts, by_account_value(), a);
    }
    if s.validator_pools.contains_key(v) {
        total_bounds_entry(s.validator_pools, by_pool_value(), v);
    }
}

/// Writing a pool changes the wealth by what the pool gains.
pub proof fn wealth_with_pool(s: StateModel, v: Seq<char>, p: DelegationPool)
    requires
        s.validator_pools.dom().finite(),
    ensures
        s.with_pool(v, p).wealth() + s.pool(v).total_delegated_stake == s.wealth()
            + p.total_delegated_stake,
        s.with_pool(v, p).validator_pools.dom().finite(),
        s.delegated_to(v) <= s.wealth(),
{
    total_after_insert(s.validator_pools, by_pool_value(), v, p);
    if s.validator_pools.contains_key(v) {
        total_bounds_entry(s.validator_pools, by_pool_value(), v);
    }
}

/// Writing a position changes a pool's issued shares by what the position gains.
pub proof fn shares_with_position(m: Map<Seq<char>, u64>, delegator: Seq<char>, n: u64)
    requires
        m.dom().finite(),
    ensures
        m.insert(delegator, n).dom().finite(),
        total(m.insert(delegator, n), by_shares()) == total(m.remove(delegator), by_shares()) + n,
        m.contains_key(delegator) ==> total(m, by_shares()) == total(
            m.remove(delegator),
            by_shares(),
        ) + m[delegator],
        !m.contains_key(delegator) ==> total(m, by_shares()) == total(
            m.remove(delegator),
            by_shares(),
        ),
        m.remove(delegator).dom().finite(),
{
    total_after_insert(m, by_shares(), delegator, n);
    if !m.contains_key(delegator) {
        assert(m.remove(delegator) =~= m);
    }
}

/// A position is no larger than all positions together.
pub proof fn position_within_pool(s: StateModel, v: Seq<char>, delegator: Seq<char>)
    requires
        s.wf(),
        s.shares_of(v, delegator) is Some,
    ensures
        s.validator_pools.contains_key(v),
        s.shares_of(v, delegator)->0 <= s.validator_pools[v].total_shares,
{
    assert(s.delegator_shares.contains_key(v));
    assert(s.shares_backed(v));
    total_bounds_entry(s.delegator_shares[v], by_shares(), delegator);
}

/// Writing an account under its own address keeps a state well-formed as long as
/// there is room for the value.
pub proof fn account_keeps_wf(s: StateModel, address: Seq<char>, a: AccountModel)
    requires
        s.wf(),
        a.address == address,
        s.wealth() + account_value(a) <= VALUE_LIMIT + account_value(s.account(address)),
    ensures
        s.with_account(address, a).wf(),
        s.with_account(address, a).wealth() + account_value(s.account(address)) == s.wealth()
            + account_value(a),
{
    let t = s.with_account(address, a);
    wealth_with_account(s, address, a);
    assert forall|k: Seq<char>| #[trigger] t.accounts.contains_key(k) implies t.accounts[k].address
        == k by {
        if k != address {
            assert(s.accounts.contains_key(k));
        }
    }
    assert forall|v: Seq<char>| #[trigger]
        t.delegator_shares.contains_key(v) implies t.shares_backed(v) by {
        assert(s.delegator_shares.contains_key(v));
        assert(s.shares_backed(v));
    }
    assert forall|w: Seq<char>| #[trigger]
        t.validator_pools.contains_key(w) implies t.validator_pools[w].commission_bps <= 10_000 by {
        if s.validator_pools.contains_key(w) {
        }
    }
    assert forall|k: Seq<char>| #[trigger] t.guardians.contains_key(k) implies t.guardians[k].len()
        <= crate::identity::recovery::MAX_GUARDIANS by {
        assert(s.guardians.contains_key(k));
    }
    assert forall|id: u64| #[trigger]
        t.proposals.contains_key(id) implies crate::executor::state::proposal_fits(
        t.proposals[id],
    ) by {
        assert(s.proposals.contains_key(id));
    }
}

/// Writing a pool keeps a state well-formed as long as its shares cover the
/// positions and there is room for the value.
pub proof fn pool_keeps_wf(s: StateModel, v: Seq<char>, p: DelegationPool)
    requires
        s.wf(),
        s.delegator_shares.contains_key(v) ==> s.shares_held(v) <= p.total_shares,
        p.commission_bps <= 10_000,
        s.wealth() + p.total_delegated_stake <= VALUE_LIMIT + s.delegated_to(v),
    ensures
        s.with_pool(v, p).wf(),
        s.with_pool(v, p).wealth() + s.delegated_to(v) == s.wealth() + p.total_delegated_stake,
{
    let t = s.with_pool(v, p);
    wealth_with_pool(s, v, p);
    assert forall|k: Seq<char>| #[trigger] t.accounts.contains_key(k) implies t.accounts[k].address
        == k by {
        assert(s.accounts.contains_key(k));
    }
    assert forall|w: Seq<char>| #[trigger]
        t.delegator_shares.contains_key(w) implies t.shares_backed(w) by {
        assert(s.delegator_shares.contains_key(w));
        assert(s.shares_backed(w));
    }
    assert forall|w: Seq<char>| #[trigger]
        t.validator_pools.contains_key(w) implies t.validator_pools[w].commission_bps <= 10_000 by {
        if s.validator_pools.contains_key(w) {
        }
    }
    assert forall|k: Seq<char>| #[trigger] t.guardians.contains_key(k) implies t.guardians[k].len()
        <= crate::identity::recovery::MAX_GUARDIANS by {
        assert(s.guardians.contains_key(k));
    }
    assert forall|id: u64| #[trigger]
        t.proposals.contains_key(id) implies crate::executor::state::proposal_fits(
        t.proposals[id],
    ) by {
        assert(s.proposals.contains_key(id));
    }
}

/// Writing a validator's pool together with its positions keeps a state
/// well-formed as long as the shares cover the positions.
pub proof fn pool_and_positions_keep_wf(
    s: StateModel,
    v: Seq<char>,
    p: DelegationPool,
    positions: Map<Seq<char>, u64>,
)
    requires
        s.wf(),
        positions.dom().finite(),
        total(positions, by_shares()) <= p.total_shares,
        p.commission_bps <= 10_000,
        s.wealth() + p.total_delegated_stake <= VALUE_LIMIT + s.delegated_to(v),
    ensures
        s.with_pool(v, p).with_positions(v, positions).wf(),
        s.with_pool(v, p).with_positions(v, positions).wealth() + s.delegated_to(v) == s.wealth()
            + p.total_delegated_stake,
{
    let t = s.with_pool(v, p).with_positions(v, positions);
    wealth_with_pool(s, v, p);
    assert(t.wealth() == s.with_pool(v, p).wealth());
    assert forall|k: Seq<char>| #[trigger] t.accounts.contains_key(k) implies t.accounts[k].address
        == k by {
        assert(s.accounts.contains_key(k));
    }
    assert forall|w: Seq<char>| #[trigger]
        t.delegator_shares.contains_key(w) implies t.shares_backed(w) by {
        if w != v {
            assert(s.delegator_shares.contains_key(w));
            assert(s.shares_backed(w));
        }
    }
    assert forall|w: Seq<char>| #[trigger]
        t.validator_pools.contains_key(w) implies t.validator_pools[w].commission_bps <= 10_000 by {
        if s.validator_pools.contains_key(w) {
        }
    }
    assert forall|k: Seq<char>| #[trigger] t.guardians.contains_key(k) implies t.guardians[k].len()
        <= crate::identity::recovery::MAX_GUARDIANS by {
        assert(s.guardians.contains_key(k));
    }
    assert forall|id: u64| #[trigger]
        t.proposals.contains_key(id) implies crate::executor::state::proposal_fits(
        t.proposals[id],
    ) by {
        assert(s.proposals.contains_key(id));
    }
}

/// A change that leaves accounts, pools and positions alone keeps a state
/// well-formed, as long as guardian sets and proposals stay within bounds.
pub proof fn books_keep_wf(s: StateModel, t: StateModel)
    requires
        s.wf(),
        t.accounts == s.accounts,
        t.validator_pools == s.validator_pools,
        t.delegator_shares == s.delegator_shares,
        t.guardians == s.guardians || forall|k: Seq<char>| #[trigger]
            t.guardians.contains_key(k) ==> t.guardians[k].len()
                <= crate::identity::recovery::MAX_GUARDIANS,
        t.proposals == s.proposals || forall|id: u64| #[trigger]
            t.proposals.contains_key(id) ==> crate::executor::state::proposal_fits(
                t.proposals[id],
            ),
    ensures
        t.wf(),
        t.wealth() == s.wealth(),
{
    assert forall|v: Seq<char>| #[trigger]
        t.delegator_shares.contains_key(v) implies t.shares_backed(v) by {
        assert(s.delegator_shares.contains_key(v));
        assert(s.shares_backed(v));
    }
    assert forall|k: Seq<char>| #[trigger] t.accounts.contains_key(k) implies t.accounts[k].address
        == k by {
        assert(s.accounts.contains_key(k));
    }
}

} // verus!
