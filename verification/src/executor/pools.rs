//! What delegating, moving and taking back stake do to pools and positions, and
//! what they leave alone.
use crate::crypto::address::address_fault;
use crate::executor::account::{DelegationPool, RedelegationModel};
use crate::executor::delegation::{minted, pruned, redeemed};
use crate::executor::effects::{is_due, only_the_fee, only_these_accounts};
use crate::executor::engine::{operation_done, operation_fault};
use crate::executor::state::StateModel;
use crate::executor::validators::value_fits;
use crate::executor::value::{account_and_pool_within_wealth, position_within_pool};
use crate::transaction::{Findings, Transaction};
use vstd::prelude::*;

verus! {

/// The shares that somebody holds in a pool.
pub open spec fn held(s: StateModel, v: Seq<char>, d: Seq<char>) -> Option<u64> {
    if s.delegator_shares.contains_key(v) && s.delegator_shares[v].contains_key(d) {
        Some(s.delegator_shares[v][d])
    } else {
        None
    }
}

/// The number of shares held, none if there is no position.
pub open spec fn count(h: Option<u64>) -> int {
    match h {
        Some(n) => n as int,
        None => 0,
    }
}

/// What an amount buys at a pool's price, rounded down; one for one while it is empty.
pub open spec fn buys(p: DelegationPool, amount: u64, shares: int) -> bool {
    if p.total_shares == 0 || p.total_delegated_stake == 0 {
        shares == amount
    } else {
        &&& shares * p.total_delegated_stake <= amount * p.total_shares
        &&& amount * p.total_shares < (shares + 1) * p.total_delegated_stake
    }
}

/// What an amount costs at a pool's price, rounded up.
pub open spec fn costs(p: DelegationPool, amount: u64, shares: int) -> bool {
    &&& (shares - 1) * p.total_delegated_stake < amount * p.total_shares
    &&& amount * p.total_shares <= shares * p.total_delegated_stake
}

/// A pool has taken an amount and issued shares for it.
pub open spec fn pool_took(p: DelegationPool, q: DelegationPool, amount: u64, shares: int) -> bool {
    &&& q.total_shares == p.total_shares + shares
    &&& q.total_delegated_stake == p.total_delegated_stake + amount
    &&& q.commission_bps == p.commission_bps
}

/// A pool has given an amount back and struck out shares for it.
pub open spec fn pool_gave(p: DelegationPool, q: DelegationPool, amount: u64, shares: int) -> bool {
    &&& q.total_shares == p.total_shares - shares
    &&& q.total_delegated_stake == p.total_delegated_stake - amount
    &&& q.commission_bps == p.commission_bps
}

/// No pool but these two has changed.
pub open spec fn only_these_pools(
    s: StateModel,
    t: StateModel,
    v: Seq<char>,
    w: Seq<char>,
) -> bool {
    forall|x: Seq<char>|
        x != v && x != w ==> #[trigger] t.validator_pools.contains_key(x)
            == s.validator_pools.contains_key(x) && t.pool(x) == s.pool(x)
}

/// No position but this delegator's in these two pools has changed.
pub open spec fn only_these_positions(
    s: StateModel,
    t: StateModel,
    v: Seq<char>,
    w: Seq<char>,
    d: Seq<char>,
) -> bool {
    forall|x: Seq<char>, y: Seq<char>|
        !((x == v || x == w) && y == d) ==> #[trigger] held(t, x, y) == held(s, x, y)
}

/// The pool can count the shares that an amount buys.
pub open spec fn countable(p: DelegationPool, amount: u64) -> bool {
    p.total_delegated_stake == 0 || p.total_shares + amount * p.total_shares
        / p.total_delegated_stake as int <= u64::MAX
}

proof fn minted_is_bought(p: DelegationPool, amount: u64)
    requires
        countable(p, amount),
        p.total_shares == 0 || p.total_delegated_stake == 0 ==> p.total_shares + amount <= u64::MAX,
    ensures
        buys(p, amount, minted(p, amount)),
        0 <= minted(p, amount),
        p.total_shares + minted(p, amount) <= u64::MAX,
{
    if p.total_shares != 0 && p.total_delegated_stake != 0 {
        let x = amount as int * p.total_shares as int;
        let d = p.total_delegated_stake as int;
        let q = x / d;
        assert(x >= 0) by (nonlinear_arith)
            requires
                x == amount as int * p.total_shares as int,
                amount >= 0,
                p.total_shares >= 0,
        ;
        vstd::arithmetic::div_mod::lemma_fundamental_div_mod(x, d);
        vstd::arithmetic::div_mod::lemma_div_pos_is_pos(x, d);
        vstd::arithmetic::div_mod::lemma_small_mod(q as nat, 0x1_0000_0000_0000_0000);
        assert(q * d <= x < (q + 1) * d) by (nonlinear_arith)
            requires
                x == d * q + x % d,
                0 <= x % d < d,
        ;
    }
}

proof fn redeemed_is_cost(p: DelegationPool, amount: u64)
    requires
        p.total_delegated_stake > 0,
        amount > 0,
        p.total_shares > 0,
    ensures
        costs(p, amount, redeemed(p, amount)),
        redeemed(p, amount) > 0,
{
    let x = amount as int * p.total_shares as int;
    let d = p.total_delegated_stake as int;
    assert(x > 0) by (nonlinear_arith)
        requires
            x == amount as int * p.total_shares as int,
            amount > 0,
            p.total_shares > 0,
    ;
    let q = x / d;
    vstd::arithmetic::div_mod::lemma_fundamental_div_mod(x, d);
    vstd::arithmetic::div_mod::lemma_div_pos_is_pos(x, d);
    assert(q * d <= x < (q + 1) * d && (q - 1) * d < q * d) by (nonlinear_arith)
        requires
            x == d * q + x % d,
            0 <= x % d < d,
            d > 0,
    ;
    if x % d == 0 {
        assert(q * d == x) by (nonlinear_arith)
            requires
                x == d * q + x % d,
                x % d == 0,
        ;
        if q == 0 {
            assert(q * d == 0) by (nonlinear_arith)
                requires
                    q == 0,
            ;
        }
    } else {
        assert((q + 1 - 1) * d == q * d);
        assert(q * d < x) by (nonlinear_arith)
            requires
                x == d * q + x % d,
                x % d > 0,
        ;
    }
}

/// What is redeemed for no more than a position's value is no more than the position.
proof fn cost_is_covered(p: DelegationPool, amount: u64, n: u64)
    requires
        p.total_delegated_stake > 0,
        p.total_shares > 0,
        amount <= n as int * p.total_delegated_stake as int / p.total_shares as int,
    ensures
        redeemed(p, amount) <= n,
{
    let sh = p.total_shares as int;
    let d = p.total_delegated_stake as int;
    let y = n as int * d;
    vstd::arithmetic::div_mod::lemma_fundamental_div_mod(y, sh);
    let x = amount as int * sh;
    assert(x <= y) by (nonlinear_arith)
        requires
            x == amount as int * sh,
            amount as int <= y / sh,
            y == sh * (y / sh) + y % sh,
            0 <= y % sh,
            sh > 0,
    ;
    let q = x / d;
    vstd::arithmetic::div_mod::lemma_fundamental_div_mod(x, d);
    assert(x % d == 0 ==> q <= n) by (nonlinear_arith)
        requires
            x == d * q + x % d,
            0 <= x % d < d,
            x <= n as int * d,
            d > 0,
    ;
    assert(x % d != 0 ==> q + 1 <= n) by (nonlinear_arith)
        requires
            x == d * q + x % d,
            0 <= x % d < d,
            x <= n as int * d,
            d > 0,
    ;
}

/// A delegation is taken exactly if it is of something, covered with its fee, to an
/// account with stake of its own that keeps at least a tenth of all behind it, and
/// buys at least one share. It moves the amount from the sender's balance into that
/// pool, for shares at the pool's price; nobody else's position or balance changes.
pub proof fn delegating_buys_shares(s: StateModel, tx: Transaction, f: Findings, height: u64)
    requires
        is_due(s, tx),
        tx.tx_type is Delegate,
        tx.amount + tx.fee <= u64::MAX,
        tx.to is Some ==> countable(s.pool(tx.to->0@), tx.amount),
        tx.to is Some && (s.pool(tx.to->0@).total_shares == 0 || s.pool(
            tx.to->0@,
        ).total_delegated_stake == 0) ==> s.pool(tx.to->0@).total_shares + tx.amount <= u64::MAX,
    ensures
        ({
            let v = tx.to->0@;
            let own = s.account(v).staked as int;
            let p = s.pool(v);
            &&& operation_fault(s, tx, f, height) is None <==> {
                &&& tx.to is Some
                &&& tx.amount > 0
                &&& s.account(tx.from@).balance >= tx.amount + tx.fee
                &&& own > 0
                &&& own * 10 >= own + p.total_delegated_stake + tx.amount
                &&& !buys(p, tx.amount, 0)
            }
            &&& operation_fault(s, tx, f, height) is None ==> {
                let t = operation_done(s, tx, f, height);
                let q = t.validator_pools[v];
                let shares = q.total_shares - p.total_shares;
                &&& t.validator_pools.contains_key(v)
                &&& buys(p, tx.amount, shares)
                &&& pool_took(p, q, tx.amount, shares)
                &&& held(t, v, tx.from@) is Some
                &&& count(held(t, v, tx.from@)) == count(held(s, v, tx.from@)) + shares
                &&& t.account(tx.from@).balance == s.account(tx.from@).balance - tx.amount - tx.fee
                &&& t.account(tx.from@).nonce == s.account(tx.from@).nonce + 1
                &&& t.account(tx.from@).staked == s.account(tx.from@).staked
                &&& t.account(tx.from@).unbonding_stake == s.account(tx.from@).unbonding_stake
                &&& t.account(tx.from@).code == s.account(tx.from@).code
                &&& only_these_accounts(s, t, tx.from@, tx.from@)
                &&& only_these_pools(s, t, v, v)
                &&& only_these_positions(s, t, v, v, tx.from@)
                &&& t == (StateModel {
                    accounts: t.accounts,
                    validator_pools: t.validator_pools,
                    delegator_shares: t.delegator_shares,
                    ..s
                })
            }
        }),
{
    let v = tx.to->0@;
    let p = s.pool(v);
    if tx.to is Some {
        account_and_pool_within_wealth(s, tx.from@, v);
        account_and_pool_within_wealth(s, v, v);
        minted_is_bought(p, tx.amount);
        unique_price(p, tx.amount, minted(p, tx.amount), 0);
        if s.shares_of(v, tx.from@) is Some {
            position_within_pool(s, v, tx.from@);
        }
    }
}

/// An amount buys one number of shares.
proof fn unique_price(p: DelegationPool, amount: u64, m: int, n: int)
    requires
        buys(p, amount, m),
    ensures
        buys(p, amount, n) ==> m == n,
{
    if p.total_shares != 0 && p.total_delegated_stake != 0 && buys(p, amount, n) {
        let x = amount * p.total_shares;
        let d = p.total_delegated_stake as int;
        assert(m == n) by (nonlinear_arith)
            requires
                m * d <= x < (m + 1) * d,
                n * d <= x < (n + 1) * d,
                d > 0,
        ;
    }
}

/// Taking delegated stake back is accepted exactly if it is of something, nothing
/// else of the sender is unbonding, and its position is worth that much. The amount
/// leaves the pool for shares at the pool's price and unbonds for the full period,
/// answering for that validator; the balance pays the fee and gains nothing.
pub proof fn undelegating_gives_shares_back(
    s: StateModel,
    tx: Transaction,
    f: Findings,
    height: u64,
)
    requires
        is_due(s, tx),
        tx.tx_type is Undelegate,
        height + 302_400 <= u64::MAX,
    ensures
        ({
            let v = tx.to->0@;
            let p = s.validator_pools[v];
            &&& operation_fault(s, tx, f, height) is None <==> {
                &&& tx.to is Some
                &&& tx.amount > 0
                &&& s.account(tx.from@).unbonding_stake == 0
                &&& s.validator_pools.contains_key(v)
                &&& p.total_shares > 0 && p.total_delegated_stake > 0
                &&& held(s, v, tx.from@) is Some
                &&& tx.amount <= count(held(s, v, tx.from@)) * p.total_delegated_stake
                    / p.total_shares as int
            }
            &&& operation_fault(s, tx, f, height) is None ==> {
                let t = operation_done(s, tx, f, height);
                let q = t.validator_pools[v];
                let shares = p.total_shares - q.total_shares;
                let (was, is) = (s.account(tx.from@), t.account(tx.from@));
                &&& t.validator_pools.contains_key(v)
                &&& costs(p, tx.amount, shares)
                &&& pool_gave(p, q, tx.amount, shares)
                &&& count(held(t, v, tx.from@)) == count(held(s, v, tx.from@)) - shares
                &&& held(t, v, tx.from@) is None <==> count(held(s, v, tx.from@)) == shares
                &&& is.unbonding_stake == tx.amount
                &&& is.unbonding_unlock_height == height + 302_400
                &&& is.unbonding_source == Some(v)
                &&& is.balance == was.balance - tx.fee
                &&& is.staked == was.staked
                &&& is.nonce == was.nonce + 1
                &&& is.code == was.code
                &&& only_these_accounts(s, t, tx.from@, tx.from@)
                &&& only_these_pools(s, t, v, v)
                &&& only_these_positions(s, t, v, v, tx.from@)
                &&& t == (StateModel {
                    accounts: t.accounts,
                    validator_pools: t.validator_pools,
                    delegator_shares: t.delegator_shares,
                    ..s
                })
            }
        }),
{
    let v = tx.to->0@;
    if tx.to is Some && s.shares_of(v, tx.from@) is Some {
        position_within_pool(s, v, tx.from@);
        let p = s.validator_pools[v];
        let n = s.shares_of(v, tx.from@)->0;
        if p.total_shares > 0 && p.total_delegated_stake > 0 {
            value_fits(n as int, p.total_delegated_stake as int, p.total_shares as int);
            if tx.amount > 0 {
                redeemed_is_cost(p, tx.amount);
                if tx.amount <= n as int * p.total_delegated_stake as int / p.total_shares as int {
                    cost_is_covered(p, tx.amount, n);
                }
            }
        }
    }
}

/// Moving delegated stake is accepted exactly between different validators, of no
/// more than the sender has at the first, if that stake is not itself in a move that
/// still answers for another, and on the terms of a delegation to the second. The
/// amount leaves the first pool and enters the second, each at its own price. The
/// move is put on record behind the earlier ones, and answers for the first
/// validator for the full period. The sender's own account pays the fee alone.
#[verifier::rlimit(40)]
pub proof fn redelegating_moves_between_pools(
    s: StateModel,
    tx: Transaction,
    f: Findings,
    height: u64,
)
    requires
        is_due(s, tx),
        tx.tx_type is Redelegate,
        height + 302_400 <= u64::MAX,
        tx.to is Some ==> countable(s.pool(tx.to->0@), tx.amount),
        tx.to is Some && (s.pool(tx.to->0@).total_shares == 0 || s.pool(
            tx.to->0@,
        ).total_delegated_stake == 0) ==> s.pool(tx.to->0@).total_shares + tx.amount <= u64::MAX,
    ensures
        ({
            let src = vstd::utf8::decode_utf8(tx.data@);
            let dst = tx.to->0@;
            let from = tx.from@;
            let own = s.account(dst).staked as int;
            let a = s.validator_pools[src];
            let b = s.pool(dst);
            &&& operation_fault(s, tx, f, height) is None <==> {
                &&& tx.amount > 0
                &&& tx.to is Some
                &&& vstd::utf8::valid_utf8(tx.data@)
                &&& address_fault(src) is None
                &&& src != dst
                &&& forall|v: Seq<char>, i: int|
                    s.redelegations.contains_key(v) && 0 <= i < s.redelegations[v].len() ==> !((
                    #[trigger] s.redelegations[v][i]).delegator == from && s.redelegations[v][i].dst
                        == src)
                &&& own > 0
                &&& own * 10 >= own + b.total_delegated_stake + tx.amount
                &&& s.validator_pools.contains_key(src)
                &&& a.total_shares > 0 && a.total_delegated_stake > 0
                &&& held(s, src, from) is Some
                &&& tx.amount <= count(held(s, src, from)) * a.total_delegated_stake
                    / a.total_shares as int
                &&& !buys(b, tx.amount, 0)
            }
            &&& operation_fault(s, tx, f, height) is None ==> {
                let t = operation_done(s, tx, f, height);
                let x = t.validator_pools[src];
                let y = t.validator_pools[dst];
                let lost = a.total_shares - x.total_shares;
                let gained = y.total_shares - b.total_shares;
                let was = if s.redelegations.contains_key(src) {
                    s.redelegations[src]
                } else {
                    Seq::empty()
                };
                &&& t.validator_pools.contains_key(src) && t.validator_pools.contains_key(dst)
                &&& costs(a, tx.amount, lost)
                &&& pool_gave(a, x, tx.amount, lost)
                &&& count(held(t, src, from)) == count(held(s, src, from)) - lost
                &&& held(t, src, from) is None <==> count(held(s, src, from)) == lost
                &&& buys(b, tx.amount, gained)
                &&& pool_took(b, y, tx.amount, gained)
                &&& held(t, dst, from) is Some
                &&& count(held(t, dst, from)) == count(held(s, dst, from)) + gained
                &&& t.redelegations == s.redelegations.insert(
                    src,
                    was.push(
                        RedelegationModel {
                            delegator: from,
                            dst,
                            amount: tx.amount,
                            unlock_height: (height + 302_400) as u64,
                        },
                    ),
                )
                &&& only_the_fee(s, t, tx)
                &&& only_these_pools(s, t, src, dst)
                &&& only_these_positions(s, t, src, dst, from)
                &&& t == (StateModel {
                    accounts: t.accounts,
                    validator_pools: t.validator_pools,
                    delegator_shares: t.delegator_shares,
                    redelegations: t.redelegations,
                    ..s
                })
            }
        }),
{
    let src = vstd::utf8::decode_utf8(tx.data@);
    let dst = tx.to->0@;
    let b = s.pool(dst);
    if tx.to is Some {
        account_and_pool_within_wealth(s, dst, dst);
        minted_is_bought(b, tx.amount);
        unique_price(b, tx.amount, minted(b, tx.amount), 0);
        if s.shares_of(dst, tx.from@) is Some {
            position_within_pool(s, dst, tx.from@);
        }
        if s.shares_of(src, tx.from@) is Some {
            position_within_pool(s, src, tx.from@);
            let a = s.validator_pools[src];
            let n = s.shares_of(src, tx.from@)->0;
            if a.total_shares > 0 && a.total_delegated_stake > 0 {
                value_fits(n as int, a.total_delegated_stake as int, a.total_shares as int);
                if src != dst && s.validator_pools.contains_key(dst) {
                    crate::sums::total_bounds_two(
                        s.validator_pools,
                        crate::executor::state::by_pool_value(),
                        src,
                        dst,
                    );
                }
                if tx.amount > 0 {
                    redeemed_is_cost(a, tx.amount);
                    if tx.amount <= n as int * a.total_delegated_stake as int
                        / a.total_shares as int {
                        cost_is_covered(a, tx.amount, n);
                    }
                }
            }
        }
    }
}

/// A move is forgotten exactly once its time is up or nothing is left of it; those
/// that stay keep their order, and nothing else changes.
pub proof fn moves_are_kept_while_they_answer(s: StateModel, height: u64, v: Seq<char>)
    ensures
        ({
            let t = pruned(s, height);
            let stay = s.redelegations[v].filter(
                |e: RedelegationModel| height < e.unlock_height && e.amount > 0,
            );
            &&& t.redelegations.contains_key(v) <==> s.redelegations.contains_key(v) && stay.len()
                > 0
            &&& t.redelegations.contains_key(v) ==> t.redelegations[v] == stay
            &&& t == (StateModel { redelegations: t.redelegations, ..s })
        }),
{
    assert((|e: RedelegationModel| crate::executor::delegation::still_open(e, height)) =~= (
    |e: RedelegationModel| height < e.unlock_height && e.amount > 0));
}

} // verus!
