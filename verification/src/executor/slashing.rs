//! Taking stake from those who misbehave.
use crate::crypto::Address;
use crate::executor::account::{
    redelegation_models, AccountModel, DelegationPool, Redelegation, RedelegationList,
    RedelegationModel,
};
use crate::executor::state::{
    by_account_value, by_balance, by_bond, ChainState, StateModel, VALUE_LIMIT,
};
use crate::executor::validators::{share_value, value_fits};
use crate::executor::value::{
    account_keeps_wf, account_within_wealth, books_keep_wf,
    pool_and_positions_keep_wf, pool_keeps_wf, position_within_pool, shares_with_position,
};
use crate::sums::total;
use crate::table::{map_of_entries, Table};
use vstd::prelude::*;

verus! {

/// A part of an amount, in hundredths of a percent, rounded down.
pub open spec fn part_of(amount: u64, bps: u64) -> u64 {
    (amount as int * bps as int / 10_000) as u64
}

pub proof fn part_fits(amount: u64, bps: u64)
    requires
        bps <= 10_000,
    ensures
        part_of(amount, bps) <= amount,
        part_of(amount, bps) == amount as int * bps as int / 10_000,
        0 <= amount as int * bps as int <= u128::MAX,
{
    assert(0 <= amount as int * bps as int <= amount as int * 10_000) by (nonlinear_arith)
        requires
            0 <= amount,
            0 <= bps <= 10_000,
    ;
}

fn part(amount: u64, bps: u64) -> (r: u64)
    requires
        bps <= 10_000,
    ensures
        r == part_of(amount, bps),
        r <= amount,
{
    proof {
        part_fits(amount, bps);
    }
    (amount as u128 * bps as u128 / 10_000) as u64
}

/// What an account has left after a validator is slashed: the validator loses
/// part of its stake, and whatever unbonds on its account loses its part too.
pub open spec fn slashed_account(
    key: Seq<char>,
    a: AccountModel,
    validator: Seq<char>,
    bps: u64,
) -> AccountModel {
    AccountModel {
        staked: if key == validator {
            (a.staked - part_of(a.staked, bps)) as u64
        } else {
            a.staked
        },
        unbonding_stake: if answers_for(key, a, validator) {
            (a.unbonding_stake - part_of(a.unbonding_stake, bps)) as u64
        } else {
            a.unbonding_stake
        },
        ..a
    }
}

/// The account's unbonding stake was behind the validator: it is the validator's
/// own, or it came out of the validator's pool.
pub open spec fn answers_for(key: Seq<char>, a: AccountModel, validator: Seq<char>) -> bool {
    match a.unbonding_source {
        None => key == validator,
        Some(source) => source == validator,
    }
}

/// Every account after a validator is slashed.
pub open spec fn accounts_slashed(s: StateModel, validator: Seq<char>, bps: u64) -> StateModel {
    StateModel {
        accounts: Map::new(
            |k: Seq<char>| s.accounts.contains_key(k),
            |k: Seq<char>| slashed_account(k, s.accounts[k], validator, bps),
        ),
        ..s
    }
}

/// The validator's pool after it is slashed; the shares stay.
pub open spec fn pool_slashed(s: StateModel, validator: Seq<char>, bps: u64) -> StateModel {
    if s.validator_pools.contains_key(validator) {
        let p = s.validator_pools[validator];
        s.with_pool(
            validator,
            DelegationPool {
                total_delegated_stake: (p.total_delegated_stake - part_of(
                    p.total_delegated_stake,
                    bps,
                )) as u64,
                ..p
            },
        )
    } else {
        s
    }
}

/// `a / b`, rounded up.
pub open spec fn ceil_div(a: int, b: int) -> int {
    if a % b == 0 {
        a / b
    } else {
        a / b + 1
    }
}

/// How many shares a delegator loses for a redelegation: enough to cover the
/// slash, rounded up, and no more than are left.
pub open spec fn shares_lost(s: StateModel, e: RedelegationModel, bps: u64) -> u64 {
    let amount = part_of(e.amount, bps);
    let pool = s.pool(e.dst);
    match s.shares_of(e.dst, e.delegator) {
        None => 0,
        Some(held) => if amount == 0 || !s.validator_pools.contains_key(e.dst)
            || pool.total_delegated_stake == 0 || pool.total_shares == 0 {
            0
        } else {
            let wanted = ceil_div(
                amount as int * pool.total_shares as int,
                pool.total_delegated_stake as int,
            );
            if wanted <= held {
                wanted as u64
            } else {
                held
            }
        },
    }
}

/// A position with some shares fewer; an empty one is struck out.
pub open spec fn position_after(
    positions: Map<Seq<char>, u64>,
    delegator: Seq<char>,
    left: u64,
) -> Map<Seq<char>, u64> {
    if left == 0 {
        positions.remove(delegator)
    } else {
        positions.insert(delegator, left)
    }
}

/// The state after one redelegation is slashed: the delegator alone loses shares
/// in the pool that its stake has moved to.
pub open spec fn redelegation_slashed(s: StateModel, e: RedelegationModel, bps: u64) -> StateModel {
    let lost = shares_lost(s, e, bps);
    if lost == 0 {
        s
    } else {
        let pool = s.validator_pools[e.dst];
        let held = s.delegator_shares[e.dst][e.delegator];
        s.with_pool(
            e.dst,
            DelegationPool {
                total_shares: (pool.total_shares - lost) as u64,
                total_delegated_stake: (pool.total_delegated_stake - share_value(lost, pool)) as u64,
                ..pool
            },
        ).with_positions(
            e.dst,
            position_after(s.delegator_shares[e.dst], e.delegator, (held - lost) as u64),
        )
    }
}

/// The redelegation itself, with less still to answer for.
pub open spec fn entry_after(s: StateModel, e: RedelegationModel, bps: u64) -> RedelegationModel {
    let lost = shares_lost(s, e, bps);
    if lost == 0 {
        e
    } else {
        let value = share_value(lost, s.validator_pools[e.dst]);
        RedelegationModel {
            amount: if e.amount >= value {
                (e.amount - value) as u64
            } else {
                0
            },
            ..e
        }
    }
}

/// The state, and the entries, after a list of redelegations is slashed in order.
pub open spec fn entries_slashed(s: StateModel, list: Seq<RedelegationModel>, bps: u64) -> (
    StateModel,
    Seq<RedelegationModel>,
)
    decreases list.len(),
{
    if list.len() == 0 {
        (s, Seq::empty())
    } else {
        let before = entries_slashed(s, list.drop_last(), bps);
        (
            redelegation_slashed(before.0, list.last(), bps),
            before.1.push(entry_after(before.0, list.last(), bps)),
        )
    }
}

/// The state after the stake that has moved away from a validator is slashed.
pub open spec fn redelegations_slashed(s: StateModel, validator: Seq<char>, bps: u64) -> StateModel {
    if s.redelegations.contains_key(validator) {
        let after = entries_slashed(s, s.redelegations[validator], bps);
        StateModel { redelegations: after.0.redelegations.insert(validator, after.1), ..after.0 }
    } else {
        s
    }
}

/// All stake behind a validator after it is slashed, before the books are closed.
pub open spec fn stake_slashed(s: StateModel, validator: Seq<char>, bps: u64) -> StateModel {
    redelegations_slashed(
        pool_slashed(accounts_slashed(s, validator, bps), validator, bps),
        validator,
        bps,
    )
}

/// The state after a validator is slashed: what its backers lose is burned. An
/// address without an account has nothing to lose.
pub open spec fn slashed(s: StateModel, validator: Seq<char>, bps: u64) -> StateModel {
    if s.accounts.contains_key(validator) {
        let t = stake_slashed(s, validator, bps);
        StateModel { total_burned: (s.total_burned + (s.wealth() - t.wealth())) as u64, ..t }
    } else {
        s
    }
}

/// What a slash takes can be added to what was burned before.
pub open spec fn slash_fits(s: StateModel, validator: Seq<char>, bps: u64) -> bool {
    s.accounts.contains_key(validator) ==> s.total_burned + (s.wealth() - stake_slashed(
        s,
        validator,
        bps,
    ).wealth()) <= u64::MAX
}

/// One redelegation, slashed: what is lost is exactly what leaves the state.
pub(crate) proof fn redelegation_step(s: StateModel, e: RedelegationModel, bps: u64)
    requires
        s.wf(),
        bps <= 10_000,
        shares_lost(s, e, bps) > 0,
    ensures
        s.validator_pools.contains_key(e.dst),
        s.delegator_shares.contains_key(e.dst),
        s.delegator_shares[e.dst].contains_key(e.delegator),
        shares_lost(s, e, bps) <= s.delegator_shares[e.dst][e.delegator]
            <= s.validator_pools[e.dst].total_shares,
        share_value(shares_lost(s, e, bps), s.validator_pools[e.dst])
            <= s.validator_pools[e.dst].total_delegated_stake,
        share_value(shares_lost(s, e, bps), s.validator_pools[e.dst]) == shares_lost(s, e, bps) as int
            * s.validator_pools[e.dst].total_delegated_stake as int
            / s.validator_pools[e.dst].total_shares as int,
        redelegation_slashed(s, e, bps).wf(),
        redelegation_slashed(s, e, bps).wealth() + share_value(
            shares_lost(s, e, bps),
            s.validator_pools[e.dst],
        ) == s.wealth(),
{
    let lost = shares_lost(s, e, bps);
    let pool = s.validator_pools[e.dst];
    position_within_pool(s, e.dst, e.delegator);
    let positions = s.delegator_shares[e.dst];
    let held = positions[e.delegator];
    value_fits(lost as int, pool.total_delegated_stake as int, pool.total_shares as int);
    let value = share_value(lost, pool);
    let smaller = DelegationPool {
        total_shares: (pool.total_shares - lost) as u64,
        total_delegated_stake: (pool.total_delegated_stake - value) as u64,
        ..pool
    };
    let left = (held - lost) as u64;
    let after = position_after(positions, e.delegator, left);
    assert(s.shares_backed(e.dst));
    shares_with_position(positions, e.delegator, left);
    crate::executor::value::wealth_with_pool(s, e.dst, smaller);
    pool_and_positions_keep_wf(s, e.dst, smaller, after);
}

/// Slashing a list of redelegations keeps the state well-formed and only takes
/// value away; everything but pools and positions stays.
proof fn entries_slashed_facts(s: StateModel, list: Seq<RedelegationModel>, bps: u64)
    requires
        s.wf(),
        bps <= 10_000,
    ensures
        entries_slashed(s, list, bps).0.wf(),
        entries_slashed(s, list, bps).0.wealth() <= s.wealth(),
        entries_slashed(s, list, bps).1.len() == list.len(),
        ({
            let t = entries_slashed(s, list, bps).0;
            t == (StateModel {
                validator_pools: t.validator_pools,
                delegator_shares: t.delegator_shares,
                ..s
            })
        }),
    decreases list.len(),
{
    if list.len() > 0 {
        entries_slashed_facts(s, list.drop_last(), bps);
        let before = entries_slashed(s, list.drop_last(), bps).0;
        if shares_lost(before, list.last(), bps) > 0 {
            redelegation_step(before, list.last(), bps);
        }
    }
}

/// Slashing takes stake and nothing else: accounts keep their balances, nonces and
/// addresses, pools their commissions, and what is at stake falls by what is lost.
pub proof fn stake_slashed_takes_stake(s: StateModel, validator: Seq<char>, bps: u64)
    requires
        s.wf(),
        bps <= 10_000,
    ensures
        ({
            let t = stake_slashed(s, validator, bps);
            &&& t.wf()
            &&& t.wealth() <= s.wealth()
            &&& t.at_stake() + (s.wealth() - t.wealth()) == s.at_stake()
            &&& forall|a: Seq<char>|
                (#[trigger] t.account(a)) == slashed_account(a, s.account(a), validator, bps)
            &&& forall|v: Seq<char>|
                (#[trigger] t.pool(v)).commission_bps == s.pool(v).commission_bps
        }),
{
    let a = accounts_slashed(s, validator, bps);
    accounts_slashed_facts(s, validator, bps);
    let b = pool_slashed(a, validator, bps);
    if a.validator_pools.contains_key(validator) {
        let p = a.validator_pools[validator];
        part_fits(p.total_delegated_stake, bps);
        let smaller = b.validator_pools[validator];
        crate::executor::value::wealth_with_pool(a, validator, smaller);
        if a.delegator_shares.contains_key(validator) {
            assert(a.shares_backed(validator));
        }
        pool_keeps_wf(a, validator, smaller);
    }
    let t = stake_slashed(s, validator, bps);
    if b.redelegations.contains_key(validator) {
        let list = b.redelegations[validator];
        entries_slashed_facts(b, list, bps);
        entries_keep_commissions(b, list, bps);
        books_keep_wf(entries_slashed(b, list, bps).0, t);
    }
    assert(t.accounts == a.accounts);
    wealth_is_balances_and_stake(s);
    wealth_is_balances_and_stake(t);
    crate::sums::total_is_pointwise(s.accounts, by_balance(), t.accounts, by_balance());
    crate::sums::total_is_pointwise(t.accounts, by_balance(), s.accounts, by_balance());
    part_fits(0, bps);
    assert forall|v: Seq<char>| (#[trigger] t.pool(v)).commission_bps == s.pool(v).commission_bps by {
        assert(b.pool(v).commission_bps == a.pool(v).commission_bps);
        if b.redelegations.contains_key(validator) {
            assert(t.pool(v) == entries_slashed(b, b.redelegations[validator], bps).0.pool(v));
        }
    }
}

proof fn wealth_is_balances_and_stake(s: StateModel)
    requires
        s.accounts.dom().finite(),
    ensures
        s.wealth() == total(s.accounts, by_balance()) + s.at_stake(),
{
    crate::sums::total_adds_up(s.accounts, by_balance(), by_bond(), by_account_value());
}

proof fn accounts_slashed_facts(s: StateModel, validator: Seq<char>, bps: u64)
    requires
        s.wf(),
        bps <= 10_000,
    ensures
        accounts_slashed(s, validator, bps).wf(),
        accounts_slashed(s, validator, bps).accounts.dom() == s.accounts.dom(),
        accounts_slashed(s, validator, bps).wealth() <= s.wealth(),
{
    let t = accounts_slashed(s, validator, bps);
    assert(t.accounts.dom() =~= s.accounts.dom());
    assert forall|k: Seq<char>| #[trigger] t.accounts.contains_key(k) implies by_account_value()(
        t.accounts[k],
    ) <= by_account_value()(s.accounts[k]) && t.accounts[k].address == k by {
        assert(s.accounts.contains_key(k));
        part_fits(s.accounts[k].staked, bps);
        part_fits(s.accounts[k].unbonding_stake, bps);
    }
    crate::sums::total_is_pointwise(
        t.accounts,
        by_account_value(),
        s.accounts,
        by_account_value(),
    );
    assert forall|v: Seq<char>| #[trigger]
        t.delegator_shares.contains_key(v) implies t.shares_backed(v) by {
        assert(s.delegator_shares.contains_key(v));
        assert(s.shares_backed(v));
    }
}

proof fn entries_keep_commissions(s: StateModel, list: Seq<RedelegationModel>, bps: u64)
    ensures
        forall|v: Seq<char>|
            (#[trigger] entries_slashed(s, list, bps).0.pool(v)).commission_bps == s.pool(
                v,
            ).commission_bps,
    decreases list.len(),
{
    if list.len() > 0 {
        entries_keep_commissions(s, list.drop_last(), bps);
        let u = entries_slashed(s, list.drop_last(), bps).0;
        assert forall|v: Seq<char>|
            (#[trigger] entries_slashed(s, list, bps).0.pool(v)).commission_bps == s.pool(
                v,
            ).commission_bps by {
            assert(u.pool(v).commission_bps == s.pool(v).commission_bps);
        }
    }
}

impl ChainState {
    /// Takes a part of the validator's stake and of all stake unbonding on its account.
    fn slash_accounts(&mut self, validator: &String, bps: u64) -> (r: u64)
        requires
            old(self)@.wf(),
            bps <= 10_000,
        ensures
            final(self)@ == accounts_slashed(old(self)@, validator@, bps),
            final(self)@.wf(),
            final(self)@.wealth() + r == old(self)@.wealth(),
    {
        let n: usize = self.accounts.len();
        let ghost s = self@;
        let ghost pairs = self.accounts.pairs();
        proof {
            map_of_entries(pairs);
        }
        let mut taken: u64 = 0;
        let mut i: usize = 0;
        while i < n
            invariant
                i <= n == pairs.len(),
                n == self.accounts.pairs().len(),
                bps <= 10_000,
                s.wf(),
                self@.wf(),
                self@.wealth() + taken == s.wealth(),
                self@ == (StateModel { accounts: self.accounts@, ..s }),
                self.accounts@.dom() == s.accounts.dom(),
                forall|j: int|
                    0 <= j < n ==> (#[trigger] self.accounts.pairs()[j]).0 == pairs[j].0,
                forall|j: int|
                    0 <= j < n ==> s.accounts.contains_key((#[trigger] pairs[j]).0)
                        && s.accounts[pairs[j].0] == pairs[j].1,
                forall|k: Seq<char>| #[trigger]
                    s.accounts.contains_key(k) ==> exists|j: int|
                        0 <= j < n && (#[trigger] pairs[j]).0 == k,
                forall|a: int, b: int|
                    0 <= a < n && 0 <= b < n && a != b ==> #[trigger] pairs[a].0
                        != #[trigger] pairs[b].0,
                forall|j: int|
                    0 <= j < i ==> self.accounts@[(#[trigger] pairs[j]).0] == slashed_account(
                        pairs[j].0,
                        pairs[j].1,
                        validator@,
                        bps,
                    ),
                forall|j: int|
                    i <= j < n ==> self.accounts@[(#[trigger] pairs[j]).0] == pairs[j].1,
                forall|j: int|
                    i <= j < n ==> (#[trigger] self.accounts.pairs()[j]).1 == pairs[j].1,
            decreases n - i,
        {
            let mut account = self.accounts.value_at(i).clone();
            let ghost key = pairs[i as int].0;
            let ghost was = pairs[i as int].1;
            proof {
                assert(self.accounts.pairs()[i as int].0 == key);
                assert(self.accounts.pairs()[i as int].1 == was);
                assert(account@ == was);
                assert(s.accounts.contains_key(key));
                assert(self@.account(key) == was);
                account_within_wealth(self@, key);
                part_fits(was.staked, bps);
                part_fits(was.unbonding_stake, bps);
            }
            if account.address == *validator {
                let cut: u64 = part(account.staked, bps);
                account.staked = account.staked - cut;
                taken = taken + cut;
            }
            let answers = match &account.unbonding_source {
                None => account.address == *validator,
                Some(source) => *source == *validator,
            };
            if answers {
                let cut: u64 = part(account.unbonding_stake, bps);
                account.unbonding_stake = account.unbonding_stake - cut;
                taken = taken + cut;
            }
            let ghost next = account@;
            let ghost before = self@;
            let ghost pairs_before = self.accounts.pairs();
            self.accounts.set_value_at(i, account);
            proof {
                assert(next == slashed_account(key, was, validator@, bps));
                account_keeps_wf(before, key, next);
                assert(self@.accounts =~= before.with_account(key, next).accounts);
                assert(self@ == before.with_account(key, next));
                assert(self.accounts@.dom() =~= s.accounts.dom());
                assert forall|j: int| 0 <= j < n implies (#[trigger] self.accounts.pairs()[j]).0
                    == pairs[j].0 by {
                    assert(pairs_before[j].0 == pairs[j].0);
                }
                assert forall|j: int| i + 1 <= j < n implies (
                #[trigger] self.accounts.pairs()[j]).1 == pairs[j].1 by {
                    assert(pairs_before[j].1 == pairs[j].1);
                }
            }
            i = i + 1;
        }
        proof {
            let goal = accounts_slashed(s, validator@, bps);
            assert forall|k: Seq<char>| #[trigger] s.accounts.contains_key(k) implies self.accounts@[k]
                == goal.accounts[k] by {
                let j = choose|j: int| 0 <= j < n && (#[trigger] pairs[j]).0 == k;
            }
            assert(self.accounts@ =~= goal.accounts);
        }
        taken
    }

    /// Takes a part of the validator's pool.
    fn slash_pool(&mut self, validator: &String, bps: u64) -> (r: u64)
        requires
            old(self)@.wf(),
            bps <= 10_000,
        ensures
            final(self)@ == pool_slashed(old(self)@, validator@, bps),
            final(self)@.wf(),
            final(self)@.wealth() + r == old(self)@.wealth(),
    {
        let pool = match self.validator_pools.get(validator) {
            None => {
                return 0;
            },
            Some(p) => *p,
        };
        let cut: u64 = part(pool.total_delegated_stake, bps);
        let smaller = DelegationPool {
            total_shares: pool.total_shares,
            total_delegated_stake: pool.total_delegated_stake - cut,
            commission_bps: pool.commission_bps,
        };
        proof {
            crate::executor::value::wealth_with_pool(self@, validator@, smaller);
            if self@.delegator_shares.contains_key(validator@) {
                assert(self@.shares_backed(validator@));
            }
            pool_keeps_wf(self@, validator@, smaller);
        }
        self.validator_pools.insert(validator.clone(), smaller);
        cut
    }

    /// Slashes one redelegation; returns what was taken.
    fn slash_redelegation(&mut self, entry: &mut Redelegation, bps: u64) -> (r: u64)
        requires
            old(self)@.wf(),
            bps <= 10_000,
        ensures
            final(self)@ == redelegation_slashed(old(self)@, old(entry)@, bps),
            final(entry)@ == entry_after(old(self)@, old(entry)@, bps),
            final(self)@.wf(),
            final(self)@.wealth() + r == old(self)@.wealth(),
    {
        let amount: u64 = part(entry.amount, bps);
        if amount == 0 {
            return 0;
        }
        let pool = match self.validator_pools.get(&entry.dst) {
            None => {
                return 0;
            },
            Some(p) => *p,
        };
        if pool.total_delegated_stake == 0 || pool.total_shares == 0 {
            return 0;
        }
        let held: u64 = match self.delegator_shares.get(&entry.dst) {
            None => {
                return 0;
            },
            Some(positions) => match positions.get(&entry.delegator) {
                None => {
                    return 0;
                },
                Some(n) => *n,
            },
        };
        let ghost e = entry@;
        let ghost s = self@;
        let wanted: u128 = ceil_of(
            amount,
            pool.total_shares,
            pool.total_delegated_stake,
        );
        let lost: u64 = if wanted <= held as u128 {
            wanted as u64
        } else {
            held
        };
        proof {
            assert(lost == shares_lost(s, e, bps));
        }
        if lost == 0 {
            return 0;
        }
        proof {
            redelegation_step(s, e, bps);
            value_fits(lost as int, pool.total_delegated_stake as int, pool.total_shares as int);
        }
        let value: u64 = (lost as u128 * pool.total_delegated_stake as u128
            / pool.total_shares as u128) as u64;
        let mut positions = match self.delegator_shares.remove(&entry.dst) {
            Some(t) => t,
            None => Table::new(),
        };
        let left: u64 = held - lost;
        if left == 0 {
            positions.remove(&entry.delegator);
        } else {
            positions.insert(entry.delegator.clone(), left);
        }
        self.delegator_shares.insert(entry.dst.clone(), positions);
        self.validator_pools.insert(
            entry.dst.clone(),
            DelegationPool {
                total_shares: pool.total_shares - lost,
                total_delegated_stake: pool.total_delegated_stake - value,
                commission_bps: pool.commission_bps,
            },
        );
        proof {
            let goal = redelegation_slashed(s, e, bps);
            assert(self.delegator_shares@ =~= goal.delegator_shares);
            assert(self.validator_pools@ =~= goal.validator_pools);
        }
        entry.amount = entry.amount.saturating_sub(value);
        value
    }

    /// Slashes the stake that has moved away from a validator and still answers
    /// for it. The loss is the moving delegators' alone.
    pub fn slash_redelegations_away_from(&mut self, src: &str, fraction_bps: u64) -> (r: u64)
        requires
            old(self)@.wf(),
            fraction_bps <= 10_000,
        ensures
            final(self)@ == redelegations_slashed(old(self)@, src@, fraction_bps),
            final(self)@.wf(),
            final(self)@.wealth() + r == old(self)@.wealth(),
    {
        let key = src.to_owned();
        let ghost s0 = self@;
        let mut entries = match self.redelegations.remove(&key) {
            None => {
                proof {
                    assert(self.redelegations@ =~= s0.redelegations);
                }
                return 0;
            },
            Some(list) => list.entries,
        };
        let ghost list = redelegation_models(entries@);
        let ghost s = self@;
        proof {
            assert(s == (StateModel { redelegations: s0.redelegations.remove(src@), ..s0 }));
            books_keep_wf(s0, s);
            assert(list.take(0) =~= Seq::empty());
        }
        let n: usize = entries.len();
        let mut taken: u64 = 0;
        let mut i: usize = 0;
        while i < n
            invariant
                i <= n == entries@.len(),
                n == list.len(),
                fraction_bps <= 10_000,
                self@.wf(),
                s.wealth() <= VALUE_LIMIT,
                self@.wealth() + taken == s.wealth(),
                self@ == entries_slashed(s, list.take(i as int), fraction_bps).0,
                forall|j: int| i <= j < n ==> (#[trigger] entries@[j])@ == list[j],
                entries_slashed(s, list.take(i as int), fraction_bps).1.len() == i,
                forall|j: int|
                    0 <= j < i ==> (#[trigger] entries@[j])@ == entries_slashed(
                        s,
                        list.take(i as int),
                        fraction_bps,
                    ).1[j],
            decreases n - i,
        {
            let ghost before = entries@;
            let ghost at = self@;
            let mut entry = entries[i].clone();
            let cut: u64 = self.slash_redelegation(&mut entry, fraction_bps);
            entries.set(i, entry);
            proof {
                assert(list.take(i + 1).drop_last() =~= list.take(i as int));
                assert(list.take(i + 1).last() == list[i as int]);
            }
            taken = taken + cut;
            i = i + 1;
        }
        proof {
            assert(list.take(n as int) =~= list);
            entries_slashed_ignores_redelegations(s0, s, list, fraction_bps);
        }
        let done = RedelegationList { entries };
        proof {
            assert(done@ =~= entries_slashed(s, list, fraction_bps).1);
        }
        let ghost t = self@;
        self.redelegations.insert(key, done);
        proof {
            books_keep_wf(t, self@);
            let goal = redelegations_slashed(s0, src@, fraction_bps);
            entries_slashed_facts(s0, list, fraction_bps);
            assert(self.redelegations@ =~= goal.redelegations);
        }
        taken
    }

    /// Slashes a validator by a part of its stake, together with everything that
    /// stands or stood behind it and is still in reach: its pool, what unbonds on
    /// its account and what has moved away from it. What is taken is burned.
    /// Returns how much that is.
    pub fn slash(&mut self, address: &Address, fraction_bps: u64) -> (r: u64)
        requires
            old(self)@.wf(),
            fraction_bps <= 10_000,
            slash_fits(old(self)@, address@, fraction_bps),
        ensures
            final(self)@ == slashed(old(self)@, address@, fraction_bps),
            final(self)@.wf(),
            r + final(self)@.wealth() == old(self)@.wealth(),
            r + final(self)@.at_stake() == old(self)@.at_stake(),
            final(self)@.total_burned == old(self)@.total_burned + r,
    {
        let key = address.to_string();
        if !self.accounts.contains_key(&key) {
            return 0;
        }
        let ghost s = self@;
        let own: u64 = self.slash_accounts(&key, fraction_bps);
        let pooled: u64 = self.slash_pool(&key, fraction_bps);
        let moved: u64 = self.slash_redelegations_away_from(key.as_str(), fraction_bps);
        let taken: u64 = own + pooled + moved;
        let ghost t = self@;
        proof {
            assert(t == stake_slashed(s, address@, fraction_bps));
            stake_slashed_keeps_books(s, address@, fraction_bps);
            stake_slashed_takes_stake(s, address@, fraction_bps);
        }
        self.total_burned = self.total_burned + taken;
        proof {
            books_keep_wf(t, self@);
        }
        taken
    }
}

impl ChainState {
    /// Whether what a slash takes can be added to what was burned before, found out
    /// on a copy of the state.
    pub fn slash_has_room(&self, address: &Address, fraction_bps: u64) -> (r: bool)
        requires
            self@.wf(),
            fraction_bps <= 10_000,
        ensures
            r == slash_fits(self@, address@, fraction_bps),
    {
        let key = address.to_string();
        if !self.accounts.contains_key(&key) {
            return true;
        }
        let mut trial = self.clone();
        let own: u64 = trial.slash_accounts(&key, fraction_bps);
        let pooled: u64 = trial.slash_pool(&key, fraction_bps);
        let moved: u64 = trial.slash_redelegations_away_from(key.as_str(), fraction_bps);
        let taken: u64 = own + pooled + moved;
        taken <= u64::MAX - self.total_burned
    }
}

/// How many shares an amount is worth, rounded up.
pub(crate) fn ceil_of(amount: u64, shares: u64, value: u64) -> (r: u128)
    requires
        value > 0,
    ensures
        r == ceil_div(amount as int * shares as int, value as int),
{
    proof {
        assert(0 <= amount as int * shares as int <= 0xffff_ffff_ffff_ffff * 0xffff_ffff_ffff_ffff)
            by (nonlinear_arith)
            requires
                0 <= amount <= 0xffff_ffff_ffff_ffff,
                0 <= shares <= 0xffff_ffff_ffff_ffff,
        ;
        let p = amount as int * shares as int;
        vstd::arithmetic::div_mod::lemma_div_is_ordered_by_denominator(p, 1, value as int);
        vstd::arithmetic::div_mod::lemma_div_basics(p);
    }
    let product: u128 = amount as u128 * shares as u128;
    let floor: u128 = product / value as u128;
    if product % value as u128 == 0 {
        floor
    } else {
        floor + 1
    }
}

/// What a slash takes depends on the books of stake alone.
pub proof fn slash_reads_stake(s: StateModel, t: StateModel, validator: Seq<char>, bps: u64)
    requires
        t.accounts == s.accounts,
        t.validator_pools == s.validator_pools,
        t.delegator_shares == s.delegator_shares,
        t.redelegations == s.redelegations,
        t.total_burned == s.total_burned,
    ensures
        slash_fits(t, validator, bps) == slash_fits(s, validator, bps),
{
    let a = pool_slashed(accounts_slashed(s, validator, bps), validator, bps);
    let b = pool_slashed(accounts_slashed(t, validator, bps), validator, bps);
    if a.redelegations.contains_key(validator) {
        entries_read_stake(a, b, a.redelegations[validator], bps);
    }
}

proof fn entries_read_stake(
    a: StateModel,
    b: StateModel,
    list: Seq<RedelegationModel>,
    bps: u64,
)
    requires
        b.accounts == a.accounts,
        b.validator_pools == a.validator_pools,
        b.delegator_shares == a.delegator_shares,
    ensures
        ({
            let x = entries_slashed(a, list, bps).0;
            let y = entries_slashed(b, list, bps).0;
            &&& y.accounts == x.accounts
            &&& y.validator_pools == x.validator_pools
            &&& y.delegator_shares == x.delegator_shares
        }),
    decreases list.len(),
{
    if list.len() > 0 {
        entries_read_stake(a, b, list.drop_last(), bps);
        let x = entries_slashed(a, list.drop_last(), bps).0;
        let y = entries_slashed(b, list.drop_last(), bps).0;
        assert(shares_lost(x, list.last(), bps) == shares_lost(y, list.last(), bps));
    }
}

proof fn entries_slashed_ignores_redelegations(
    a: StateModel,
    b: StateModel,
    list: Seq<RedelegationModel>,
    bps: u64,
)
    requires
        b == (StateModel { redelegations: b.redelegations, ..a }),
    ensures
        entries_slashed(b, list, bps).1 == entries_slashed(a, list, bps).1,
        entries_slashed(b, list, bps).0 == (StateModel {
            redelegations: b.redelegations,
            ..entries_slashed(a, list, bps).0
        }),
    decreases list.len(),
{
    if list.len() > 0 {
        entries_slashed_ignores_redelegations(a, b, list.drop_last(), bps);
        let x = entries_slashed(a, list.drop_last(), bps).0;
        let y = entries_slashed(b, list.drop_last(), bps).0;
        let e = list.last();
        assert(shares_lost(x, e, bps) == shares_lost(y, e, bps));
    }
}

/// Slashing stake touches no book but the stake's own.
pub proof fn stake_slashed_keeps_books(s: StateModel, validator: Seq<char>, bps: u64)
    requires
        s.wf(),
        bps <= 10_000,
    ensures
        ({
            let t = stake_slashed(s, validator, bps);
            t == (StateModel {
                accounts: t.accounts,
                validator_pools: t.validator_pools,
                delegator_shares: t.delegator_shares,
                redelegations: t.redelegations,
                ..s
            })
        }),
{
    let a = pool_slashed(accounts_slashed(s, validator, bps), validator, bps);
    if a.redelegations.contains_key(validator) {
        entries_slashed_books(a, a.redelegations[validator], bps);
    }
}

pub proof fn entries_slashed_books(s: StateModel, list: Seq<RedelegationModel>, bps: u64)
    ensures
        ({
            let t = entries_slashed(s, list, bps).0;
            t == (StateModel {
                validator_pools: t.validator_pools,
                delegator_shares: t.delegator_shares,
                ..s
            })
        }),
    decreases list.len(),
{
    if list.len() > 0 {
        entries_slashed_books(s, list.drop_last(), bps);
    }
}

} // verus!
