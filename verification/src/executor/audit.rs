//! Checking a state that comes from elsewhere.
use crate::crypto::Address;
use crate::executor::account::{AccountModel, AccountState, DelegationPool, MIN_JAIL_BLOCKS};
use crate::executor::block::closing_fits;
use crate::executor::genesis::scheduled_block_reward;
use crate::executor::governance::VOTING_PERIOD_BLOCKS;
use crate::executor::quorum::{counters_fit, stake_sum};
use crate::executor::state::{
    by_account_value, by_pool_value, by_shares, proposal_fits, ChainState, StateModel, QUORUM_LIMIT,
};
use crate::identity::recovery::MAX_GUARDIANS;
use crate::sums::{total, total_of_empty, total_of_listing};
use crate::table::{in_key_order, map_of, map_of_entries, Table};
use vstd::prelude::*;

verus! {

/// A type whose values have a weight in a sum.
pub trait Weighed: View + Sized {
    spec fn weighing() -> spec_fn(Self::V) -> nat;

    fn weight(&self) -> (r: u128)
        ensures
            r == Self::weighing()(self@),
            r <= 0x3_ffff_ffff_ffff_ffff,
    ;
}

impl Weighed for AccountState {
    open spec fn weighing() -> spec_fn(AccountModel) -> nat {
        by_account_value()
    }

    fn weight(&self) -> (r: u128) {
        self.balance as u128 + self.staked as u128 + self.unbonding_stake as u128
    }
}

impl Weighed for DelegationPool {
    open spec fn weighing() -> spec_fn(DelegationPool) -> nat {
        by_pool_value()
    }

    fn weight(&self) -> (r: u128) {
        self.total_delegated_stake as u128
    }
}

impl Weighed for u64 {
    open spec fn weighing() -> spec_fn(u64) -> nat {
        by_shares()
    }

    fn weight(&self) -> (r: u128) {
        *self as u128
    }
}

/// The weights of a table's values added up, if the sum is a number.
pub fn checked_total<V: Weighed>(table: &Table<String, V>) -> (r: Option<u64>)
    ensures
        match r {
            Some(n) => n == total(table@, V::weighing()),
            None => total(table@, V::weighing()) > u64::MAX,
        },
        table@.dom().finite(),
{
    let n: usize = table.len();
    let ghost pairs = table.pairs();
    proof {
        assert(pairs.take(0) =~= Seq::empty());
        total_of_empty::<Seq<char>, V::V>(V::weighing());
    }
    let mut sum: u64 = 0;
    let mut i: usize = 0;
    while i < n
        invariant
            i <= n == pairs.len(),
            pairs == table.pairs(),
            table.in_order(),
            sum == total(map_of(pairs.take(i as int)), V::weighing()),
        decreases n - i,
    {
        proof {
            total_of_listing(pairs, V::weighing(), i as int);
        }
        let next: u128 = sum as u128 + table.value_at(i).weight();
        if next > u64::MAX as u128 {
            return None;
        }
        sum = next as u64;
        i = i + 1;
    }
    proof {
        assert(pairs.take(n as int) =~= pairs);
    }
    Some(sum)
}

impl ChainState {
    /// All value in the state, if it is a number.
    pub fn total_value(&self) -> (r: Option<u64>)
        ensures
            match r {
                Some(n) => n == self@.wealth(),
                None => self@.wealth() > u64::MAX,
            },
            self@.accounts.dom().finite(),
            self@.validator_pools.dom().finite(),
    {
        let own = checked_total(&self.accounts);
        let pooled = checked_total(&self.validator_pools);
        match (own, pooled) {
            (Some(a), Some(b)) => a.checked_add(b),
            _ => None,
        }
    }

    fn has_accounts_filed(&self) -> (r: bool)
        ensures
            r == self@.accounts_filed(),
    {
        let n: usize = self.accounts.len();
        let ghost pairs = self.accounts.pairs();
        proof {
            map_of_entries(pairs);
        }
        let mut i: usize = 0;
        while i < n
            invariant
                i <= n == pairs.len(),
                pairs == self.accounts.pairs(),
                forall|j: int|
                    0 <= j < n ==> self@.accounts.contains_key((#[trigger] pairs[j]).0)
                        && self@.accounts[pairs[j].0] == pairs[j].1,
                forall|j: int| 0 <= j < i ==> (#[trigger] pairs[j]).1.address == pairs[j].0,
            decreases n - i,
        {
            if self.accounts.value_at(i).address != *self.accounts.key_at(i) {
                proof {
                    assert(self@.accounts.contains_key(pairs[i as int].0));
                }
                return false;
            }
            i = i + 1;
        }
        proof {
            assert forall|k: Seq<char>| #[trigger]
                self@.accounts.contains_key(k) implies self@.accounts[k].address == k by {
                let j = choose|j: int| 0 <= j < pairs.len() && #[trigger] pairs[j].0 == k;
            }
        }
        true
    }

    fn has_shares_backed(&self) -> (r: bool)
        ensures
            r == (forall|v: Seq<char>| #[trigger]
                self@.delegator_shares.contains_key(v) ==> self@.shares_backed(v)),
    {
        let n: usize = self.delegator_shares.len();
        let ghost pairs = self.delegator_shares.pairs();
        proof {
            map_of_entries(pairs);
        }
        let mut i: usize = 0;
        while i < n
            invariant
                i <= n == pairs.len(),
                pairs == self.delegator_shares.pairs(),
                forall|j: int|
                    0 <= j < n ==> self@.delegator_shares.contains_key((#[trigger] pairs[j]).0)
                        && self@.delegator_shares[pairs[j].0] == pairs[j].1,
                forall|j: int| 0 <= j < i ==> self@.shares_backed((#[trigger] pairs[j]).0),
            decreases n - i,
        {
            proof {
                assert(self@.delegator_shares.contains_key(pairs[i as int].0));
            }
            let held = checked_total(self.delegator_shares.value_at(i));
            let backed = match self.validator_pools.get(self.delegator_shares.key_at(i)) {
                None => false,
                Some(pool) => match held {
                    None => false,
                    Some(shares) => shares <= pool.total_shares,
                },
            };
            if !backed {
                return false;
            }
            i = i + 1;
        }
        proof {
            assert forall|v: Seq<char>| #[trigger]
                self@.delegator_shares.contains_key(v) implies self@.shares_backed(v) by {
                let j = choose|j: int| 0 <= j < pairs.len() && #[trigger] pairs[j].0 == v;
            }
        }
        true
    }

    fn has_commissions_in_bounds(&self) -> (r: bool)
        ensures
            r == (forall|k: Seq<char>| #[trigger]
                self@.validator_pools.contains_key(k) ==> self@.validator_pools[k].commission_bps <= 10_000),
    {
        let n: usize = self.validator_pools.len();
        let ghost pairs = self.validator_pools.pairs();
        proof {
            map_of_entries(pairs);
        }
        let mut i: usize = 0;
        while i < n
            invariant
                i <= n == pairs.len(),
                pairs == self.validator_pools.pairs(),
                forall|j: int|
                    0 <= j < n ==> self@.validator_pools.contains_key((#[trigger] pairs[j]).0)
                        && self@.validator_pools[pairs[j].0] == pairs[j].1,
                forall|j: int| 0 <= j < i ==> (#[trigger] pairs[j]).1.commission_bps <= 10_000,
            decreases n - i,
        {
            if self.validator_pools.value_at(i).commission_bps > 10_000 {
                proof {
                    assert(self@.validator_pools.contains_key(pairs[i as int].0));
                }
                return false;
            }
            i = i + 1;
        }
        proof {
            assert forall|k: Seq<char>| #[trigger]
                self@.validator_pools.contains_key(k) implies self@.validator_pools[k].commission_bps <= 10_000 by {
                let j = choose|j: int| 0 <= j < pairs.len() && #[trigger] pairs[j].0 == k;
            }
        }
        true
    }

    fn has_guardians_in_bounds(&self) -> (r: bool)
        ensures
            r == (forall|k: Seq<char>| #[trigger]
                self@.guardians.contains_key(k) ==> self@.guardians[k].len() <= MAX_GUARDIANS),
    {
        let n: usize = self.guardians.len();
        let ghost pairs = self.guardians.pairs();
        proof {
            map_of_entries(pairs);
        }
        let mut i: usize = 0;
        while i < n
            invariant
                i <= n == pairs.len(),
                pairs == self.guardians.pairs(),
                forall|j: int|
                    0 <= j < n ==> self@.guardians.contains_key((#[trigger] pairs[j]).0)
                        && self@.guardians[pairs[j].0] == pairs[j].1,
                forall|j: int| 0 <= j < i ==> (#[trigger] pairs[j]).1.len() <= MAX_GUARDIANS,
            decreases n - i,
        {
            if self.guardians.value_at(i).guardians.len() > MAX_GUARDIANS {
                proof {
                    assert(self@.guardians.contains_key(pairs[i as int].0));
                }
                return false;
            }
            i = i + 1;
        }
        proof {
            assert forall|k: Seq<char>| #[trigger]
                self@.guardians.contains_key(k) implies self@.guardians[k].len() <= MAX_GUARDIANS by {
                let j = choose|j: int| 0 <= j < pairs.len() && #[trigger] pairs[j].0 == k;
            }
        }
        true
    }

    fn has_proposals_in_bounds(&self) -> (r: bool)
        ensures
            r == (forall|k: u64| #[trigger]
                self@.proposals.contains_key(k) ==> proposal_fits(self@.proposals[k])),
    {
        let n: usize = self.proposals.len();
        let ghost pairs = self.proposals.pairs();
        proof {
            map_of_entries(pairs);
        }
        let mut i: usize = 0;
        while i < n
            invariant
                i <= n == pairs.len(),
                pairs == self.proposals.pairs(),
                forall|j: int|
                    0 <= j < n ==> self@.proposals.contains_key((#[trigger] pairs[j]).0)
                        && self@.proposals[pairs[j].0] == pairs[j].1,
                forall|j: int| 0 <= j < i ==> proposal_fits((#[trigger] pairs[j]).1),
            decreases n - i,
        {
            if self.proposals.value_at(i).created_at_height > u64::MAX - VOTING_PERIOD_BLOCKS {
                proof {
                    assert(self@.proposals.contains_key(pairs[i as int].0));
                }
                return false;
            }
            i = i + 1;
        }
        proof {
            assert forall|k: u64| #[trigger]
                self@.proposals.contains_key(k) implies proposal_fits(self@.proposals[k]) by {
                let j = choose|j: int| 0 <= j < pairs.len() && #[trigger] pairs[j].0 == k;
            }
        }
        true
    }

    /// Whether the state is one that blocks can be applied to.
    pub fn is_well_formed(&self) -> (r: bool)
        ensures
            r == self@.wf(),
    {
        let valued = self.total_value().is_some();
        valued && self.has_accounts_filed() && self.has_shares_backed()
            && self.has_commissions_in_bounds() && self.has_guardians_in_bounds()
            && self.has_proposals_in_bounds()
    }

    fn has_counter_room(&self, room: u32) -> (r: bool)
        ensures
            r == counters_fit(self@, room as nat),
    {
        let n: usize = self.missed_blocks.len();
        let ghost pairs = self.missed_blocks.pairs();
        proof {
            map_of_entries(pairs);
        }
        let mut i: usize = 0;
        while i < n
            invariant
                i <= n == pairs.len(),
                pairs == self.missed_blocks.pairs(),
                forall|j: int|
                    0 <= j < n ==> self@.missed_blocks.contains_key((#[trigger] pairs[j]).0)
                        && self@.missed_blocks[pairs[j].0] == pairs[j].1,
                forall|j: int| 0 <= j < i ==> (#[trigger] pairs[j]).1 + room <= u32::MAX,
            decreases n - i,
        {
            if *self.missed_blocks.value_at(i) > u32::MAX - room {
                proof {
                    assert(self@.missed_blocks.contains_key(pairs[i as int].0));
                }
                return false;
            }
            i = i + 1;
        }
        proof {
            assert forall|a: Seq<char>| #[trigger]
                self@.missed_blocks.contains_key(a) implies self@.missed_blocks[a] + room
                <= u32::MAX by {
                let j = choose|j: int| 0 <= j < pairs.len() && #[trigger] pairs[j].0 == a;
            }
        }
        true
    }

    /// Whether a quorum of the active validators' stake can be reckoned.
    fn has_quorum_in_bounds(&self) -> (r: bool)
        ensures
            r == (stake_sum(self@, in_key_order::<Address>(self@.active_validators))
                <= QUORUM_LIMIT),
    {
        let n: usize = self.active_validators.len();
        let ghost list = in_key_order::<Address>(self@.active_validators);
        proof {
            assert(list.take(0) =~= Seq::empty());
        }
        let mut sum: u64 = 0;
        let mut i: usize = 0;
        while i < n
            invariant
                i <= n == list.len(),
                list == self.active_validators.items(),
                list == in_key_order::<Address>(self@.active_validators),
                sum == stake_sum(self@, list.take(i as int)),
                sum <= QUORUM_LIMIT,
            decreases n - i,
        {
            let stake: u64 = self.effective_stake(self.active_validators.item_at(i));
            proof {
                assert(list.take(i + 1).drop_last() =~= list.take(i as int));
                assert(list.take(i + 1).last() == list[i as int]);
                stake_sum_grows(self@, list, i + 1);
            }
            if stake > QUORUM_LIMIT - sum {
                return false;
            }
            sum = sum + stake;
            i = i + 1;
        }
        proof {
            assert(list.take(n as int) =~= list);
        }
        true
    }

    /// Whether a block can be closed on this state.
    pub fn closing_has_room(&self, height: u64) -> (r: bool)
        ensures
            r == closing_fits(self@, height),
    {
        let value: u64 = match self.total_value() {
            Some(n) => n,
            None => {
                return false;
            },
        };
        let seats: usize = self.active_validators.len();
        if !self.is_well_formed() || height > u64::MAX - MIN_JAIL_BLOCKS || seats > u32::MAX as usize {
            return false;
        }
        let scheduled: u64 = scheduled_block_reward(height);
        let room: u64 = self.mintable_headroom();
        let minted: u64 = if scheduled <= room {
            scheduled
        } else {
            room
        };
        self.has_counter_room(seats as u32) && self.has_quorum_in_bounds() && value <= u64::MAX
            - minted
    }
}

proof fn stake_sum_grows(s: StateModel, list: Seq<Seq<char>>, i: int)
    requires
        0 <= i <= list.len(),
    ensures
        stake_sum(s, list.take(i)) <= stake_sum(s, list),
    decreases list.len() - i,
{
    if i == list.len() {
        assert(list.take(i) =~= list);
    } else {
        stake_sum_grows(s, list, i + 1);
        assert(list.take(i + 1).drop_last() =~= list.take(i));
    }
}

} // verus!
