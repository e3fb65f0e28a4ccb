//! Who validates, and with how much say.
use crate::crypto::address::address_fault;
use crate::crypto::Address;
use crate::executor::account::{AccountModel, DelegationPool};
use crate::executor::fees::saturated;
use crate::executor::state::{by_account_value, funded, ChainState, StateModel};
use crate::executor::value::{books_keep_wf, position_within_pool};
use crate::order::{text_before, Key};
use crate::sums::{total, total_is_monotone, total_of_empty, total_of_listing};
use crate::table::{
    in_key_order, items_ascend, keys_ascend, listing_is_in_key_order, map_of, map_of_entries, KeySet,
};
use vstd::prelude::*;

verus! {

/// Accounts weighed by their stake.
pub open spec fn by_stake() -> spec_fn(AccountModel) -> nat {
    |a: AccountModel| a.staked as nat
}

impl StateModel {
    /// A validator's own stake and what is delegated to it.
    pub open spec fn effective(self, a: Seq<char>) -> u64 {
        saturated(self.account(a).staked + self.delegated_to(a))
    }

    /// The account has a proper address, is not jailed and meets the minimum stake.
    pub open spec fn qualifies(self, a: Seq<char>) -> bool {
        &&& self.accounts.contains_key(a)
        &&& !self.jailed_until.contains_key(a)
        &&& address_fault(a) is None
        &&& self.effective(a) >= self.governance_params.min_validator_stake
    }

    /// All accounts that may validate.
    pub open spec fn qualifying(self) -> Set<Seq<char>> {
        Set::new(|a: Seq<char>| self.qualifies(a))
    }

    /// The accounts that may validate with their effective stakes, in address order.
    pub open spec fn staker_list(self) -> Seq<(Seq<char>, u64)> {
        in_key_order::<Address>(self.qualifying()).map_values(
            |a: Seq<char>| (a, self.effective(a)),
        )
    }

    /// The members of a tier with their effective stakes, in address order.
    pub open spec fn tier(self, members: Set<Seq<char>>, probationary: bool) -> Seq<
        (Seq<char>, u64, bool),
    > {
        in_key_order::<Address>(members).map_values(
            |a: Seq<char>| (a, self.effective(a), probationary),
        )
    }

    /// The signing set: the active validators, then the probationers. Without an
    /// active validator there is none.
    pub open spec fn signing_set(self) -> Seq<(Seq<char>, u64, bool)> {
        if self.active_validators.len() == 0 {
            Seq::empty()
        } else {
            self.tier(self.active_validators, false) + self.tier(
                self.probationary_validators,
                true,
            )
        }
    }

    /// The set that the consensus engine runs: the signing set, or every account
    /// that may validate while no rotation has chosen one.
    pub open spec fn engine_set(self) -> Seq<(Seq<char>, u64, bool)> {
        if self.active_validators.len() == 0 {
            self.tier(self.qualifying(), false)
        } else {
            self.signing_set()
        }
    }

    /// The members of the engine's set that have a say.
    pub open spec fn full_members(self) -> Set<Seq<char>> {
        if self.active_validators.len() == 0 {
            self.qualifying()
        } else {
            self.active_validators
        }
    }

    /// The state after an epoch ends. Accounts that no longer qualify leave every
    /// tier; probationers that were seen become active; those that waited go on
    /// probation; the rest of the qualifying wait.
    pub open spec fn rotated(self) -> StateModel {
        let q = self.qualifying();
        let active = self.active_validators.intersect(q).union(
            self.probationary_validators.intersect(q).intersect(self.probation_seen.intersect(q)),
        );
        let probation = self.pending_validators.intersect(q).difference(active);
        StateModel {
            active_validators: active,
            probationary_validators: probation,
            pending_validators: q.difference(active).difference(probation),
            probation_seen: Set::empty(),
            ..self
        }
    }
}

/// The entries of a signing set.
pub open spec fn members(s: Seq<(Address, u64, bool)>) -> Seq<(Seq<char>, u64, bool)> {
    Seq::new(s.len(), |i: int| (s[i].0@, s[i].1, s[i].2))
}

impl ChainState {
    /// A validator's own stake and what is delegated to it.
    pub fn effective_stake(&self, address: &Address) -> (r: u64)
        ensures
            r == self@.effective(address@),
    {
        let own: u64 = match self.get(address) {
            Some(a) => a.staked,
            None => 0,
        };
        let delegated: u64 = match self.validator_pools.get(&address.to_string()) {
            Some(p) => p.total_delegated_stake,
            None => 0,
        };
        own.saturating_add(delegated)
    }

    /// The accounts that may validate, with their effective stakes, in address order.
    #[verifier::rlimit(40)]
    pub fn stakers(&self) -> (r: Vec<(Address, u64)>)
        requires
            self@.accounts_filed(),
        ensures
            funded(r@) == self@.staker_list(),
            items_ascend::<Address>(in_key_order::<Address>(self@.qualifying())),
            forall|a: Seq<char>| #[trigger]
                self@.qualifies(a) <==> exists|i: int| 0 <= i < r@.len() && (#[trigger] r@[i]).0@ == a,
    {
        let min_stake: u64 = self.governance_params.min_validator_stake;
        let n: usize = self.accounts.len();
        let ghost pairs = self.accounts.pairs();
        let ghost s = self@;
        proof {
            map_of_entries(pairs);
        }
        let mut out: Vec<(Address, u64)> = Vec::new();
        let mut i: usize = 0;
        while i < n
            invariant
                i <= n == pairs.len(),
                pairs == self.accounts.pairs(),
                s == self@,
                s.accounts_filed(),
                min_stake == s.governance_params.min_validator_stake,
                keys_ascend::<String, AccountModel>(pairs),
                forall|j: int|
                    0 <= j < n ==> s.accounts.contains_key((#[trigger] pairs[j]).0)
                        && s.accounts[pairs[j].0] == pairs[j].1,
                forall|k: int| 0 <= k < out@.len() ==> s.qualifies((#[trigger] out@[k]).0@),
                forall|k: int|
                    0 <= k < out@.len() ==> (#[trigger] out@[k]).1 == s.effective(out@[k].0@),
                forall|k: int|
                    0 <= k < out@.len() ==> exists|j: int|
                        0 <= j < i && (#[trigger] pairs[j]).0 == (#[trigger] out@[k]).0@,
                forall|j: int|
                    0 <= j < i && s.qualifies((#[trigger] pairs[j]).0) ==> exists|k: int|
                        0 <= k < out@.len() && (#[trigger] out@[k]).0@ == pairs[j].0,
                forall|a: int, b: int|
                    0 <= a < b < out@.len() ==> text_before(
                        (#[trigger] out@[a]).0@,
                        (#[trigger] out@[b]).0@,
                    ),
            decreases n - i,
        {
            let account = self.accounts.value_at(i);
            let ghost key = pairs[i as int].0;
            proof {
                assert(s.accounts.contains_key(key));
                assert(account@ == s.accounts[key]);
                assert(account.address@ == key);
            }
            if !self.jailed_until.contains_key(&account.address) {
                match Address::from_str(account.address.as_str()) {
                    Ok(addr) => {
                        let effective: u64 = self.effective_stake(&addr);
                        if effective >= min_stake {
                            let ghost was = out@;
                            out.push((addr, effective));
                            proof {
                                assert(s.qualifies(key));
                                assert forall|a: int, b: int| 0 <= a < b < out@.len() implies text_before(
                                    (#[trigger] out@[a]).0@,
                                    (#[trigger] out@[b]).0@,
                                ) by {
                                    if b == was.len() {
                                        let j = choose|j: int|
                                            0 <= j < i && (#[trigger] pairs[j]).0 == was[a].0@;
                                        assert(<String as Key>::precedes(
                                            pairs[j].0,
                                            pairs[i as int].0,
                                        ));
                                    }
                                }
                                assert forall|j: int|
                                    0 <= j < i + 1 && s.qualifies(
                                        (#[trigger] pairs[j]).0,
                                    ) implies exists|k: int|
                                    0 <= k < out@.len() && (#[trigger] out@[k]).0@ == pairs[j].0 by {
                                    if j < i {
                                        let k = choose|k: int|
                                            0 <= k < was.len() && (#[trigger] was[k]).0@
                                                == pairs[j].0;
                                        assert(out@[k].0@ == pairs[j].0);
                                    } else {
                                        assert(out@[was.len() as int].0@ == pairs[j].0);
                                    }
                                }
                                assert forall|k: int| 0 <= k < out@.len() implies exists|j: int|
                                    0 <= j < i + 1 && (#[trigger] pairs[j]).0 == (
                                    #[trigger] out@[k]).0@ by {
                                    if k < was.len() {
                                        let j = choose|j: int|
                                            0 <= j < i && (#[trigger] pairs[j]).0 == was[k].0@;
                                        assert(pairs[j].0 == out@[k].0@);
                                    } else {
                                        assert(pairs[i as int].0 == out@[k].0@);
                                    }
                                }
                            }
                        }
                    },
                    Err(_) => {},
                }
            }
            i = i + 1;
        }
        proof {
            let l = Seq::new(out@.len(), |k: int| out@[k].0@);
            assert(items_ascend::<Address>(l)) by {
                assert forall|a: int, b: int| 0 <= a < b < l.len() implies <Address as Key>::precedes(
                    #[trigger] l[a],
                    #[trigger] l[b],
                ) by {
                    assert(text_before(out@[a].0@, out@[b].0@));
                }
            }
            assert forall|a: Seq<char>| #[trigger] s.qualifies(a) <==> exists|k: int|
                0 <= k < out@.len() && (#[trigger] out@[k]).0@ == a by {
                if s.qualifies(a) {
                    assert(s.accounts.contains_key(a));
                    let j = choose|j: int| 0 <= j < pairs.len() && #[trigger] pairs[j].0 == a;
                    assert(s.qualifies(pairs[j].0));
                }
            }
            assert(l.to_set() =~= s.qualifying()) by {
                assert forall|a: Seq<char>| l.to_set().contains(a) == #[trigger] s.qualifying().contains(
                    a,
                ) by {
                    if s.qualifies(a) {
                        let k = choose|k: int| 0 <= k < out@.len() && (#[trigger] out@[k]).0@ == a;
                        assert(l[k] == a);
                    }
                    if l.contains(a) {
                        let k = choose|k: int| 0 <= k < l.len() && l[k] == a;
                        assert(out@[k].0@ == a);
                    }
                }
            }
            listing_is_in_key_order::<Address>(l);
            assert(funded(out@) =~= s.staker_list());
        }
        out
    }

    /// Appends a tier's members with their effective stakes.
    fn push_tier(&self, tier: &KeySet<Address>, probationary: bool, out: &mut Vec<(Address, u64, bool)>)
        ensures
            members(final(out)@) == members(old(out)@) + self@.tier(tier@, probationary),
    {
        let n: usize = tier.len();
        let ghost start = members(out@);
        let ghost whole = self@.tier(tier@, probationary);
        let mut i: usize = 0;
        proof {
            assert(whole.take(0) =~= Seq::empty());
            assert(start + Seq::empty() =~= start);
        }
        while i < n
            invariant
                i <= n == tier.items().len(),
                tier.items() == in_key_order::<Address>(tier@),
                whole == self@.tier(tier@, probationary),
                members(out@) == start + whole.take(i as int),
            decreases n - i,
        {
            let ghost was = out@;
            let a = tier.item_at(i).clone();
            let stake: u64 = self.effective_stake(&a);
            out.push((a, stake, probationary));
            proof {
                let m = (a@, stake, probationary);
                assert(members(out@) =~= members(was).push(m));
                assert(whole.take(i + 1) =~= whole.take(i as int).push(whole[i as int]));
                assert(whole[i as int] == m);
                assert(start + whole.take(i + 1) =~= (start + whole.take(i as int)).push(m));
            }
            i = i + 1;
        }
        proof {
            assert(whole.take(n as int) =~= whole);
        }
    }

    /// The active validators and then the probationers, each in address order;
    /// nothing if nobody is active.
    pub fn tagged_engine_set(&self) -> (r: Vec<(Address, u64, bool)>)
        ensures
            members(r@) == self@.signing_set(),
    {
        let mut out: Vec<(Address, u64, bool)> = Vec::new();
        proof {
            assert(members(out@) =~= Seq::empty());
        }
        if self.active_validators.is_empty() {
            return out;
        }
        self.push_tier(&self.active_validators, false, &mut out);
        self.push_tier(&self.probationary_validators, true, &mut out);
        proof {
            assert(members(out@) =~= self@.signing_set());
        }
        out
    }

    /// The set that the consensus engine is to run.
    pub fn engine_validator_set(&self) -> (r: Vec<(Address, u64, bool)>)
        requires
            self@.accounts_filed(),
        ensures
            members(r@) == self@.engine_set(),
            items_ascend::<Address>(in_key_order::<Address>(self@.full_members())),
    {
        if self.active_validators.len() > 0 {
            return self.tagged_engine_set();
        }
        let stakers = self.stakers();
        let mut out: Vec<(Address, u64, bool)> = Vec::new();
        let mut i: usize = 0;
        while i < stakers.len()
            invariant
                i <= stakers.len(),
                out@.len() == i,
                forall|k: int|
                    0 <= k < i ==> (#[trigger] out@[k]).0@ == stakers@[k].0@ && out@[k].1
                        == stakers@[k].1 && !out@[k].2,
            decreases stakers.len() - i,
        {
            out.push((stakers[i].0.clone(), stakers[i].1, false));
            i = i + 1;
        }
        proof {
            let list = self@.staker_list();
            assert(funded(stakers@).len() == list.len());
            assert forall|k: int| 0 <= k < out@.len() implies members(out@)[k]
                == self@.engine_set()[k] by {
                assert(funded(stakers@)[k] == list[k]);
            }
            assert(members(out@) =~= self@.engine_set());
        }
        out
    }

    /// Ends an epoch: moves validators between the tiers and returns the new signing set.
    pub fn rotate_active_validators(&mut self) -> (r: Vec<(Address, u64, bool)>)
        requires
            old(self)@.accounts_filed(),
        ensures
            final(self)@ == old(self)@.rotated(),
            old(self)@.wf() ==> final(self)@.wf(),
            members(r@) == final(self)@.signing_set(),
    {
        let stakers = self.stakers();
        let mut qualifying: KeySet<Address> = KeySet::new();
        let mut i: usize = 0;
        while i < stakers.len()
            invariant
                i <= stakers.len(),
                forall|a: Seq<char>| #[trigger]
                    qualifying@.contains(a) <==> exists|k: int|
                        0 <= k < i && (#[trigger] stakers@[k]).0@ == a,
            decreases stakers.len() - i,
        {
            let ghost was = qualifying@;
            qualifying.insert(stakers[i].0.clone());
            proof {
                assert forall|a: Seq<char>| #[trigger] qualifying@.contains(a) <==> exists|k: int|
                    0 <= k < i + 1 && (#[trigger] stakers@[k]).0@ == a by {
                    if was.contains(a) {
                        let k = choose|k: int| 0 <= k < i && (#[trigger] stakers@[k]).0@ == a;
                        assert(stakers@[k].0@ == a);
                    }
                    if a == stakers@[i as int].0@ {
                        assert(qualifying@.contains(a));
                    }
                    if exists|k: int| 0 <= k < i + 1 && (#[trigger] stakers@[k]).0@ == a {
                        let k = choose|k: int| 0 <= k < i + 1 && (#[trigger] stakers@[k]).0@ == a;
                        if k < i {
                            assert(was.contains(a));
                        }
                    }
                }
            }
            i = i + 1;
        }
        proof {
            assert(qualifying@ =~= self@.qualifying()) by {
                assert forall|a: Seq<char>| qualifying@.contains(a)
                    == #[trigger] self@.qualifying().contains(a) by {
                    assert(self@.qualifying().contains(a) == self@.qualifies(a));
                }
            }
        }
        let mut active = self.active_validators.intersection(&qualifying);
        let proved = self.probation_seen.intersection(&qualifying);
        let promoted = self.probationary_validators.intersection(&qualifying).intersection(&proved);
        active.insert_all(&promoted);
        let waited = self.pending_validators.intersection(&qualifying);
        let probation = waited.difference(&active);
        let pending = qualifying.difference(&active).difference(&probation);
        self.active_validators = active;
        self.probationary_validators = probation;
        self.pending_validators = pending;
        self.probation_seen = KeySet::new();
        proof {
            if old(self)@.wf() {
                books_keep_wf(old(self)@, self@);
            }
        }
        self.tagged_engine_set()
    }

    /// Whether an address is on probation and has not yet been seen running.
    pub fn probation_proof_outstanding(&self, address: &Address) -> (r: bool)
        ensures
            r == proof_outstanding(self@, address@),
    {
        self.probationary_validators.contains(address) && !self.probation_seen.contains(address)
    }

    /// Marks the probationers among a block's signers, and its proposer, as seen running.
    pub fn record_probation_liveness(&mut self, signers: &KeySet<Address>, proposer: &Address)
        ensures
            final(self)@ == liveness_recorded(old(self)@, signers@, proposer@),
    {
        if self.probationary_validators.is_empty() {
            proof {
                assert(liveness_recorded(self@, signers@, proposer@).probation_seen
                    =~= self@.probation_seen);
            }
            return;
        }
        if self.probationary_validators.contains(proposer) {
            self.probation_seen.insert(proposer.clone());
        }
        let live = signers.intersection(&self.probationary_validators);
        self.probation_seen.insert_all(&live);
        proof {
            assert(self.probation_seen@ =~= liveness_recorded(
                old(self)@,
                signers@,
                proposer@,
            ).probation_seen);
        }
    }

    /// All stake in all accounts: what governance votes are measured against.
    pub fn total_staked(&self) -> (r: u64)
        requires
            total(self@.accounts, by_stake()) <= u64::MAX,
        ensures
            r == total(self@.accounts, by_stake()),
    {
        let n: usize = self.accounts.len();
        let ghost pairs = self.accounts.pairs();
        proof {
            assert(pairs.take(0) =~= Seq::empty());
            total_of_empty::<Seq<char>, AccountModel>(by_stake());
        }
        let mut sum: u64 = 0;
        let mut i: usize = 0;
        while i < n
            invariant
                i <= n == pairs.len(),
                pairs == self.accounts.pairs(),
                self.accounts.in_order(),
                total(map_of(pairs), by_stake()) <= u64::MAX,
                sum == total(map_of(pairs.take(i as int)), by_stake()),
            decreases n - i,
        {
            proof {
                total_of_listing(pairs, by_stake(), i as int);
            }
            sum = sum + self.accounts.value_at(i).staked;
            i = i + 1;
        }
        proof {
            assert(pairs.take(n as int) =~= pairs);
        }
        sum
    }

    /// The largest effective stake of any account with a proper address; 0 if there is none.
    pub fn max_single_stake(&self) -> (r: u64)
        ensures
            is_largest_stake(self@, r),
    {
        let n: usize = self.accounts.len();
        let ghost pairs = self.accounts.pairs();
        let ghost s = self@;
        proof {
            map_of_entries(pairs);
        }
        let mut best: u64 = 0;
        let mut i: usize = 0;
        while i < n
            invariant
                i <= n == pairs.len(),
                pairs == self.accounts.pairs(),
                s == self@,
                forall|j: int| 0 <= j < n ==> s.accounts.contains_key((#[trigger] pairs[j]).0),
                forall|j: int|
                    0 <= j < i && address_fault((#[trigger] pairs[j]).0) is None ==> s.effective(
                        pairs[j].0,
                    ) <= best,
                best > 0 ==> exists|a: Seq<char>| #[trigger]
                    s.accounts.contains_key(a) && address_fault(a) is None && s.effective(a) == best,
            decreases n - i,
        {
            match Address::from_str(self.accounts.key_at(i).as_str()) {
                Ok(addr) => {
                    let stake: u64 = self.effective_stake(&addr);
                    if stake > best {
                        proof {
                            assert(s.accounts.contains_key(pairs[i as int].0));
                        }
                        best = stake;
                    }
                },
                Err(_) => {},
            }
            i = i + 1;
        }
        proof {
            assert forall|a: Seq<char>| #[trigger]
                s.accounts.contains_key(a) && address_fault(a) is None implies s.effective(a)
                <= best by {
                let j = choose|j: int| 0 <= j < pairs.len() && #[trigger] pairs[j].0 == a;
            }
        }
        best
    }

    /// What a delegator could redeem from a validator's pool.
    pub fn delegation_value(&self, validator: &Address, delegator: &Address) -> (r: Option<u64>)
        requires
            redemption_fits(self@, validator@, delegator@),
        ensures
            r == redeemable(self@, validator@, delegator@),
    {
        let key = validator.to_string();
        match self.validator_pools.get(&key) {
            None => None,
            Some(pool) => {
                if pool.total_shares == 0 {
                    return None;
                }
                match self.delegator_shares.get(&key) {
                    None => None,
                    Some(positions) => match positions.get(&delegator.to_string()) {
                        None => None,
                        Some(shares) => {
                            proof {
                                product_fits(*shares, pool.total_delegated_stake);
                            }
                            Some(
                                (*shares as u128 * pool.total_delegated_stake as u128
                                    / pool.total_shares as u128) as u64,
                            )
                        },
                    },
                }
            },
        }
    }
}

/// The value of some of a pool's shares is at most the pool's value, and
/// reckoning it does not overflow.
pub proof fn value_fits(shares: int, value: int, all_shares: int)
    requires
        0 <= shares <= all_shares <= u64::MAX,
        0 < all_shares,
        0 <= value <= u64::MAX,
    ensures
        0 <= shares * value <= u128::MAX,
        0 <= shares * value / all_shares <= value,
{
    assert(0 <= shares * value <= all_shares * value) by (nonlinear_arith)
        requires
            0 <= shares <= all_shares,
            0 <= value,
    ;
    assert(all_shares * value <= 0xffff_ffff_ffff_ffff * 0xffff_ffff_ffff_ffff) by (nonlinear_arith)
        requires
            0 <= all_shares <= 0xffff_ffff_ffff_ffff,
            0 <= value <= 0xffff_ffff_ffff_ffff,
    ;
    vstd::arithmetic::div_mod::lemma_div_is_ordered(shares * value, all_shares * value, all_shares);
    vstd::arithmetic::div_mod::lemma_div_multiples_vanish(value, all_shares);
    vstd::arithmetic::div_mod::lemma_div_pos_is_pos(shares * value, all_shares);
}

/// The value of some of a pool's shares, rounded down.
pub open spec fn share_value(shares: u64, pool: DelegationPool) -> u64 {
    (shares as int * pool.total_delegated_stake as int / pool.total_shares as int) as u64
}

/// What a delegator could redeem from a validator's pool is a number, as it is
/// whenever nobody holds shares that the pool has not issued.
pub open spec fn redemption_fits(s: StateModel, validator: Seq<char>, delegator: Seq<char>) -> bool {
    s.validator_pools.contains_key(validator) && s.validator_pools[validator].total_shares > 0
        && s.shares_of(validator, delegator) is Some ==> s.shares_of(validator, delegator)->0 as int
        * s.validator_pools[validator].total_delegated_stake as int
        / s.validator_pools[validator].total_shares as int <= u64::MAX
}

proof fn product_fits(a: u64, b: u64)
    ensures
        0 <= a as int * b as int <= u128::MAX,
{
    assert(0 <= a as int * b as int <= 0xffff_ffff_ffff_ffff * 0xffff_ffff_ffff_ffff)
        by (nonlinear_arith)
        requires
            0 <= a <= 0xffff_ffff_ffff_ffff,
            0 <= b <= 0xffff_ffff_ffff_ffff,
    ;
}

/// In a well-formed state every position can be redeemed, and all stake added up.
pub proof fn well_formed_sums_fit(s: StateModel, validator: Seq<char>, delegator: Seq<char>)
    requires
        s.wf(),
    ensures
        redemption_fits(s, validator, delegator),
        total(s.accounts, by_stake()) <= s.wealth(),
{
    total_is_monotone(s.accounts, by_stake(), by_account_value());
    if s.shares_of(validator, delegator) is Some {
        position_within_pool(s, validator, delegator);
        let pool = s.validator_pools[validator];
        if pool.total_shares > 0 {
            value_fits(
                s.shares_of(validator, delegator)->0 as int,
                pool.total_delegated_stake as int,
                pool.total_shares as int,
            );
        }
    }
}

/// What a delegator could redeem from a validator's pool.
pub open spec fn redeemable(s: StateModel, validator: Seq<char>, delegator: Seq<char>) -> Option<
    u64,
> {
    if !s.validator_pools.contains_key(validator) || s.validator_pools[validator].total_shares
        == 0 {
        None
    } else {
        match s.shares_of(validator, delegator) {
            None => None,
            Some(n) => Some(share_value(n, s.validator_pools[validator])),
        }
    }
}

/// The number is the largest effective stake of any account with a proper address.
pub open spec fn is_largest_stake(s: StateModel, n: u64) -> bool {
    &&& forall|a: Seq<char>| #[trigger]
        s.accounts.contains_key(a) && address_fault(a) is None ==> s.effective(a) <= n
    &&& n > 0 ==> exists|a: Seq<char>| #[trigger]
        s.accounts.contains_key(a) && address_fault(a) is None && s.effective(a) == n
}

/// The address is on probation and has not been seen running.
pub open spec fn proof_outstanding(s: StateModel, a: Seq<char>) -> bool {
    s.probationary_validators.contains(a) && !s.probation_seen.contains(a)
}

/// The probationers among a block's signers and its proposer have been seen.
pub open spec fn liveness_recorded(
    s: StateModel,
    signers: Set<Seq<char>>,
    proposer: Seq<char>,
) -> StateModel {
    StateModel {
        probation_seen: s.probation_seen.union(
            signers.insert(proposer).intersect(s.probationary_validators),
        ),
        ..s
    }
}

/// After an epoch the three tiers are disjoint, everyone in them qualifies, and
/// everyone who qualifies is in one of them.
pub proof fn tiers_partition_the_qualifying(s: StateModel)
    ensures
        ({
            let t = s.rotated();
            &&& t.active_validators.disjoint(t.probationary_validators)
            &&& t.active_validators.disjoint(t.pending_validators)
            &&& t.probationary_validators.disjoint(t.pending_validators)
            &&& t.active_validators.union(t.probationary_validators).union(t.pending_validators)
                == s.qualifying()
        }),
{
    let t = s.rotated();
    assert(t.active_validators.union(t.probationary_validators).union(t.pending_validators)
        =~= s.qualifying());
}

/// An account joins the active validators only from probation, and only if it was
/// seen running; whoever was active and still qualifies stays.
pub proof fn only_seen_probationers_are_promoted(s: StateModel, a: Seq<char>)
    ensures
        s.rotated().active_validators.contains(a) && !s.active_validators.contains(a)
            ==> s.probationary_validators.contains(a) && s.probation_seen.contains(a),
        s.active_validators.contains(a) && s.qualifies(a) ==> s.rotated().active_validators.contains(
            a,
        ),
{
}

/// A stake with no running node behind it never gains voting power: whatever tier
/// it waits in, it is not active after an epoch in which it was not seen.
pub proof fn phantoms_stay_powerless(s: StateModel, a: Seq<char>)
    requires
        !s.active_validators.contains(a),
        !s.probation_seen.contains(a),
    ensures
        !s.rotated().active_validators.contains(a),
        s.qualifies(a) && s.probationary_validators.contains(a) && !s.pending_validators.contains(a)
            ==> s.rotated().pending_validators.contains(a),
{
}

} // verus!
