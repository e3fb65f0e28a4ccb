//! The supply schedule and the state a chain starts from.
use crate::crypto::{Address, PublicKey};
use crate::executor::account::AccountModel;
use crate::executor::governance::GovernanceParams;
use crate::executor::state::{blank_state, funded, key_bytes, ChainState, StateModel};
use crate::executor::value::{account_keeps_wf, account_within_wealth, books_keep_wf};
use vstd::prelude::*;

verus! {

pub const NANO_PER_HLX: u64 = 1_000_000_000;

/// Never more than this exists.
pub const TOTAL_SUPPLY_HLX: u64 = 33_000_000;

/// Stake that a validator needs, until a vote changes it.
pub const MIN_VALIDATOR_STAKE: u64 = 100_000 * NANO_PER_HLX;

/// Stake of a fresh chain's first validator.
pub const VALIDATOR_GENESIS_STAKE_HLX: u64 = 100_000;

/// Liquid balance of a fresh chain's first validator, beside its stake.
pub const VALIDATOR_GENESIS_LIQUID_HLX: u64 = 500_000;

/// Reward of a block before the first halving.
pub const INITIAL_BLOCK_REWARD_HLX: u64 = 1;

/// Blocks between two halvings: a year of two-second blocks.
pub const HALVING_INTERVAL_BLOCKS: u64 = 15_768_000;

/// A number halved, rounding down, so many times.
pub open spec fn halved(n: nat, times: nat) -> nat
    decreases times,
{
    if times == 0 {
        n
    } else {
        halved(n, (times - 1) as nat) / 2
    }
}

/// The reward that the schedule gives a block: the initial reward, halved once for every
/// interval that has passed.
pub open spec fn block_reward(height: nat) -> nat {
    halved(
        (INITIAL_BLOCK_REWARD_HLX * NANO_PER_HLX) as nat,
        height / (HALVING_INTERVAL_BLOCKS as nat),
    )
}

proof fn halved_decreases(n: nat, a: nat, b: nat)
    requires
        a <= b,
    ensures
        halved(n, b) <= halved(n, a) <= n,
    decreases b,
{
    if b > 0 {
        if a < b {
            halved_decreases(n, a, (b - 1) as nat);
        } else {
            halved_decreases(n, (a - 1) as nat, (b - 1) as nat);
        }
    }
}

proof fn halved_is_shifted(n: u64, times: u64)
    requires
        times < 64,
    ensures
        halved(n as nat, times as nat) == n >> times,
    decreases times,
{
    if times == 0 {
        assert(n >> 0u64 == n) by (bit_vector);
    } else {
        let t: u64 = (times - 1) as u64;
        halved_is_shifted(n, t);
        assert(n >> times == (n >> t) / 2) by (bit_vector)
            requires
                0 < times < 64,
                t == times - 1,
        ;
    }
}

proof fn reward_dies_out(times: nat)
    requires
        times >= 30,
    ensures
        halved(1_000_000_000, times) == 0,
{
    reveal_with_fuel(halved, 31);
    assert(halved(1_000_000_000, 30) == 0);
    halved_decreases(1_000_000_000, 30, times);
}

/// The scheduled reward for a block, in nano-HLX. It does not know of the supply
/// cap: whoever mints it does.
pub fn scheduled_block_reward(height: u64) -> (r: u64)
    ensures
        r == block_reward(height as nat),
        r <= INITIAL_BLOCK_REWARD_HLX * NANO_PER_HLX,
{
    let era: u64 = height / HALVING_INTERVAL_BLOCKS;
    proof {
        halved_decreases(1_000_000_000, 0, era as nat);
    }
    if era >= 64 {
        proof {
            reward_dies_out(era as nat);
        }
        return 0;
    }
    proof {
        halved_is_shifted(1_000_000_000, era);
    }
    (INITIAL_BLOCK_REWARD_HLX * NANO_PER_HLX) >> era
}

/// A later block is never scheduled a larger reward.
pub proof fn block_reward_never_rises(earlier: nat, later: nat)
    requires
        earlier <= later,
    ensures
        block_reward(later) <= block_reward(earlier),
{
    let interval = HALVING_INTERVAL_BLOCKS as nat;
    assert(earlier / interval <= later / interval) by {
        vstd::arithmetic::div_mod::lemma_div_is_ordered(
            earlier as int,
            later as int,
            interval as int,
        );
    }
    halved_decreases(
        (INITIAL_BLOCK_REWARD_HLX * NANO_PER_HLX) as nat,
        earlier / interval,
        later / interval,
    );
}

/// After thirty halvings there is no reward any more.
pub proof fn block_reward_ends(height: nat)
    requires
        height >= 30 * HALVING_INTERVAL_BLOCKS,
    ensures
        block_reward(height) == 0,
{
    vstd::arithmetic::div_mod::lemma_div_is_ordered(
        30 * HALVING_INTERVAL_BLOCKS as int,
        height as int,
        HALVING_INTERVAL_BLOCKS as int,
    );
    reward_dies_out(height / (HALVING_INTERVAL_BLOCKS as nat));
}

/// What a chain starts from.
pub struct GenesisConfig {
    pub validator: Address,
    /// Liquid balances at genesis.
    pub allocations: Vec<(Address, u64)>,
    /// Keys that may vouch for a person. With none, nobody can be verified.
    pub personhood_authorities: Vec<PublicKey>,
    /// Further validators with their stakes.
    pub extra_validators: Vec<(Address, u64)>,
    /// Stake of `validator`.
    pub validator_stake: u64,
}

/// The amounts of a list, added up.
pub open spec fn sum_of(s: Seq<(Seq<char>, u64)>) -> nat
    decreases s.len(),
{
    if s.len() == 0 {
        0
    } else {
        sum_of(s.drop_last()) + s.last().1 as nat
    }
}

/// Everything that a genesis issues.
pub open spec fn issue_of(cfg: GenesisConfig) -> nat {
    sum_of(funded(cfg.allocations@)) + cfg.validator_stake as nat + sum_of(
        funded(cfg.extra_validators@),
    )
}

/// Balances set one after another.
pub open spec fn with_balances(s: StateModel, list: Seq<(Seq<char>, u64)>) -> StateModel
    decreases list.len(),
{
    if list.len() == 0 {
        s
    } else {
        let t = with_balances(s, list.drop_last());
        t.with_account(
            list.last().0,
            AccountModel { balance: list.last().1, ..t.account(list.last().0) },
        )
    }
}

/// Stakes set one after another.
pub open spec fn with_stakes(s: StateModel, list: Seq<(Seq<char>, u64)>) -> StateModel
    decreases list.len(),
{
    if list.len() == 0 {
        s
    } else {
        let t = with_stakes(s, list.drop_last());
        t.with_account(
            list.last().0,
            AccountModel { staked: list.last().1, ..t.account(list.last().0) },
        )
    }
}

/// The addresses of a list.
pub open spec fn named(list: Seq<(Seq<char>, u64)>) -> Set<Seq<char>> {
    list.map_values(|e: (Seq<char>, u64)| e.0).to_set()
}

/// The state that a chain starts from: the configured balances and stakes, the
/// whole issue on the books, and the staked validators active from the first block.
pub open spec fn genesis_model(
    validator: Seq<char>,
    authorities: Seq<Seq<u8>>,
    extra: Seq<(Seq<char>, u64)>,
    validator_stake: u64,
    allocations: Seq<(Seq<char>, u64)>,
) -> StateModel {
    let first = seq![(validator, validator_stake)];
    let s = with_stakes(
        with_stakes(
            with_balances(
                blank_state((TOTAL_SUPPLY_HLX * NANO_PER_HLX) as u64),
                allocations,
            ),
            first,
        ),
        extra,
    );
    StateModel {
        total_issued: (sum_of(allocations) + validator_stake + sum_of(extra)) as u64,
        personhood_authorities: authorities,
        genesis_validator_stake: validator_stake,
        genesis_allocations: allocations,
        genesis_extra_validators: extra,
        active_validators: named(extra).insert(validator),
        ..s
    }
}

/// The state that a configuration describes.
pub open spec fn genesis_state(cfg: GenesisConfig) -> StateModel {
    genesis_model(
        cfg.validator@,
        key_bytes(cfg.personhood_authorities@),
        funded(cfg.extra_validators@),
        cfg.validator_stake,
        funded(cfg.allocations@),
    )
}

pub(crate) fn copy_funded(list: &Vec<(Address, u64)>) -> (r: Vec<(Address, u64)>)
    ensures
        funded(r@) == funded(list@),
{
    let mut r: Vec<(Address, u64)> = Vec::new();
    let mut i: usize = 0;
    while i < list.len()
        invariant
            i <= list@.len(),
            r@.len() == i,
            forall|k: int|
                0 <= k < i ==> (#[trigger] r@[k]).0@ == list@[k].0@ && r@[k].1 == list@[k].1,
        decreases list.len() - i,
    {
        r.push((list[i].0.clone(), list[i].1));
        i = i + 1;
    }
    assert(funded(r@) =~= funded(list@));
    r
}

pub(crate) fn copy_keys(list: &Vec<PublicKey>) -> (r: Vec<PublicKey>)
    ensures
        key_bytes(r@) == key_bytes(list@),
{
    let mut r: Vec<PublicKey> = Vec::new();
    let mut i: usize = 0;
    while i < list.len()
        invariant
            i <= list@.len(),
            r@.len() == i,
            forall|k: int| 0 <= k < i ==> (#[trigger] r@[k])@ == list@[k]@,
        decreases list.len() - i,
    {
        r.push(list[i].clone());
        i = i + 1;
    }
    assert(key_bytes(r@) =~= key_bytes(list@));
    r
}

proof fn sum_grows(list: Seq<(Seq<char>, u64)>, i: int)
    requires
        0 <= i <= list.len(),
    ensures
        sum_of(list.take(i)) <= sum_of(list),
    decreases list.len() - i,
{
    if i == list.len() {
        assert(list.take(i) =~= list);
    } else {
        sum_grows(list, i + 1);
        assert(list.take(i + 1).drop_last() =~= list.take(i));
    }
}

/// An account without a balance is given one.
proof fn balance_set(s: StateModel, a: Seq<char>, amount: u64)
    requires
        s.wf(),
        s.wealth() + amount <= u64::MAX,
    ensures
        ({
            let t = s.with_account(a, AccountModel { balance: amount, ..s.account(a) });
            t.wf() && t.wealth() <= s.wealth() + amount
        }),
{
    account_within_wealth(s, a);
    crate::executor::payments::account_address(s, a);
    account_keeps_wf(s, a, AccountModel { balance: amount, ..s.account(a) });
}

proof fn stake_set(s: StateModel, a: Seq<char>, amount: u64)
    requires
        s.wf(),
        s.wealth() + amount <= u64::MAX,
    ensures
        ({
            let t = s.with_account(a, AccountModel { staked: amount, ..s.account(a) });
            t.wf() && t.wealth() <= s.wealth() + amount
        }),
{
    account_within_wealth(s, a);
    crate::executor::payments::account_address(s, a);
    account_keeps_wf(s, a, AccountModel { staked: amount, ..s.account(a) });
}

impl GenesisConfig {
    /// A fresh chain with one validator.
    pub fn devnet(validator: Address) -> (r: Self)
        ensures
            is_devnet(r, validator@, Seq::empty()),
    {
        let r = Self::devnet_with_personhood_authority(validator, Vec::new());
        assert(key_bytes(r.personhood_authorities@) =~= Seq::empty());
        r
    }

    /// A fresh chain with one validator and keys that may vouch for a person. The
    /// validator's liquid reserve is an allocation like any other, so that a node
    /// that joins later is told of it.
    pub fn devnet_with_personhood_authority(
        validator: Address,
        personhood_authorities: Vec<PublicKey>,
    ) -> (r: Self)
        ensures
            is_devnet(r, validator@, key_bytes(personhood_authorities@)),
    {
        let mut allocations: Vec<(Address, u64)> = Vec::new();
        allocations.push((validator.clone(), VALIDATOR_GENESIS_LIQUID_HLX * NANO_PER_HLX));
        let r = GenesisConfig {
            allocations,
            validator,
            personhood_authorities,
            extra_validators: Vec::new(),
            validator_stake: VALIDATOR_GENESIS_STAKE_HLX * NANO_PER_HLX,
        };
        proof {
            assert(funded(r.allocations@) =~= seq![
                (validator@, (VALIDATOR_GENESIS_LIQUID_HLX * NANO_PER_HLX) as u64),
            ]);
            assert(funded(r.extra_validators@) =~= Seq::empty());
        }
        r
    }

    /// The state that the chain starts from.
    pub fn build_state(&self) -> (r: ChainState)
        requires
            issue_of(*self) <= u64::MAX,
        ensures
            r@ == genesis_state(*self),
            r@.wf(),
            r@.wealth() <= issue_of(*self),
            issue_of(*self) <= TOTAL_SUPPLY_HLX * NANO_PER_HLX ==> r@.solvent(),
    {
        let mut state = ChainState::new(TOTAL_SUPPLY_HLX * NANO_PER_HLX);
        let ghost s0 = state@;
        let ghost allocations = funded(self.allocations@);
        let ghost extra = funded(self.extra_validators@);
        let mut issued: u64 = 0;
        let mut i: usize = 0;
        proof {
            assert(allocations.take(0) =~= Seq::empty());
            crate::sums::total_of_empty::<Seq<char>, AccountModel>(
                crate::executor::state::by_account_value(),
            );
            crate::sums::total_of_empty::<
                Seq<char>,
                crate::executor::account::DelegationPool,
            >(crate::executor::state::by_pool_value());
        }
        while i < self.allocations.len()
            invariant
                i <= self.allocations@.len(),
                allocations == funded(self.allocations@),
                issue_of(*self) <= u64::MAX,
                sum_of(allocations) <= issue_of(*self),
                state@ == with_balances(s0, allocations.take(i as int)),
                state@.wf(),
                issued == sum_of(allocations.take(i as int)),
                state@.wealth() <= issued,
            decreases self.allocations.len() - i,
        {
            let ghost a = self.allocations@[i as int].0@;
            let nano: u64 = self.allocations[i].1;
            proof {
                assert(allocations.take(i + 1).drop_last() =~= allocations.take(i as int));
                assert(allocations.take(i + 1).last() == (a, nano));
                sum_grows(allocations, i + 1);
                balance_set(state@, a, nano);
            }
            state.set_balance(&self.allocations[i].0, nano);
            issued = issued + nano;
            i = i + 1;
        }
        proof {
            assert(allocations.take(i as int) =~= allocations);
        }
        let ghost s1 = state@;
        let ghost first = seq![(self.validator@, self.validator_stake)];
        proof {
            stake_set(s1, self.validator@, self.validator_stake);
            assert(first.drop_last() =~= Seq::empty());
            assert(with_stakes(s1, first.drop_last()) == s1);
        }
        state.set_validator_stake(&self.validator, self.validator_stake);
        issued = issued + self.validator_stake;
        let ghost s2 = state@;
        let ghost before_extra = issued;
        let mut active: crate::table::KeySet<Address> = crate::table::KeySet::new();
        let mut j: usize = 0;
        proof {
            assert(extra.take(0) =~= Seq::empty());
            assert(named(extra.take(0)) =~= Set::empty());
        }
        while j < self.extra_validators.len()
            invariant
                j <= self.extra_validators@.len(),
                extra == funded(self.extra_validators@),
                issue_of(*self) <= u64::MAX,
                before_extra + sum_of(extra) == issue_of(*self),
                state@ == with_stakes(s2, extra.take(j as int)),
                state@.wf(),
                issued == before_extra + sum_of(extra.take(j as int)),
                state@.wealth() <= issued,
                active@ == named(extra.take(j as int)),
            decreases self.extra_validators.len() - j,
        {
            let ghost a = self.extra_validators@[j as int].0@;
            let stake: u64 = self.extra_validators[j].1;
            proof {
                let t = extra.take(j as int);
                assert(extra.take(j + 1).drop_last() =~= t);
                assert(extra.take(j + 1).last() == (a, stake));
                sum_grows(extra, j + 1);
                stake_set(state@, a, stake);
                let names = t.map_values(|e: (Seq<char>, u64)| e.0);
                assert(extra.take(j + 1).map_values(|e: (Seq<char>, u64)| e.0) =~= names.push(a));
                names.lemma_push_to_set_commute(a);
            }
            state.set_validator_stake(&self.extra_validators[j].0, stake);
            active.insert(self.extra_validators[j].0.clone());
            issued = issued + stake;
            j = j + 1;
        }
        proof {
            assert(extra.take(j as int) =~= extra);
        }
        active.insert(self.validator.clone());
        let ghost s3 = state@;
        proof {
            stakes_leave_books(s2, extra);
            stakes_leave_books(s1, first);
            balances_leave_books(s0, allocations);
        }
        state.genesis_allocations = copy_funded(&self.allocations);
        state.genesis_validator_stake = self.validator_stake;
        state.genesis_extra_validators = copy_funded(&self.extra_validators);
        state.active_validators = active;
        state.total_issued = issued;
        state.personhood_authorities = copy_keys(&self.personhood_authorities);
        proof {
            books_keep_wf(s3, state@);
        }
        state
    }
}

proof fn balances_leave_books(s: StateModel, list: Seq<(Seq<char>, u64)>)
    ensures
        with_balances(s, list) == (StateModel { accounts: with_balances(s, list).accounts, ..s }),
    decreases list.len(),
{
    if list.len() > 0 {
        balances_leave_books(s, list.drop_last());
    }
}

proof fn stakes_leave_books(s: StateModel, list: Seq<(Seq<char>, u64)>)
    ensures
        with_stakes(s, list) == (StateModel { accounts: with_stakes(s, list).accounts, ..s }),
    decreases list.len(),
{
    if list.len() > 0 {
        stakes_leave_books(s, list.drop_last());
    }
}

/// The configuration of a fresh chain.
pub open spec fn is_devnet(
    cfg: GenesisConfig,
    validator: Seq<char>,
    authorities: Seq<Seq<u8>>,
) -> bool {
    &&& cfg.validator@ == validator
    &&& funded(cfg.allocations@) == seq![
        (validator, (VALIDATOR_GENESIS_LIQUID_HLX * NANO_PER_HLX) as u64),
    ]
    &&& key_bytes(cfg.personhood_authorities@) == authorities
    &&& funded(cfg.extra_validators@) == Seq::<(Seq<char>, u64)>::empty()
    &&& cfg.validator_stake == VALIDATOR_GENESIS_STAKE_HLX * NANO_PER_HLX
}

/// The genesis state of a chain, from what cannot be read off its first block.
pub fn rebuild_genesis_state(
    validator: Address,
    personhood_authorities: Vec<PublicKey>,
    extra_validators: Vec<(Address, u64)>,
    validator_stake: u64,
    allocations: Vec<(Address, u64)>,
    governance_params: GovernanceParams,
) -> (r: ChainState)
    requires
        sum_of(funded(allocations@)) + validator_stake + sum_of(funded(extra_validators@))
            <= u64::MAX,
    ensures
        r@ == (StateModel {
            governance_params,
            ..genesis_model(
                validator@,
                key_bytes(personhood_authorities@),
                funded(extra_validators@),
                validator_stake,
                funded(allocations@),
            )
        }),
        r@.wf(),
{
    let mut cfg = GenesisConfig::devnet_with_personhood_authority(validator, personhood_authorities);
    cfg.extra_validators = extra_validators;
    cfg.validator_stake = validator_stake;
    cfg.allocations = allocations;
    let mut state = cfg.build_state();
    let ghost before = state@;
    state.governance_params = governance_params;
    proof {
        books_keep_wf(before, state@);
        assert(state@ == (StateModel { governance_params, ..genesis_state(cfg) }));
    }
    state
}

/// A fresh chain starts solvent, with less than two percent of the supply issued.
pub proof fn fresh_chain_is_no_premine(cfg: GenesisConfig, validator: Seq<char>)
    requires
        is_devnet(cfg, validator, Seq::empty()),
    ensures
        issue_of(cfg) == (VALIDATOR_GENESIS_STAKE_HLX + VALIDATOR_GENESIS_LIQUID_HLX) * NANO_PER_HLX,
        issue_of(cfg) * 50 < TOTAL_SUPPLY_HLX * NANO_PER_HLX,
{
    reveal_with_fuel(sum_of, 2);
    let a = funded(cfg.allocations@);
    assert(a.drop_last() =~= Seq::empty());
}

/// No two entries of a list are for the same address.
pub open spec fn addresses_differ(list: Seq<(Seq<char>, u64)>) -> bool {
    forall|i: int, j: int|
        0 <= i < list.len() && 0 <= j < list.len() && i != j ==> #[trigger] list[i].0
            != #[trigger] list[j].0
}

/// An entry of a list is for this address.
pub open spec fn lists(list: Seq<(Seq<char>, u64)>, a: Seq<char>) -> bool {
    exists|i: int| 0 <= i < list.len() && (#[trigger] list[i]).0 == a
}

/// Balances that are set for different addresses are all there, and nothing else is.
proof fn balances_are(s: StateModel, list: Seq<(Seq<char>, u64)>)
    requires
        s.accounts.dom().finite(),
        addresses_differ(list),
    ensures
        ({
            let t = with_balances(s, list);
            &&& t.accounts.dom().finite()
            &&& forall|i: int|
                0 <= i < list.len() ==> t.account((#[trigger] list[i]).0).balance == list[i].1
            &&& forall|a: Seq<char>|
                !lists(list, a) ==> (#[trigger] t.account(a)).balance == s.account(a).balance
            &&& forall|a: Seq<char>| (#[trigger] t.account(a)).staked == s.account(a).staked
            &&& (forall|a: Seq<char>| lists(list, a) ==> (#[trigger] s.account(a)).balance == 0)
                ==> t.wealth() == s.wealth() + sum_of(list)
        }),
    decreases list.len(),
{
    if list.len() > 0 {
        let front = list.drop_last();
        let (a, amount) = list.last();
        let n = front.len() as int;
        balances_are(s, front);
        let t = with_balances(s, front);
        crate::executor::value::wealth_with_account(
            t,
            a,
            AccountModel { balance: amount, ..t.account(a) },
        );
        assert(!lists(front, a)) by {
            if lists(front, a) {
                let i = choose|i: int| 0 <= i < front.len() && (#[trigger] front[i]).0 == a;
                assert(list[i].0 == list[n].0);
            }
        }
        assert forall|i: int| 0 <= i < list.len() implies with_balances(s, list).account(
            (#[trigger] list[i]).0,
        ).balance == list[i].1 by {
            if i < n {
                assert(front[i] == list[i]);
                assert(list[i].0 != list[n].0);
            }
        }
        assert forall|b: Seq<char>| !lists(list, b) implies (#[trigger] with_balances(
            s,
            list,
        ).account(b)).balance == s.account(b).balance by {
            assert(list[n].0 == a);
            if lists(front, b) {
                let i = choose|i: int| 0 <= i < front.len() && (#[trigger] front[i]).0 == b;
                assert(list[i].0 == b);
            }
            assert(t.account(b).balance == s.account(b).balance);
        }
        assert forall|b: Seq<char>| (#[trigger] with_balances(s, list).account(b)).staked
            == s.account(b).staked by {
            assert(t.account(b).staked == s.account(b).staked);
        }
        if forall|b: Seq<char>| lists(list, b) ==> (#[trigger] s.account(b)).balance == 0 {
            assert forall|b: Seq<char>| lists(front, b) implies (#[trigger] s.account(b)).balance
                == 0 by {
                let i = choose|i: int| 0 <= i < front.len() && (#[trigger] front[i]).0 == b;
                assert(list[i].0 == b);
            }
            assert(list[n].0 == a);
            assert(s.account(a).balance == 0);
            assert(t.account(a).balance == 0);
        }
    }
}

/// Stakes that are set for different addresses are all there, and nothing else is.
proof fn stakes_are(s: StateModel, list: Seq<(Seq<char>, u64)>)
    requires
        s.accounts.dom().finite(),
        addresses_differ(list),
    ensures
        ({
            let t = with_stakes(s, list);
            &&& t.accounts.dom().finite()
            &&& forall|i: int|
                0 <= i < list.len() ==> t.account((#[trigger] list[i]).0).staked == list[i].1
            &&& forall|a: Seq<char>|
                !lists(list, a) ==> (#[trigger] t.account(a)).staked == s.account(a).staked
            &&& forall|a: Seq<char>| (#[trigger] t.account(a)).balance == s.account(a).balance
            &&& (forall|a: Seq<char>| lists(list, a) ==> (#[trigger] s.account(a)).staked == 0)
                ==> t.wealth() == s.wealth() + sum_of(list)
        }),
    decreases list.len(),
{
    if list.len() > 0 {
        let front = list.drop_last();
        let (a, amount) = list.last();
        let n = front.len() as int;
        stakes_are(s, front);
        let t = with_stakes(s, front);
        crate::executor::value::wealth_with_account(
            t,
            a,
            AccountModel { staked: amount, ..t.account(a) },
        );
        assert(!lists(front, a)) by {
            if lists(front, a) {
                let i = choose|i: int| 0 <= i < front.len() && (#[trigger] front[i]).0 == a;
                assert(list[i].0 == list[n].0);
            }
        }
        assert forall|i: int| 0 <= i < list.len() implies with_stakes(s, list).account(
            (#[trigger] list[i]).0,
        ).staked == list[i].1 by {
            if i < n {
                assert(front[i] == list[i]);
                assert(list[i].0 != list[n].0);
            }
        }
        assert forall|b: Seq<char>| !lists(list, b) implies (#[trigger] with_stakes(
            s,
            list,
        ).account(b)).staked == s.account(b).staked by {
            assert(list[n].0 == a);
            if lists(front, b) {
                let i = choose|i: int| 0 <= i < front.len() && (#[trigger] front[i]).0 == b;
                assert(list[i].0 == b);
            }
            assert(t.account(b).staked == s.account(b).staked);
        }
        assert forall|b: Seq<char>| (#[trigger] with_stakes(s, list).account(b)).balance
            == s.account(b).balance by {
            assert(t.account(b).balance == s.account(b).balance);
        }
        if forall|b: Seq<char>| lists(list, b) ==> (#[trigger] s.account(b)).staked == 0 {
            assert forall|b: Seq<char>| lists(front, b) implies (#[trigger] s.account(b)).staked
                == 0 by {
                let i = choose|i: int| 0 <= i < front.len() && (#[trigger] front[i]).0 == b;
                assert(list[i].0 == b);
            }
            assert(list[n].0 == a);
            assert(s.account(a).staked == 0);
            assert(t.account(a).staked == 0);
        }
    }
}

/// A genesis for different addresses pays out what it says: every validator has
/// its stake, balances come from the allocations alone, nobody else has anything,
/// and all that was issued is there.
pub proof fn genesis_pays_what_it_says(
    validator: Seq<char>,
    authorities: Seq<Seq<u8>>,
    extra: Seq<(Seq<char>, u64)>,
    validator_stake: u64,
    allocations: Seq<(Seq<char>, u64)>,
)
    requires
        addresses_differ(allocations),
        addresses_differ(extra),
        !lists(extra, validator),
        sum_of(allocations) + validator_stake + sum_of(extra) <= u64::MAX,
    ensures
        ({
            let s = genesis_model(validator, authorities, extra, validator_stake, allocations);
            &&& s.account(validator).staked == validator_stake
            &&& forall|i: int|
                0 <= i < extra.len() ==> s.account((#[trigger] extra[i]).0).staked == extra[i].1
            &&& forall|a: Seq<char>|
                a != validator && !lists(extra, a) ==> (#[trigger] s.account(a)).staked == 0
            &&& forall|i: int|
                0 <= i < allocations.len() ==> s.account((#[trigger] allocations[i]).0).balance
                    == allocations[i].1
            &&& forall|a: Seq<char>|
                !lists(allocations, a) ==> (#[trigger] s.account(a)).balance == 0
            &&& s.total_issued == sum_of(allocations) + validator_stake + sum_of(extra)
            &&& s.wealth() == s.total_issued
            &&& s.genesis_allocations == allocations
        }),
{
    let s0 = blank_state((TOTAL_SUPPLY_HLX * NANO_PER_HLX) as u64);
    let first = seq![(validator, validator_stake)];
    let s1 = with_balances(s0, allocations);
    let s2 = with_stakes(s1, first);
    let s3 = with_stakes(s2, extra);
    let s = genesis_model(validator, authorities, extra, validator_stake, allocations);
    crate::sums::total_of_empty::<Seq<char>, AccountModel>(
        crate::executor::state::by_account_value(),
    );
    crate::sums::total_of_empty::<Seq<char>, crate::executor::account::DelegationPool>(
        crate::executor::state::by_pool_value(),
    );
    balances_are(s0, allocations);
    stakes_are(s1, first);
    assert(first.drop_last() =~= Seq::empty());
    assert(sum_of(first) == validator_stake) by {
        reveal_with_fuel(sum_of, 2);
    }
    assert forall|a: Seq<char>| lists(extra, a) implies (#[trigger] s2.account(a)).staked == 0 by {
        if lists(first, a) {
            assert(a == validator);
        }
        assert(s1.account(a).staked == s0.account(a).staked);
    }
    stakes_are(s2, extra);
    assert(first[0].0 == validator);
    assert(s3.account(validator).staked == s2.account(validator).staked);
    assert forall|a: Seq<char>| #[trigger] s.account(a) == s3.account(a) by {}
    assert forall|i: int| 0 <= i < allocations.len() implies s.account(
        (#[trigger] allocations[i]).0,
    ).balance == allocations[i].1 by {
        let a = allocations[i].0;
        assert(s3.account(a).balance == s2.account(a).balance);
        assert(s2.account(a).balance == s1.account(a).balance);
    }
    assert forall|a: Seq<char>| !lists(allocations, a) implies (#[trigger] s.account(a)).balance
        == 0 by {
        assert(s3.account(a).balance == s2.account(a).balance);
        assert(s2.account(a).balance == s1.account(a).balance);
    }
    assert forall|a: Seq<char>| a != validator && !lists(extra, a) implies (#[trigger] s.account(
        a,
    )).staked == 0 by {
        assert(!lists(first, a));
        assert(s3.account(a).staked == s2.account(a).staked);
        assert(s2.account(a).staked == s1.account(a).staked);
        assert(s1.account(a).staked == s0.account(a).staked);
    }
    stakes_leave_books(s2, extra);
    stakes_leave_books(s1, first);
    balances_leave_books(s0, allocations);
}

/// A genesis can be rebuilt from what the state itself has on record: a node that
/// joins later arrives at the same state.
pub proof fn genesis_is_on_record(cfg: GenesisConfig)
    ensures
        ({
            let s = genesis_state(cfg);
            s == genesis_model(
                cfg.validator@,
                s.personhood_authorities,
                s.genesis_extra_validators,
                s.genesis_validator_stake,
                s.genesis_allocations,
            )
        }),
{
}

/// At genesis exactly the staked validators are active, the authorities are those
/// named, the supply is thirty-three million coins, and nothing else has happened.
pub proof fn genesis_starts_with_its_validators(
    validator: Seq<char>,
    authorities: Seq<Seq<u8>>,
    extra: Seq<(Seq<char>, u64)>,
    validator_stake: u64,
    allocations: Seq<(Seq<char>, u64)>,
    a: Seq<char>,
)
    ensures
        ({
            let s = genesis_model(validator, authorities, extra, validator_stake, allocations);
            &&& s.active_validators.contains(a) <==> a == validator || lists(extra, a)
            &&& s.total_supply == 33_000_000_000_000_000
            &&& s.total_burned == 0
            &&& s.governance_params.min_validator_stake == 100_000_000_000_000
            &&& s.governance_params.fuel_per_fee_unit == 1
            &&& s == (StateModel {
                accounts: s.accounts,
                total_issued: s.total_issued,
                personhood_authorities: authorities,
                genesis_validator_stake: validator_stake,
                genesis_allocations: allocations,
                genesis_extra_validators: extra,
                active_validators: s.active_validators,
                ..blank_state(33_000_000_000_000_000)
            })
        }),
{
    let s0 = blank_state((TOTAL_SUPPLY_HLX * NANO_PER_HLX) as u64);
    let first = seq![(validator, validator_stake)];
    let s1 = with_balances(s0, allocations);
    stakes_leave_books(with_stakes(s1, first), extra);
    stakes_leave_books(s1, first);
    balances_leave_books(s0, allocations);
    let names = extra.map_values(|e: (Seq<char>, u64)| e.0);
    if names.contains(a) {
        let i = choose|i: int| 0 <= i < names.len() && names[i] == a;
        assert(extra[i].0 == a);
    }
    if lists(extra, a) {
        let i = choose|i: int| 0 <= i < extra.len() && (#[trigger] extra[i]).0 == a;
        assert(names[i] == a);
    }
}

/// A fresh chain gives its validator a hundred thousand coins of stake and half a
/// million of balance, and nobody else anything.
pub proof fn a_fresh_chain_pays_its_validator(
    cfg: GenesisConfig,
    validator: Seq<char>,
    authorities: Seq<Seq<u8>>,
)
    requires
        is_devnet(cfg, validator, authorities),
    ensures
        cfg.validator@ == validator,
        funded(cfg.allocations@) == seq![(validator, 500_000_000_000_000u64)],
        cfg.validator_stake == 100_000_000_000_000,
        cfg.extra_validators@.len() == 0,
        key_bytes(cfg.personhood_authorities@) == authorities,
{
    assert(funded(cfg.extra_validators@).len() == 0);
}

/// A configuration's state has on record what the configuration says.
pub proof fn configurations_are_carried_out(cfg: GenesisConfig)
    ensures
        ({
            let s = genesis_state(cfg);
            &&& s.personhood_authorities == key_bytes(cfg.personhood_authorities@)
            &&& s.genesis_validator_stake == cfg.validator_stake
            &&& s.genesis_allocations == funded(cfg.allocations@)
            &&& s.genesis_extra_validators == funded(cfg.extra_validators@)
            &&& s.active_validators.contains(cfg.validator@)
            &&& issue_of(cfg) <= u64::MAX ==> s.total_issued == issue_of(cfg)
        }),
{
}

/// The amounts of a list are added up, each once.
pub proof fn amounts_are_added_up(list: Seq<(Seq<char>, u64)>, a: Seq<char>, n: u64)
    ensures
        sum_of(Seq::empty()) == 0,
        sum_of(list.push((a, n))) == sum_of(list) + n,
{
    assert(list.push((a, n)).drop_last() =~= list);
}

} // verus!
