//! Voting power, and what a commit certificate proves.
use crate::crypto::Address;
use crate::executor::account::{DOWNTIME_JAIL_THRESHOLD_BLOCKS, MIN_JAIL_BLOCKS};
use crate::executor::governance::supermajority;
use crate::executor::state::{
    account_value, by_account_value, by_pool_value, status_of, ChainState, StateModel, QUORUM_LIMIT,
};
use crate::executor::validators::members;
use crate::identity::personhood::address_texts;
use crate::order::Key;
use crate::sums::total_splits;
use crate::table::{in_key_order, items_ascend, KeySet};
use vstd::prelude::*;

verus! {

/// One member of a validator set.
#[derive(Debug)]
pub struct Validator {
    pub address: Address,
    pub stake: u64,
    pub has_personhood: bool,
    /// In the set to sign, without any say.
    pub probationary: bool,
    pub voting_power: u64,
}

/// A `Validator` with its address as characters.
pub struct ValidatorModel {
    pub address: Seq<char>,
    pub stake: u64,
    pub has_personhood: bool,
    pub probationary: bool,
    pub voting_power: u64,
}

impl View for Validator {
    type V = ValidatorModel;

    open spec fn view(&self) -> ValidatorModel {
        ValidatorModel {
            address: self.address@,
            stake: self.stake,
            has_personhood: self.has_personhood,
            probationary: self.probationary,
            voting_power: self.voting_power,
        }
    }
}

impl Validator {
    /// A full member.
    pub fn new(address: Address, stake: u64, has_personhood: bool) -> (r: Self)
        ensures
            r@ == (ValidatorModel {
                address: address@,
                stake,
                has_personhood,
                probationary: false,
                voting_power: 0,
            }),
    {
        Validator { address, stake, has_personhood, probationary: false, voting_power: 0 }
    }

    /// A member on probation.
    pub fn new_probationary(address: Address, stake: u64, has_personhood: bool) -> (r: Self)
        ensures
            r@ == (ValidatorModel {
                address: address@,
                stake,
                has_personhood,
                probationary: true,
                voting_power: 0,
            }),
    {
        Validator { address, stake, has_personhood, probationary: true, voting_power: 0 }
    }
}

/// The validators in a list.
pub open spec fn validator_models(s: Seq<Validator>) -> Seq<ValidatorModel> {
    Seq::new(s.len(), |i: int| s[i]@)
}

/// The stake of the full members of a list.
pub open spec fn full_stake(s: Seq<ValidatorModel>) -> nat
    decreases s.len(),
{
    if s.len() == 0 {
        0
    } else {
        full_stake(s.drop_last()) + (if s.last().probationary {
            0
        } else {
            s.last().stake as nat
        })
    }
}

/// What a member's stake offers before the cap: all of it for a verified person, half otherwise.
pub open spec fn raw_power(v: ValidatorModel) -> int {
    if v.has_personhood {
        v.stake as int
    } else {
        v.stake as int / 2
    }
}

/// A member's say where all full members have the given stake: what its stake
/// offers, capped at a hundredth of the whole, and nothing on probation.
pub open spec fn power_in(v: ValidatorModel, whole: nat) -> int {
    if v.probationary {
        0
    } else if raw_power(v) <= whole as int / 100 {
        raw_power(v)
    } else {
        whole as int / 100
    }
}

/// A list with every member's voting power set.
pub open spec fn weighed(s: Seq<ValidatorModel>) -> Seq<ValidatorModel> {
    Seq::new(
        s.len(),
        |i: int| ValidatorModel { voting_power: power_in(s[i], full_stake(s)) as u64, ..s[i] },
    )
}

/// The voting power of the members of a list that stand in `who`.
pub open spec fn power_of(s: Seq<ValidatorModel>, who: Set<Seq<char>>) -> nat
    decreases s.len(),
{
    if s.len() == 0 {
        0
    } else {
        power_of(s.drop_last(), who) + (if who.contains(s.last().address) {
            s.last().voting_power as nat
        } else {
            0
        })
    }
}

/// The voting power of a whole list.
pub open spec fn power_sum(s: Seq<ValidatorModel>) -> nat
    decreases s.len(),
{
    if s.len() == 0 {
        0
    } else {
        power_sum(s.drop_last()) + s.last().voting_power as nat
    }
}

proof fn full_stake_grows(s: Seq<ValidatorModel>, i: int)
    requires
        0 <= i <= s.len(),
    ensures
        full_stake(s.take(i)) <= full_stake(s),
    decreases s.len() - i,
{
    if i == s.len() {
        assert(s.take(i) =~= s);
    } else {
        full_stake_grows(s, i + 1);
        assert(s.take(i + 1).drop_last() =~= s.take(i));
    }
}

/// The members' powers add up to no more than their stakes.
proof fn power_within_stake(s: Seq<ValidatorModel>, whole: nat, i: int)
    requires
        0 <= i <= s.len(),
        full_stake(s) <= whole <= u64::MAX,
    ensures
        power_sum(
            Seq::new(
                s.len(),
                |k: int| ValidatorModel { voting_power: power_in(s[k], whole) as u64, ..s[k] },
            ).take(i),
        ) <= full_stake(s.take(i)),
        full_stake(s.take(i)) <= full_stake(s),
    decreases i,
{
    let w = Seq::new(
        s.len(),
        |k: int| ValidatorModel { voting_power: power_in(s[k], whole) as u64, ..s[k] },
    );
    full_stake_grows(s, i);
    if i > 0 {
        power_within_stake(s, whole, i - 1);
        assert(w.take(i).drop_last() =~= w.take(i - 1));
        assert(s.take(i).drop_last() =~= s.take(i - 1));
        assert(w.take(i).last() == w[i - 1]);
        assert(s.take(i).last() == s[i - 1]);
    }
}

/// The power of a set's members adds up to no more than their stake.
pub proof fn weighed_power_is_bounded(s: Seq<ValidatorModel>)
    requires
        full_stake(s) <= u64::MAX,
    ensures
        power_sum(weighed(s)) <= full_stake(s),
{
    power_within_stake(s, full_stake(s), s.len() as int);
    assert(s.take(s.len() as int) =~= s);
    let w = Seq::new(
        s.len(),
        |k: int| ValidatorModel { voting_power: power_in(s[k], full_stake(s)) as u64, ..s[k] },
    );
    assert(w.take(s.len() as int) =~= weighed(s));
}

proof fn partial_power(s: Seq<ValidatorModel>, who: Set<Seq<char>>, i: int)
    requires
        0 <= i <= s.len(),
    ensures
        power_of(s.take(i), who) <= power_sum(s.take(i)) <= power_sum(s),
    decreases s.len() - i,
{
    if i == s.len() {
        assert(s.take(i) =~= s);
        part_of_power(s, who);
    } else {
        partial_power(s, who, i + 1);
        assert(s.take(i + 1).drop_last() =~= s.take(i));
        part_of_power(s.take(i), who);
    }
}

proof fn part_of_power(s: Seq<ValidatorModel>, who: Set<Seq<char>>)
    ensures
        power_of(s, who) <= power_sum(s),
    decreases s.len(),
{
    if s.len() > 0 {
        part_of_power(s.drop_last(), who);
    }
}

/// No member, however large its stake, has more than a hundredth of the whole
/// stake as its power; a probationer has none.
pub proof fn power_is_capped(s: Seq<ValidatorModel>, i: int)
    requires
        0 <= i < s.len(),
        full_stake(s) <= u64::MAX,
    ensures
        weighed(s)[i].voting_power * 100 <= full_stake(s),
        s[i].probationary ==> weighed(s)[i].voting_power == 0,
{
}

/// Weighing a list that has been weighed before changes nothing.
pub proof fn weighing_is_idempotent(s: Seq<ValidatorModel>)
    ensures
        weighed(weighed(s)) == weighed(s),
{
    same_full_stake(s, weighed(s));
    assert(weighed(weighed(s)) =~= weighed(s));
}

proof fn same_full_stake(a: Seq<ValidatorModel>, b: Seq<ValidatorModel>)
    requires
        a.len() == b.len(),
        forall|i: int|
            0 <= i < a.len() ==> (#[trigger] a[i]).stake == b[i].stake && a[i].probationary
                == b[i].probationary,
    ensures
        full_stake(a) == full_stake(b),
    decreases a.len(),
{
    if a.len() > 0 {
        assert(a.last() == a[a.len() - 1] && b.last() == b[b.len() - 1]);
        assert forall|i: int| 0 <= i < a.drop_last().len() implies (#[trigger] a.drop_last()[i]).stake
            == b.drop_last()[i].stake && a.drop_last()[i].probationary
            == b.drop_last()[i].probationary by {
            assert(a.drop_last()[i] == a[i]);
        }
        same_full_stake(a.drop_last(), b.drop_last());
    }
}

/// A validator set with the members' voting powers.
#[derive(Debug)]
pub struct ValidatorSet {
    pub validators: Vec<Validator>,
    pub epoch: u64,
}

impl ValidatorSet {
    /// Weighs the members against one another.
    pub fn new(validators: Vec<Validator>, epoch: u64) -> (r: Self)
        requires
            full_stake(validator_models(validators@)) <= u64::MAX,
        ensures
            validator_models(r.validators@) == weighed(validator_models(validators@)),
            r.epoch == epoch,
    {
        let ghost models = validator_models(validators@);
        let n: usize = validators.len();
        let mut whole: u64 = 0;
        let mut i: usize = 0;
        proof {
            assert(models.take(0) =~= Seq::empty());
        }
        while i < n
            invariant
                i <= n == validators.len(),
                models == validator_models(validators@),
                full_stake(models) <= u64::MAX,
                whole == full_stake(models.take(i as int)),
            decreases n - i,
        {
            proof {
                full_stake_grows(models, i + 1);
                assert(models.take(i + 1).drop_last() =~= models.take(i as int));
                assert(models.take(i + 1).last() == models[i as int]);
            }
            if !validators[i].probationary {
                whole = whole + validators[i].stake;
            }
            i = i + 1;
        }
        proof {
            assert(models.take(n as int) =~= models);
        }
        let cap: u64 = whole / 100;
        let mut out: Vec<Validator> = Vec::new();
        let mut j: usize = 0;
        while j < n
            invariant
                j <= n == validators.len(),
                models == validator_models(validators@),
                whole == full_stake(models),
                cap == whole / 100,
                out@.len() == j,
                forall|k: int|
                    0 <= k < j ==> (#[trigger] out@[k])@ == (ValidatorModel {
                        voting_power: power_in(models[k], full_stake(models)) as u64,
                        ..models[k]
                    }),
            decreases n - j,
        {
            let v = &validators[j];
            let raw: u64 = if v.has_personhood {
                v.stake
            } else {
                v.stake / 2
            };
            let power: u64 = if v.probationary {
                0
            } else if raw <= cap {
                raw
            } else {
                cap
            };
            out.push(
                Validator {
                    address: v.address.clone(),
                    stake: v.stake,
                    has_personhood: v.has_personhood,
                    probationary: v.probationary,
                    voting_power: power,
                },
            );
            j = j + 1;
        }
        proof {
            assert(validator_models(out@) =~= weighed(models));
        }
        ValidatorSet { validators: out, epoch }
    }

    /// The voting power of all members.
    pub fn total_voting_power(&self) -> (r: u64)
        requires
            power_sum(validator_models(self.validators@)) <= u64::MAX,
        ensures
            r == power_sum(validator_models(self.validators@)),
    {
        let ghost models = validator_models(self.validators@);
        let n: usize = self.validators.len();
        let mut sum: u64 = 0;
        let mut i: usize = 0;
        proof {
            assert(models.take(0) =~= Seq::empty());
        }
        while i < n
            invariant
                i <= n == self.validators.len(),
                models == validator_models(self.validators@),
                power_sum(models) <= u64::MAX,
                sum == power_sum(models.take(i as int)),
            decreases n - i,
        {
            proof {
                partial_power(models, Set::empty(), i + 1);
                assert(models.take(i + 1).drop_last() =~= models.take(i as int));
                assert(models.take(i + 1).last() == models[i as int]);
            }
            sum = sum + self.validators[i].voting_power;
            i = i + 1;
        }
        proof {
            assert(models.take(n as int) =~= models);
        }
        sum
    }

    /// The voting power of the members that are in `who`.
    pub fn signed_power(&self, who: &KeySet<Address>) -> (r: u64)
        requires
            power_sum(validator_models(self.validators@)) <= u64::MAX,
        ensures
            r == power_of(validator_models(self.validators@), who@),
    {
        let ghost models = validator_models(self.validators@);
        let n: usize = self.validators.len();
        let mut sum: u64 = 0;
        let mut i: usize = 0;
        proof {
            assert(models.take(0) =~= Seq::empty());
        }
        while i < n
            invariant
                i <= n == self.validators.len(),
                models == validator_models(self.validators@),
                power_sum(models) <= u64::MAX,
                sum == power_of(models.take(i as int), who@),
            decreases n - i,
        {
            proof {
                partial_power(models, who@, i + 1);
                assert(models.take(i + 1).drop_last() =~= models.take(i as int));
                assert(models.take(i + 1).last() == models[i as int]);
            }
            if who.contains(&self.validators[i].address) {
                sum = sum + self.validators[i].voting_power;
            }
            i = i + 1;
        }
        proof {
            assert(models.take(n as int) =~= models);
        }
        sum
    }

    /// The voting power that finalises a block: more than two thirds.
    pub fn quorum_threshold(&self) -> (r: u64)
        requires
            power_sum(validator_models(self.validators@)) * 2 <= u64::MAX,
        ensures
            r == supermajority(power_sum(validator_models(self.validators@)) as int),
    {
        self.total_voting_power() * 2 / 3 + 1
    }
}

/// The effective stakes of a list of addresses, added up.
pub open spec fn stake_sum(s: StateModel, list: Seq<Seq<char>>) -> nat
    decreases list.len(),
{
    if list.len() == 0 {
        0
    } else {
        stake_sum(s, list.drop_last()) + s.effective(list.last()) as nat
    }
}

spec fn without(s: StateModel, a: Seq<char>) -> StateModel {
    StateModel {
        accounts: s.accounts.remove(a),
        validator_pools: s.validator_pools.remove(a),
        ..s
    }
}

proof fn removal_splits_wealth(s: StateModel, a: Seq<char>)
    requires
        s.accounts.dom().finite(),
        s.validator_pools.dom().finite(),
    ensures
        s.wealth() == without(s, a).wealth() + account_value(s.account(a)) + s.delegated_to(a),
{
    if s.accounts.contains_key(a) {
        total_splits(s.accounts, by_account_value(), a);
    } else {
        assert(s.accounts.remove(a) =~= s.accounts);
    }
    if s.validator_pools.contains_key(a) {
        total_splits(s.validator_pools, by_pool_value(), a);
    } else {
        assert(s.validator_pools.remove(a) =~= s.validator_pools);
    }
}

proof fn sum_ignores_others(s: StateModel, a: Seq<char>, list: Seq<Seq<char>>)
    requires
        !list.contains(a),
    ensures
        stake_sum(without(s, a), list) == stake_sum(s, list),
    decreases list.len(),
{
    if list.len() > 0 {
        assert(list.last() == list[list.len() - 1]);
        assert(!list.drop_last().contains(a)) by {
            if list.drop_last().contains(a) {
                let i = choose|i: int| 0 <= i < list.drop_last().len() && list.drop_last()[i] == a;
                assert(list[i] == a);
            }
        }
        sum_ignores_others(s, a, list.drop_last());
    }
}

/// Different validators cannot have more stake behind them than there is value.
pub proof fn distinct_stakes_within_wealth(s: StateModel, list: Seq<Seq<char>>)
    requires
        s.accounts.dom().finite(),
        s.validator_pools.dom().finite(),
        list.no_duplicates(),
    ensures
        stake_sum(s, list) <= s.wealth(),
    decreases list.len(),
{
    if list.len() > 0 {
        let a = list.last();
        let rest = list.drop_last();
        assert(!rest.contains(a)) by {
            if rest.contains(a) {
                let i = choose|i: int| 0 <= i < rest.len() && rest[i] == a;
                assert(list[i] == list[list.len() - 1]);
            }
        }
        assert(rest.no_duplicates());
        removal_splits_wealth(s, a);
        sum_ignores_others(s, a, rest);
        distinct_stakes_within_wealth(without(s, a), rest);
    }
}

/// The full members with these addresses, before they are weighed.
pub open spec fn candidates(s: StateModel, list: Seq<Seq<char>>) -> Seq<ValidatorModel> {
    list.map_values(
        |a: Seq<char>|
            ValidatorModel {
                address: a,
                stake: s.effective(a),
                has_personhood: status_of(s, a) is Verified,
                probationary: false,
                voting_power: 0,
            },
    )
}

proof fn candidates_stake(s: StateModel, list: Seq<Seq<char>>)
    ensures
        full_stake(candidates(s, list)) == stake_sum(s, list),
    decreases list.len(),
{
    if list.len() > 0 {
        candidates_stake(s, list.drop_last());
        assert(candidates(s, list).drop_last() =~= candidates(s, list.drop_last()));
    }
}

/// The signers hold more than two thirds of the voting power of the listed validators.
pub open spec fn carries_quorum(
    s: StateModel,
    list: Seq<Seq<char>>,
    signers: Set<Seq<char>>,
) -> bool {
    let set = weighed(candidates(s, list));
    power_of(set, signers) >= supermajority(power_sum(set) as int)
}

/// One validator's part in a block: a signature clears its missed blocks, an
/// absence adds one, and one absence too many jails it.
pub open spec fn participation_step(
    s: StateModel,
    a: Seq<char>,
    signers: Set<Seq<char>>,
    height: u64,
) -> StateModel {
    if signers.contains(a) {
        StateModel { missed_blocks: s.missed_blocks.remove(a), ..s }
    } else {
        let count = missed_by(s, a) + 1;
        let counted = StateModel { missed_blocks: s.missed_blocks.insert(a, count as u32), ..s };
        if jails(s, a, signers) {
            StateModel {
                jailed_until: s.jailed_until.insert(a, (height + MIN_JAIL_BLOCKS) as u64),
                active_validators: s.active_validators.remove(a),
                ..counted
            }
        } else {
            counted
        }
    }
}

pub open spec fn missed_by(s: StateModel, a: Seq<char>) -> int {
    if s.missed_blocks.contains_key(a) {
        s.missed_blocks[a] as int
    } else {
        0
    }
}

/// This absence jails the validator.
pub open spec fn jails(s: StateModel, a: Seq<char>, signers: Set<Seq<char>>) -> bool {
    &&& !signers.contains(a)
    &&& missed_by(s, a) + 1 >= DOWNTIME_JAIL_THRESHOLD_BLOCKS
    &&& !s.jailed_until.contains_key(a)
}

/// The parts of a list of validators in a block, in order.
pub open spec fn participation_steps(
    s: StateModel,
    list: Seq<Seq<char>>,
    signers: Set<Seq<char>>,
    height: u64,
) -> (StateModel, Seq<Seq<char>>)
    decreases list.len(),
{
    if list.len() == 0 {
        (s, Seq::empty())
    } else {
        let before = participation_steps(s, list.drop_last(), signers, height);
        let a = list.last();
        (
            participation_step(before.0, a, signers, height),
            if jails(before.0, a, signers) {
                before.1.push(a)
            } else {
                before.1
            },
        )
    }
}

/// What a block's certificate does to the validators it was to be signed by, and
/// whom it jails. A certificate without a quorum does nothing.
pub open spec fn participation(
    s: StateModel,
    list: Seq<Seq<char>>,
    signers: Set<Seq<char>>,
    height: u64,
) -> (StateModel, Seq<Seq<char>>) {
    if carries_quorum(s, list, signers) {
        participation_steps(s, list, signers, height)
    } else {
        (s, Seq::empty())
    }
}

/// The counters have room for the blocks that a list can add to them.
pub open spec fn counters_fit(s: StateModel, room: nat) -> bool {
    forall|a: Seq<char>| #[trigger]
        s.missed_blocks.contains_key(a) ==> s.missed_blocks[a] + room <= u32::MAX
}

proof fn steps_keep_room(
    s: StateModel,
    list: Seq<Seq<char>>,
    signers: Set<Seq<char>>,
    height: u64,
    room: nat,
)
    requires
        counters_fit(s, room + list.len()),
        room + list.len() <= u32::MAX,
    ensures
        counters_fit(participation_steps(s, list, signers, height).0, room),
    decreases list.len(),
{
    if list.len() > 0 {
        steps_keep_room(s, list.drop_last(), signers, height, room + 1);
        let before = participation_steps(s, list.drop_last(), signers, height).0;
        let after = participation_steps(s, list, signers, height).0;
        let a = list.last();
        assert forall|b: Seq<char>| #[trigger] after.missed_blocks.contains_key(b) implies
            after.missed_blocks[b] + room <= u32::MAX by {
            if b != a {
                assert(before.missed_blocks.contains_key(b));
            } else if before.missed_blocks.contains_key(a) {
            }
        }
    }
}

/// Only the counters, the jail and the active set change, and nobody is freed.
pub proof fn participation_only_jails(
    s: StateModel,
    list: Seq<Seq<char>>,
    signers: Set<Seq<char>>,
    height: u64,
)
    ensures
        ({
            let t = participation_steps(s, list, signers, height).0;
            &&& t == (StateModel {
                missed_blocks: t.missed_blocks,
                jailed_until: t.jailed_until,
                active_validators: t.active_validators,
                ..s
            })
            &&& forall|a: Seq<char>| #[trigger]
                s.jailed_until.contains_key(a) ==> t.jailed_until.contains_key(a)
                    && t.jailed_until[a] == s.jailed_until[a]
            &&& t.active_validators.subset_of(s.active_validators)
        }),
    decreases list.len(),
{
    if list.len() > 0 {
        participation_only_jails(s, list.drop_last(), signers, height);
    }
}

/// A validator that signed is never jailed by the block.
pub proof fn signers_are_not_jailed(
    s: StateModel,
    list: Seq<Seq<char>>,
    signers: Set<Seq<char>>,
    height: u64,
    a: Seq<char>,
)
    requires
        signers.contains(a),
    ensures
        !participation(s, list, signers, height).1.contains(a),
        participation(s, list, signers, height).0.jailed_until.contains_key(a)
            == s.jailed_until.contains_key(a),
{
    signers_stay_free(s, list, signers, height, a);
}

proof fn signers_stay_free(
    s: StateModel,
    list: Seq<Seq<char>>,
    signers: Set<Seq<char>>,
    height: u64,
    a: Seq<char>,
)
    requires
        signers.contains(a),
    ensures
        !participation_steps(s, list, signers, height).1.contains(a),
        participation_steps(s, list, signers, height).0.jailed_until.contains_key(a)
            == s.jailed_until.contains_key(a),
    decreases list.len(),
{
    if list.len() > 0 {
        signers_stay_free(s, list.drop_last(), signers, height, a);
        let before = participation_steps(s, list.drop_last(), signers, height);
        let after = participation_steps(s, list, signers, height);
        if after.1.contains(a) {
            let i = choose|i: int| 0 <= i < after.1.len() && after.1[i] == a;
            if i < before.1.len() {
                assert(before.1[i] == a);
            }
        }
    }
}

proof fn steps_leave_others(
    s: StateModel,
    list: Seq<Seq<char>>,
    signers: Set<Seq<char>>,
    height: u64,
    a: Seq<char>,
)
    requires
        !list.contains(a),
    ensures
        missed_by(participation_steps(s, list, signers, height).0, a) == missed_by(s, a),
        !participation_steps(s, list, signers, height).1.contains(a),
    decreases list.len(),
{
    if list.len() > 0 {
        let front = list.drop_last();
        assert(!front.contains(a)) by {
            if front.contains(a) {
                let i = choose|i: int| 0 <= i < front.len() && front[i] == a;
                assert(list[i] == a);
            }
        }
        assert(list[list.len() - 1] != a);
        steps_leave_others(s, front, signers, height, a);
        let before = participation_steps(s, front, signers, height);
        let after = participation_steps(s, list, signers, height);
        if after.1.contains(a) {
            let i = choose|i: int| 0 <= i < after.1.len() && after.1[i] == a;
            assert(before.1[i] == a);
        }
    }
}

/// A validator is jailed only by a certificate with a quorum that it is missing
/// from, and only after that many blocks missed in a row; a signature under such a
/// certificate starts the count anew.
pub proof fn only_long_absence_jails(
    s: StateModel,
    list: Seq<Seq<char>>,
    signers: Set<Seq<char>>,
    height: u64,
    a: Seq<char>,
)
    requires
        list.no_duplicates(),
    ensures
        participation(s, list, signers, height).1.contains(a) ==> carries_quorum(s, list, signers)
            && !signers.contains(a) && missed_by(s, a) + 1 >= DOWNTIME_JAIL_THRESHOLD_BLOCKS,
        carries_quorum(s, list, signers) && list.contains(a) && signers.contains(a) ==> missed_by(
            participation(s, list, signers, height).0,
            a,
        ) == 0,
{
    absence_is_counted(s, list, signers, height, a);
}

proof fn absence_is_counted(
    s: StateModel,
    list: Seq<Seq<char>>,
    signers: Set<Seq<char>>,
    height: u64,
    a: Seq<char>,
)
    requires
        list.no_duplicates(),
    ensures
        participation_steps(s, list, signers, height).1.contains(a) ==> !signers.contains(a)
            && missed_by(s, a) + 1 >= DOWNTIME_JAIL_THRESHOLD_BLOCKS,
        list.contains(a) && signers.contains(a) ==> missed_by(
            participation_steps(s, list, signers, height).0,
            a,
        ) == 0,
    decreases list.len(),
{
    if list.len() > 0 {
        let front = list.drop_last();
        let last = list.last();
        assert(front.no_duplicates());
        absence_is_counted(s, front, signers, height, a);
        let before = participation_steps(s, front, signers, height);
        let after = participation_steps(s, list, signers, height);
        if last == a {
            assert(!front.contains(a)) by {
                if front.contains(a) {
                    let i = choose|i: int| 0 <= i < front.len() && front[i] == a;
                    assert(list[i] == list[list.len() - 1]);
                }
            }
            steps_leave_others(s, front, signers, height, a);
            if after.1.contains(a) && !jails(before.0, a, signers) {
                assert(before.1.contains(a));
            }
        } else {
            if list.contains(a) {
                let i = choose|i: int| 0 <= i < list.len() && list[i] == a;
                assert(front[i] == a);
            }
            if after.1.contains(a) {
                let i = choose|i: int| 0 <= i < after.1.len() && after.1[i] == a;
                assert(before.1[i] == a);
            }
        }
    }
}

/// A certificate without a quorum convicts nobody and counts nothing.
pub proof fn thin_certificates_prove_nothing(
    s: StateModel,
    list: Seq<Seq<char>>,
    signers: Set<Seq<char>>,
    height: u64,
)
    requires
        !carries_quorum(s, list, signers),
    ensures
        participation(s, list, signers, height).0 == s,
        participation(s, list, signers, height).1.len() == 0,
{
}

impl ChainState {
    /// Whether the signers hold a quorum of the listed validators' voting power.
    pub fn commit_certificate_carries_quorum(
        &self,
        current_validators: &[Address],
        signers: &KeySet<Address>,
    ) -> (r: bool)
        requires
            stake_sum(self@, address_texts(current_validators@)) <= QUORUM_LIMIT,
        ensures
            r == carries_quorum(self@, address_texts(current_validators@), signers@),
    {
        let ghost texts = address_texts(current_validators@);
        let mut list: Vec<Validator> = Vec::new();
        let mut i: usize = 0;
        while i < current_validators.len()
            invariant
                i <= current_validators.len(),
                texts == address_texts(current_validators@),
                list@.len() == i,
                forall|k: int|
                    0 <= k < i ==> (#[trigger] list@[k])@ == candidates(self@, texts)[k],
            decreases current_validators.len() - i,
        {
            let addr = &current_validators[i];
            list.push(
                Validator::new(addr.clone(), self.effective_stake(addr), self.has_personhood(addr)),
            );
            i = i + 1;
        }
        proof {
            assert(validator_models(list@) =~= candidates(self@, texts));
            candidates_stake(self@, texts);
            weighed_power_is_bounded(candidates(self@, texts));
        }
        let set = ValidatorSet::new(list, 0);
        let signed: u64 = set.signed_power(signers);
        signed >= set.quorum_threshold()
    }

    /// Counts the blocks that validators miss, and jails those that miss too many
    /// in a row. Returns the newly jailed.
    pub fn record_block_participation(
        &mut self,
        current_validators: &[Address],
        signers: &KeySet<Address>,
        height: u64,
    ) -> (r: Vec<Address>)
        requires
            stake_sum(old(self)@, address_texts(current_validators@)) <= QUORUM_LIMIT,
            current_validators@.len() <= u32::MAX,
            counters_fit(old(self)@, current_validators@.len()),
            height + MIN_JAIL_BLOCKS <= u64::MAX,
        ensures
            (final(self)@, address_texts(r@)) == participation(
                old(self)@,
                address_texts(current_validators@),
                signers@,
                height,
            ),
    {
        let mut newly_jailed: Vec<Address> = Vec::new();
        let ghost s = self@;
        let ghost texts = address_texts(current_validators@);
        proof {
            assert(address_texts(newly_jailed@) =~= Seq::empty());
        }
        if !self.commit_certificate_carries_quorum(current_validators, signers) {
            return newly_jailed;
        }
        let n: usize = current_validators.len();
        let mut i: usize = 0;
        proof {
            assert(texts.take(0) =~= Seq::empty());
        }
        while i < n
            invariant
                i <= n == current_validators@.len(),
                texts == address_texts(current_validators@),
                n <= u32::MAX,
                counters_fit(s, n as nat),
                height + MIN_JAIL_BLOCKS <= u64::MAX,
                self@ == participation_steps(s, texts.take(i as int), signers@, height).0,
                address_texts(newly_jailed@) == participation_steps(
                    s,
                    texts.take(i as int),
                    signers@,
                    height,
                ).1,
            decreases n - i,
        {
            let addr = &current_validators[i];
            let key = addr.to_string();
            let ghost before = self@;
            let ghost jailed_before = address_texts(newly_jailed@);
            proof {
                assert(texts.take(i + 1).drop_last() =~= texts.take(i as int));
                assert(texts.take(i + 1).last() == addr@);
                steps_keep_room(s, texts.take(i as int), signers@, height, (n - i) as nat);
                if before.missed_blocks.contains_key(addr@) {
                    assert(before.missed_blocks[addr@] + (n - i) <= u32::MAX);
                }
            }
            if signers.contains(addr) {
                self.missed_blocks.remove(&key);
            } else {
                let count: u32 = match self.missed_blocks.get(&key) {
                    Some(c) => *c + 1,
                    None => 1,
                };
                let jail = count >= DOWNTIME_JAIL_THRESHOLD_BLOCKS
                    && !self.jailed_until.contains_key(&key);
                self.missed_blocks.insert(addr.to_string(), count);
                if jail {
                    self.jailed_until.insert(key, height + MIN_JAIL_BLOCKS);
                    self.active_validators.remove(addr);
                    newly_jailed.push(addr.clone());
                    proof {
                        assert(address_texts(newly_jailed@) =~= jailed_before.push(addr@));
                    }
                }
            }
            i = i + 1;
        }
        proof {
            assert(texts.take(n as int) =~= texts);
        }
        newly_jailed
    }

    /// The consensus engine's set with its voting powers.
    pub fn consensus_validator_set(&self) -> (r: ValidatorSet)
        requires
            self@.wf(),
        ensures
            validator_models(r.validators@) == weighed(engine_candidates(self@)),
            r.epoch == 0,
            power_sum(validator_models(r.validators@)) <= self@.wealth(),
    {
        let engine = self.engine_validator_set();
        let ghost set = self@.engine_set();
        let mut list: Vec<Validator> = Vec::new();
        let mut i: usize = 0;
        while i < engine.len()
            invariant
                i <= engine.len(),
                set == self@.engine_set(),
                members(engine@) == set,
                list@.len() == i,
                forall|k: int|
                    0 <= k < i ==> (#[trigger] list@[k])@ == engine_candidates(self@)[k],
            decreases engine.len() - i,
        {
            let addr = engine[i].0.clone();
            let stake: u64 = engine[i].1;
            let has_personhood = self.has_personhood(&addr);
            proof {
                assert(members(engine@)[i as int] == set[i as int]);
            }
            if engine[i].2 {
                list.push(Validator::new_probationary(addr, stake, has_personhood));
            } else {
                list.push(Validator::new(addr, stake, has_personhood));
            }
            i = i + 1;
        }
        proof {
            assert(members(engine@).len() == set.len());
            assert(validator_models(list@) =~= engine_candidates(self@));
            engine_stake_within_wealth(self@);
            weighed_power_is_bounded(engine_candidates(self@));
        }
        ValidatorSet::new(list, 0)
    }
}

/// The members of the engine's set, before they are weighed.
pub open spec fn engine_candidates(s: StateModel) -> Seq<ValidatorModel> {
    s.engine_set().map_values(
        |m: (Seq<char>, u64, bool)|
            ValidatorModel {
                address: m.0,
                stake: m.1,
                has_personhood: status_of(s, m.0) is Verified,
                probationary: m.2,
                voting_power: 0,
            },
    )
}

pub proof fn ascending_items_differ<K: Key>(l: Seq<K::V>)
    requires
        items_ascend::<K>(l),
    ensures
        l.no_duplicates(),
{
    assert forall|i: int, j: int| 0 <= i < l.len() && 0 <= j < l.len() && i != j implies l[i]
        != l[j] by {
        K::order_is_irreflexive(l[i]);
        if i < j {
            assert(K::precedes(l[i], l[j]));
        } else {
            assert(K::precedes(l[j], l[i]));
        }
    }
}

proof fn probationers_add_nothing(a: Seq<ValidatorModel>, b: Seq<ValidatorModel>)
    requires
        forall|i: int| 0 <= i < b.len() ==> (#[trigger] b[i]).probationary,
    ensures
        full_stake(a + b) == full_stake(a),
    decreases b.len(),
{
    if b.len() == 0 {
        assert(a + b =~= a);
    } else {
        assert((a + b).drop_last() =~= a + b.drop_last());
        assert((a + b).last() == b[b.len() - 1]);
        assert forall|i: int| 0 <= i < b.drop_last().len() implies (
        #[trigger] b.drop_last()[i]).probationary by {
            assert(b.drop_last()[i] == b[i]);
        }
        probationers_add_nothing(a, b.drop_last());
    }
}

proof fn engine_stake_within_wealth(s: StateModel)
    requires
        s.wf(),
        items_ascend::<Address>(in_key_order::<Address>(s.full_members())),
    ensures
        full_stake(engine_candidates(s)) <= s.wealth(),
{
    let list = in_key_order::<Address>(s.full_members());
    let c = engine_candidates(s);
    if s.active_validators.len() == 0 {
        assert(c =~= candidates(s, list));
    } else {
        let rest = c.skip(list.len() as int);
        assert(c =~= candidates(s, list) + rest);
        probationers_add_nothing(candidates(s, list), rest);
    }
    candidates_stake(s, list);
    ascending_items_differ::<Address>(list);
    distinct_stakes_within_wealth(s, list);
}

} // verus!
