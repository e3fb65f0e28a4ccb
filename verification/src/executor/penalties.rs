//! What misbehaviour and absence cost, whom they cost it, and what they leave alone.
use crate::executor::account::{AccountModel, RedelegationModel};
use crate::executor::pools::{
    costs, count, held, only_these_pools, only_these_positions,
};
use crate::executor::quorum::{
    candidates, carries_quorum, counters_fit, full_stake, participation, participation_steps,
    power_in, power_of, power_sum, weighed, ValidatorModel,
};
use crate::executor::slashing::{
    accounts_slashed, entries_slashed, part_fits, pool_slashed, redelegation_slashed,
    redelegation_step, shares_lost, slash_fits, slashed, stake_slashed, stake_slashed_keeps_books,
    stake_slashed_takes_stake,
};
use crate::executor::state::StateModel;
use crate::executor::validators::value_fits;
use crate::executor::value::position_within_pool;
use crate::executor::votes::slashed_accounts_are;
use vstd::prelude::*;

verus! {

/// A slash takes its part, rounded down, of the validator's own stake, of all that
/// unbonds and was behind it, and of its pool. Where nothing has moved away from the
/// validator, that is all: no other account, pool or position changes, and exactly
/// what was taken is burned.
#[verifier::rlimit(40)]
pub proof fn a_slash_takes_its_part_of_everything_behind(
    s: StateModel,
    v: Seq<char>,
    bps: u64,
    a: Seq<char>,
)
    requires
        s.wf(),
        bps <= 10_000,
        slash_fits(s, v, bps),
        s.accounts.contains_key(v),
    ensures
        ({
            let t = slashed(s, v, bps);
            let (was, is) = (s.account(a), t.account(a));
            let behind = was.unbonding_source == Some(v) || (was.unbonding_source is None && a == v);
            &&& is.staked == was.staked - (if a == v {
                was.staked * bps / 10_000
            } else {
                0
            })
            &&& is.unbonding_stake == was.unbonding_stake - (if behind {
                was.unbonding_stake * bps / 10_000
            } else {
                0
            })
            &&& is == (AccountModel {
                staked: is.staked,
                unbonding_stake: is.unbonding_stake,
                ..was
            })
            &&& t.accounts.dom() == s.accounts.dom()
            &&& !s.redelegations.contains_key(v) ==> {
                let p = s.pool(a);
                let q = t.pool(a);
                &&& t.validator_pools.dom() == s.validator_pools.dom()
                &&& q.total_delegated_stake == p.total_delegated_stake - (if a == v {
                    p.total_delegated_stake * bps / 10_000
                } else {
                    0
                })
                &&& q.total_shares == p.total_shares
                &&& q.commission_bps == p.commission_bps
                &&& t.delegator_shares == s.delegator_shares
                &&& t.redelegations == s.redelegations
            }
            &&& t.total_burned - s.total_burned == s.at_stake() - t.at_stake()
            &&& t == (StateModel {
                accounts: t.accounts,
                validator_pools: t.validator_pools,
                delegator_shares: t.delegator_shares,
                redelegations: t.redelegations,
                total_burned: t.total_burned,
                ..s
            })
        }),
{
    let t = slashed(s, v, bps);
    let u = stake_slashed(s, v, bps);
    stake_slashed_takes_stake(s, v, bps);
    stake_slashed_keeps_books(s, v, bps);
    slashed_accounts_are(s, v, bps);
    part_fits(s.account(a).staked, bps);
    part_fits(s.account(a).unbonding_stake, bps);
    part_fits(s.pool(a).total_delegated_stake, bps);
    assert(t.account(a) == u.account(a));
    assert(t.accounts.dom() =~= s.accounts.dom());
    let x = pool_slashed(accounts_slashed(s, v, bps), v, bps);
    assert(x.validator_pools.dom() =~= s.validator_pools.dom());
    assert(0 * bps / 10_000 == 0);
}

/// A move that still answers for a slashed validator has cost its delegator the
/// shares that its part of the amount costs at the pool's price, rounded up, but no
/// more than it has; the pool has lost what those shares were worth. Nobody else's
/// position changes. A move with nothing to answer with costs nothing.
pub open spec fn move_answered(s: StateModel, t: StateModel, e: RedelegationModel, bps: u64) -> bool {
    let part = (e.amount * bps / 10_000) as u64;
    let p = s.pool(e.dst);
    let q = t.pool(e.dst);
    let n = count(held(s, e.dst, e.delegator));
    let lost = p.total_shares - q.total_shares;
    if part == 0 || n == 0 || !s.validator_pools.contains_key(e.dst) || p.total_shares == 0
        || p.total_delegated_stake == 0 {
        t == s
    } else {
        &&& 0 < lost <= n
        &&& lost < n ==> costs(p, part, lost)
        &&& (lost - 1) * p.total_delegated_stake < part * p.total_shares
        &&& q.total_delegated_stake == p.total_delegated_stake - lost * p.total_delegated_stake
            / p.total_shares as int
        &&& q.commission_bps == p.commission_bps
        &&& count(held(t, e.dst, e.delegator)) == n - lost
        &&& only_these_pools(s, t, e.dst, e.dst)
        &&& only_these_positions(s, t, e.dst, e.dst, e.delegator)
        &&& t == (StateModel {
            validator_pools: t.validator_pools,
            delegator_shares: t.delegator_shares,
            ..s
        })
    }
}

proof fn one_move_answers(s: StateModel, e: RedelegationModel, bps: u64)
    requires
        s.wf(),
        bps <= 10_000,
    ensures
        move_answered(s, redelegation_slashed(s, e, bps), e, bps),
{
    part_fits(e.amount, bps);
    let t = redelegation_slashed(s, e, bps);
    let part = (e.amount * bps / 10_000) as u64;
    let p = s.pool(e.dst);
    let lost = shares_lost(s, e, bps);
    if s.shares_of(e.dst, e.delegator) is Some {
        position_within_pool(s, e.dst, e.delegator);
        if part > 0 && p.total_shares > 0 && p.total_delegated_stake > 0
            && s.validator_pools.contains_key(e.dst) {
            let n = s.shares_of(e.dst, e.delegator)->0;
            let x = part as int * p.total_shares as int;
            let d = p.total_delegated_stake as int;
            let wanted = crate::executor::slashing::ceil_div(x, d);
            ceiling_is_cost(x, d);
            assert(x > 0) by (nonlinear_arith)
                requires
                    x == part as int * p.total_shares as int,
                    part > 0,
                    p.total_shares > 0,
            ;
            if wanted <= 0 {
                assert(wanted * d <= 0) by (nonlinear_arith)
                    requires
                        wanted <= 0,
                        d > 0,
                ;
            }
            if n > 0 {
                assert(lost > 0);
                redelegation_step(s, e, bps);
                value_fits(lost as int, d, p.total_shares as int);
                assert((lost - 1) * d <= (wanted - 1) * d) by (nonlinear_arith)
                    requires
                        lost <= wanted,
                        d > 0,
                ;
            }
        }
    }
}

proof fn ceiling_is_cost(x: int, d: int)
    requires
        d > 0,
    ensures
        (crate::executor::slashing::ceil_div(x, d) - 1) * d < x
            <= crate::executor::slashing::ceil_div(x, d) * d,
{
    let q = x / d;
    vstd::arithmetic::div_mod::lemma_fundamental_div_mod(x, d);
    assert(q * d <= x < (q + 1) * d && (q - 1) * d < q * d && (x % d == 0 ==> q * d == x) && (x % d
        != 0 ==> q * d < x)) by (nonlinear_arith)
        requires
            x == d * q + x % d,
            0 <= x % d < d,
            d > 0,
    ;
}

/// The moves away from a slashed validator answer one after another, each on the
/// state that the one before has left, and each has less left to answer with by what
/// it has cost.
pub proof fn moves_answer_in_order(s: StateModel, list: Seq<RedelegationModel>, bps: u64, i: int)
    requires
        s.wf(),
        bps <= 10_000,
        0 <= i < list.len(),
    ensures
        ({
            let before = entries_slashed(s, list.take(i), bps);
            let after = entries_slashed(s, list.take(i + 1), bps);
            let e = list[i];
            let value = before.0.pool(e.dst).total_delegated_stake - after.0.pool(
                e.dst,
            ).total_delegated_stake;
            let is = after.1[i];
            &&& move_answered(before.0, after.0, e, bps)
            &&& after.1.len() == i + 1
            &&& after.1.drop_last() == before.1
            &&& is.delegator == e.delegator && is.dst == e.dst && is.unlock_height
                == e.unlock_height
            &&& is.amount == (if e.amount >= value {
                e.amount - value
            } else {
                0
            })
        }),
{
    let front = list.take(i);
    entries_stay_wf(s, front, bps);
    let before = entries_slashed(s, front, bps);
    assert(list.take(i + 1).drop_last() =~= front);
    assert(list.take(i + 1).last() == list[i]);
    one_move_answers(before.0, list[i], bps);
    let after = entries_slashed(s, list.take(i + 1), bps);
    assert(after.1.drop_last() =~= before.1);
    if shares_lost(before.0, list[i], bps) > 0 {
        redelegation_step(before.0, list[i], bps);
    }
}

proof fn entries_stay_wf(s: StateModel, list: Seq<RedelegationModel>, bps: u64)
    requires
        s.wf(),
        bps <= 10_000,
    ensures
        entries_slashed(s, list, bps).0.wf(),
        entries_slashed(s, list, bps).1.len() == list.len(),
    decreases list.len(),
{
    if list.len() > 0 {
        entries_stay_wf(s, list.drop_last(), bps);
        let before = entries_slashed(s, list.drop_last(), bps).0;
        if shares_lost(before, list.last(), bps) > 0 {
            redelegation_step(before, list.last(), bps);
        }
    }
}

/// All moves away from a slashed validator answer, in their order, and no other.
pub proof fn all_moves_answer(s: StateModel, v: Seq<char>, bps: u64)
    ensures
        ({
            let t = crate::executor::slashing::redelegations_slashed(s, v, bps);
            let after = entries_slashed(s, s.redelegations[v], bps);
            &&& !s.redelegations.contains_key(v) ==> t == s
            &&& s.redelegations.contains_key(v) ==> t.validator_pools == after.0.validator_pools
                && t.delegator_shares == after.0.delegator_shares && t.redelegations
                == s.redelegations.insert(v, after.1) && t.accounts == s.accounts
        }),
{
    if s.redelegations.contains_key(v) {
        crate::executor::slashing::entries_slashed_books(s, s.redelegations[v], bps);
    }
}

/// What a block's certificate means for one validator of those it was to be signed
/// by. Under a quorum, a signature clears its count, and an absence adds one; the
/// hundred and fiftieth in a row, or a later one, jails it for three hundred blocks
/// and takes its seat, unless it is in jail already. Nobody else is touched.
pub open spec fn took_part(
    s: StateModel,
    t: StateModel,
    jailed: Seq<Seq<char>>,
    list: Seq<Seq<char>>,
    signers: Set<Seq<char>>,
    height: u64,
    a: Seq<char>,
) -> bool {
    let missed = 1 + if s.missed_blocks.contains_key(a) {
        s.missed_blocks[a] as int
    } else {
        0
    };
    let absent = list.contains(a) && !signers.contains(a);
    let out = absent && missed >= 150 && !s.jailed_until.contains_key(a);
    &&& absent ==> t.missed_blocks.contains_key(a) && t.missed_blocks[a] == missed
    &&& list.contains(a) && signers.contains(a) ==> !t.missed_blocks.contains_key(a)
    &&& !list.contains(a) ==> t.missed_blocks.contains_key(a) == s.missed_blocks.contains_key(a)
        && t.missed_blocks[a] == s.missed_blocks[a]
    &&& jailed.contains(a) == out
    &&& out ==> t.jailed_until.contains_key(a) && t.jailed_until[a] == height + 300
    &&& !out ==> t.jailed_until.contains_key(a) == s.jailed_until.contains_key(a)
        && t.jailed_until[a] == s.jailed_until[a]
    &&& t.active_validators.contains(a) == (s.active_validators.contains(a) && !out)
}

proof fn steps_take_part(
    s: StateModel,
    list: Seq<Seq<char>>,
    signers: Set<Seq<char>>,
    height: u64,
    a: Seq<char>,
)
    requires
        list.no_duplicates(),
        counters_fit(s, 1),
        height + 300 <= u64::MAX,
    ensures
        ({
            let (t, jailed) = participation_steps(s, list, signers, height);
            took_part(s, t, jailed, list, signers, height, a)
        }),
    decreases list.len(),
{
    if list.len() > 0 {
        let front = list.drop_last();
        let b = list.last();
        assert(front.no_duplicates());
        steps_take_part(s, front, signers, height, a);
        let before = participation_steps(s, front, signers, height);
        let after = participation_steps(s, list, signers, height);
        if b == a {
            assert(list.contains(a));
            assert(!front.contains(a)) by {
                if front.contains(a) {
                    let i = choose|i: int| 0 <= i < front.len() && front[i] == a;
                    assert(list[i] == list[list.len() - 1]);
                }
            }
            if s.missed_blocks.contains_key(a) {
            }
            if after.1.len() > before.1.len() {
                assert(after.1[before.1.len() as int] == a);
            }
        } else {
            assert(list.contains(a) == front.contains(a)) by {
                if list.contains(a) {
                    let i = choose|i: int| 0 <= i < list.len() && list[i] == a;
                    assert(front[i] == a);
                }
                if front.contains(a) {
                    let i = choose|i: int| 0 <= i < front.len() && front[i] == a;
                    assert(list[i] == a);
                }
            }
            if after.1.contains(a) {
                let i = choose|i: int| 0 <= i < after.1.len() && after.1[i] == a;
                assert(before.1[i] == a);
            }
            if before.1.contains(a) {
                let i = choose|i: int| 0 <= i < before.1.len() && before.1[i] == a;
                assert(after.1[i] == a);
            }
        }
    } else {
        assert(!list.contains(a));
    }
}

/// A certificate with a quorum counts for every validator it was to be signed by;
/// one without a quorum counts for nobody.
pub proof fn certificates_count_for_everyone(
    s: StateModel,
    list: Seq<Seq<char>>,
    signers: Set<Seq<char>>,
    height: u64,
    a: Seq<char>,
)
    requires
        list.no_duplicates(),
        counters_fit(s, 1),
        height + 300 <= u64::MAX,
    ensures
        ({
            let (t, jailed) = participation(s, list, signers, height);
            &&& carries_quorum(s, list, signers) ==> took_part(
                s,
                t,
                jailed,
                list,
                signers,
                height,
                a,
            )
            &&& !carries_quorum(s, list, signers) ==> t == s && jailed.len() == 0
        }),
{
    steps_take_part(s, list, signers, height, a);
}

/// The values of a list, added up.
pub open spec fn added(list: Seq<Seq<char>>, value: spec_fn(Seq<char>) -> int) -> int
    decreases list.len(),
{
    if list.len() == 0 {
        0
    } else {
        added(list.drop_last(), value) + value(list.last())
    }
}

/// What stands behind a validator: its own stake and what is delegated to it.
pub open spec fn backing(s: StateModel, a: Seq<char>) -> int {
    let n = s.account(a).staked + s.pool(a).total_delegated_stake;
    if n <= u64::MAX {
        n
    } else {
        u64::MAX as int
    }
}

/// A validator's say: what stands behind it if it is a verified person, else half,
/// but no more than a hundredth of what stands behind all.
pub open spec fn say(s: StateModel, whole: int, a: Seq<char>) -> int {
    let offer = if s.personhood.contains_key(a) && s.personhood[a] is Verified {
        backing(s, a)
    } else {
        backing(s, a) / 2
    };
    if offer <= whole / 100 {
        offer
    } else {
        whole / 100
    }
}

proof fn says_add_up(
    s: StateModel,
    list: Seq<Seq<char>>,
    whole: nat,
    signers: Set<Seq<char>>,
)
    requires
        whole <= u64::MAX,
    ensures
        ({
            let c = candidates(s, list);
            let w = Seq::new(
                c.len(),
                |i: int| ValidatorModel { voting_power: power_in(c[i], whole) as u64, ..c[i] },
            );
            &&& full_stake(c) == added(list, |a: Seq<char>| backing(s, a))
            &&& power_sum(w) == added(list, |a: Seq<char>| say(s, whole as int, a))
            &&& power_of(w, signers) == added(
                list,
                |a: Seq<char>|
                    if signers.contains(a) {
                        say(s, whole as int, a)
                    } else {
                        0
                    },
            )
        }),
    decreases list.len(),
{
    let c = candidates(s, list);
    let w = Seq::new(
        c.len(),
        |i: int| ValidatorModel { voting_power: power_in(c[i], whole) as u64, ..c[i] },
    );
    if list.len() > 0 {
        let front = list.drop_last();
        says_add_up(s, front, whole, signers);
        let d = candidates(s, front);
        let v = Seq::new(
            d.len(),
            |i: int| ValidatorModel { voting_power: power_in(d[i], whole) as u64, ..d[i] },
        );
        assert(c.drop_last() =~= d);
        assert(w.drop_last() =~= v);
        assert(w.last() == w[list.len() - 1]);
        assert(c.last() == c[list.len() - 1]);
        let a = list.last();
        assert(c.last().stake == backing(s, a));
    }
}

/// A quorum is more than two thirds of the say of all, by those who signed.
pub proof fn a_quorum_is_two_thirds_of_the_say(
    s: StateModel,
    list: Seq<Seq<char>>,
    signers: Set<Seq<char>>,
)
    requires
        added(list, |a: Seq<char>| backing(s, a)) <= u64::MAX,
    ensures
        ({
            let whole = added(list, |a: Seq<char>| backing(s, a));
            let all = added(list, |a: Seq<char>| say(s, whole, a));
            let signed = added(
                list,
                |a: Seq<char>|
                    if signers.contains(a) {
                        say(s, whole, a)
                    } else {
                        0
                    },
            );
            carries_quorum(s, list, signers) <==> 3 * signed > 2 * all
        }),
{
    let c = candidates(s, list);
    says_add_up(s, list, 0, signers);
    let whole = full_stake(c);
    says_add_up(s, list, whole, signers);
    let w = Seq::new(
        c.len(),
        |i: int| ValidatorModel { voting_power: power_in(c[i], whole) as u64, ..c[i] },
    );
    assert(w =~= weighed(c));
}

} // verus!
