//! How transactions are executed, and blocks and epochs closed, step by step.
use crate::crypto::address::address_fault;
use crate::crypto::Address;
use crate::executor::block::{closed_block, mint_for, settled, Closing};
use crate::executor::delegation::pruned;
use crate::executor::effects::{is_due, only_accounts, only_the_fee};
use crate::executor::engine::{executed, operation_done, operation_fault};
use crate::executor::fees::{reward_leaves_books, rewarded};
use crate::executor::genesis::block_reward;
use crate::executor::payments::charged;
use crate::executor::penalties::backing;
use crate::executor::pools::held;
use crate::executor::quorum::{
    full_stake, participation, participation_only_jails, weighed, ValidatorModel,
};
use crate::executor::state::StateModel;
use crate::executor::validators::{is_largest_stake, redeemable};
use crate::table::in_key_order;
use crate::transaction::{Findings, Transaction};
use vstd::prelude::*;

verus! {

/// The first fifteen million seven hundred and sixty-eight thousand blocks are
/// scheduled one coin each, and every so many blocks later half as much, rounded down.
pub proof fn the_reward_halves(height: nat)
    ensures
        height < 15_768_000 ==> block_reward(height) == 1_000_000_000,
        block_reward(height + 15_768_000) == block_reward(height) / 2,
{
    assert((height + 15_768_000) / 15_768_000 == height / 15_768_000 + 1);
}

/// What is minted for a block is what is scheduled, as far as the supply allows.
pub proof fn minting_keeps_to_schedule_and_supply(s: StateModel, height: u64)
    ensures
        mint_for(s, height) <= block_reward(height as nat),
        s.total_issued <= s.total_supply ==> s.total_issued + mint_for(s, height) <= s.total_supply,
        s.total_issued >= s.total_supply ==> mint_for(s, height) == 0,
        s.total_issued + block_reward(height as nat) <= s.total_supply ==> mint_for(s, height)
            == block_reward(height as nat),
        s.total_issued <= s.total_supply <= s.total_issued + block_reward(height as nat)
            ==> s.total_issued + mint_for(s, height) == s.total_supply,
{
}

/// An account may validate exactly if it is there, under a proper address, is not in
/// jail, and has the minimum behind it, its own stake and what is delegated to it.
pub open spec fn may_validate(s: StateModel, a: Seq<char>) -> bool {
    &&& s.accounts.contains_key(a)
    &&& !s.jailed_until.contains_key(a)
    &&& address_fault(a) is None
    &&& s.account(a).staked + s.pool(a).total_delegated_stake
        >= s.governance_params.min_validator_stake
}

/// Those who may validate are those who qualify.
pub proof fn whoever_may_validate_qualifies(s: StateModel, a: Seq<char>)
    ensures
        s.qualifies(a) == may_validate(s, a),
        s.qualifying().contains(a) == may_validate(s, a),
{
}

/// An epoch's end sorts everybody who may validate. Whoever was active stays, and a
/// probationer who was seen becomes active; of the others, whoever was waiting goes
/// on probation, and everybody else waits. Nobody counts as seen any more, and
/// nothing else changes.
pub proof fn an_epoch_sorts_the_validators(s: StateModel, a: Seq<char>)
    ensures
        ({
            let t = s.rotated();
            let may = may_validate(s, a);
            let active = may && (s.active_validators.contains(a) || (
            s.probationary_validators.contains(a) && s.probation_seen.contains(a)));
            let probation = may && !active && s.pending_validators.contains(a);
            &&& t.active_validators.contains(a) == active
            &&& t.probationary_validators.contains(a) == probation
            &&& t.pending_validators.contains(a) == (may && !active && !probation)
            &&& !t.probation_seen.contains(a)
            &&& t == (StateModel {
                active_validators: t.active_validators,
                probationary_validators: t.probationary_validators,
                pending_validators: t.pending_validators,
                probation_seen: t.probation_seen,
                ..s
            })
        }),
{
}

/// Closing a block books what was burned and forgets moves whose time is up. The
/// certificate is judged on the active validators. Probationers who signed or
/// proposed are seen. If the epoch ends, the validators are sorted. Then the reward
/// goes to the recipient. Nothing else changes.
pub proof fn a_block_is_closed_in_order(s: StateModel, burned: nat, c: Closing)
    requires
        s.total_issued + mint_for(s, c.height) <= u64::MAX,
    ensures
        ({
            let t = closed_block(s, burned, c);
            let booked = pruned(
                StateModel {
                    total_burned: if s.total_burned + burned <= u64::MAX {
                        (s.total_burned + burned) as u64
                    } else {
                        u64::MAX
                    },
                    ..s
                },
                c.height,
            );
            let judged = participation(
                booked,
                in_key_order::<Address>(s.active_validators),
                c.signers,
                c.height,
            ).0;
            let seen = StateModel {
                probation_seen: t.probation_seen,
                ..judged
            };
            let paid = rewarded(
                StateModel { accounts: s.accounts, validator_pools: s.validator_pools, ..t },
                c.recipient,
                mint_for(s, c.height),
            );
            &&& t.total_burned == booked.total_burned
            &&& t.redelegations == booked.redelegations
            &&& t.missed_blocks == judged.missed_blocks
            &&& t.jailed_until == judged.jailed_until
            &&& t.total_issued == s.total_issued + mint_for(s, c.height)
            &&& t.total_supply == s.total_supply
            &&& t.accounts == paid.accounts
            &&& t.validator_pools == paid.validator_pools
            &&& !c.ends_epoch ==> {
                &&& t.active_validators == judged.active_validators
                &&& t.probationary_validators == s.probationary_validators
                &&& t.pending_validators == s.pending_validators
                &&& forall|a: Seq<char>|
                    t.probation_seen.contains(a) <==> s.probation_seen.contains(a) || (
                    s.probationary_validators.contains(a) && (#[trigger] c.signers.contains(a) || a
                        == c.proposer))
            }
            &&& c.ends_epoch ==> exists|u: StateModel|
                {
                    &&& t.active_validators == (#[trigger] u.rotated()).active_validators
                    &&& t.probationary_validators == u.rotated().probationary_validators
                    &&& t.pending_validators == u.rotated().pending_validators
                    &&& t.probation_seen == u.rotated().probation_seen
                    &&& u == (StateModel { probation_seen: u.probation_seen, ..judged })
                    &&& forall|a: Seq<char>|
                        u.probation_seen.contains(a) <==> s.probation_seen.contains(a) || (
                        s.probationary_validators.contains(a) && (#[trigger] c.signers.contains(a)
                            || a == c.proposer))
                }
            &&& t == (StateModel {
                total_burned: t.total_burned,
                redelegations: t.redelegations,
                missed_blocks: t.missed_blocks,
                jailed_until: t.jailed_until,
                total_issued: t.total_issued,
                accounts: t.accounts,
                validator_pools: t.validator_pools,
                active_validators: t.active_validators,
                probationary_validators: t.probationary_validators,
                pending_validators: t.pending_validators,
                probation_seen: t.probation_seen,
                ..s
            })
        }),
{
    let t = closed_block(s, burned, c);
    let booked = settled(s, burned, c.height);
    participation_only_jails(
        booked,
        in_key_order::<Address>(s.active_validators),
        c.signers,
        c.height,
    );
    let judged = participation(
        booked,
        in_key_order::<Address>(s.active_validators),
        c.signers,
        c.height,
    ).0;
    let u = crate::executor::validators::liveness_recorded(judged, c.signers, c.proposer);
    assert(u == (StateModel { probation_seen: u.probation_seen, ..judged }));
    assert(u.rotated() == u.rotated());
    let before = crate::executor::block::before_mint(s, burned, c);
    reward_leaves_books(before, c.recipient, mint_for(s, c.height));
}

/// The base fee of a transaction: so much for every byte, and none for evidence, nor
/// for the heartbeat that a probationer still owes.
pub open spec fn owed(s: StateModel, tx: Transaction, per_byte: u64) -> int {
    if tx.tx_type is SubmitDoubleSignEvidence {
        0
    } else if tx.tx_type is ProbationHeartbeat && s.probationary_validators.contains(tx.from@)
        && !s.probation_seen.contains(tx.from@) {
        0
    } else if per_byte * tx.size_bytes <= u64::MAX {
        per_byte * tx.size_bytes
    } else {
        u64::MAX as int
    }
}

/// A transaction is taken into a block exactly if it is signed by whoever controls
/// its sender, meant for this chain, pays at least its base fee, carries the
/// sender's nonce, and the sender can pay its fee; else nothing changes and nobody is
/// charged. One that is taken pays its fee: the base fee is burned, the rest is the
/// validator's. It does its operation, unless that is refused, when the fee and the
/// nonce are all that it costs.
pub proof fn taken_transactions_pay_and_do_their_work(
    s: StateModel,
    tx: Transaction,
    f: Findings,
    signed: bool,
    validator: Seq<char>,
    height: u64,
    per_byte: u64,
)
    requires
        s.wf(),
        tx.nonce < u64::MAX,
    ensures
        ({
            let (t, r) = executed(s, tx, f, signed, validator, height, per_byte);
            let taken = signed && tx.chain_id@ == s.chain_id && tx.fee >= owed(s, tx, per_byte)
                && s.account(tx.from@).nonce == tx.nonce && s.account(tx.from@).balance >= tx.fee;
            let fault = operation_fault(s, tx, f, height);
            &&& r.tx_hash == crate::crypto::hex_text::hex_chars(tx.hash@)
            &&& !taken ==> t == s && !r.success && r.fee_burned == 0 && r.fee_to_validator == 0
            &&& !taken && signed && tx.chain_id@ != s.chain_id ==> r.error is Some
            &&& taken ==> {
                &&& r.fee_burned == owed(s, tx, per_byte)
                &&& r.fee_burned + r.fee_to_validator == tx.fee
                &&& r.success == fault is None
                &&& r.error == fault
                &&& fault is None ==> t == rewarded(
                    operation_done(s, tx, f, height),
                    validator,
                    (tx.fee - owed(s, tx, per_byte)) as u64,
                )
                &&& fault is Some ==> exists|u: StateModel|
                    {
                        &&& only_the_fee(s, u, tx)
                        &&& only_accounts(s, u)
                        &&& t == #[trigger] rewarded(
                            u,
                            validator,
                            (tx.fee - owed(s, tx, per_byte)) as u64,
                        )
                    }
            }
        }),
{
    let taken = signed && tx.chain_id@ == s.chain_id && tx.fee >= owed(s, tx, per_byte)
        && s.account(tx.from@).nonce == tx.nonce && s.account(tx.from@).balance >= tx.fee;
    if taken && operation_fault(s, tx, f, height) is Some {
        let u = charged(s, tx);
        assert(only_the_fee(s, u, tx));
        assert(only_accounts(s, u));
        assert(executed(s, tx, f, signed, validator, height, per_byte).0 == rewarded(
            u,
            validator,
            (tx.fee - owed(s, tx, per_byte)) as u64,
        ));
    }
}

/// Unstaking is refused exactly of more than is staked, while something else of the
/// sender is unbonding, if it would leave nobody who may validate, or if it would
/// leave less than a tenth of all that stands behind a validator its own.
pub proof fn unstaking_is_refused_only_for_cause(
    s: StateModel,
    tx: Transaction,
    f: Findings,
    height: u64,
)
    requires
        is_due(s, tx),
        tx.tx_type is Unstake,
    ensures
        ({
            let a = s.account(tx.from@);
            let left = a.staked - tx.amount;
            let min = s.governance_params.min_validator_stake;
            let delegated = s.pool(tx.from@).total_delegated_stake as int;
            operation_fault(s, tx, f, height) is None <==> {
                &&& left >= 0
                &&& a.unbonding_stake == 0
                &&& a.staked < min || left >= min || exists|b: Seq<char>|
                    b != tx.from@ && #[trigger] may_validate(s, b)
                &&& delegated == 0 || left * 10 >= left + delegated
            }
        }),
{
    assert forall|b: Seq<char>| #[trigger] may_validate(s, b) == s.qualifies(b) by {}
    if exists|b: Seq<char>| b != tx.from@ && #[trigger] may_validate(s, b) {
        let b = choose|b: Seq<char>| b != tx.from@ && #[trigger] may_validate(s, b);
        assert(s.qualifies(b));
    }
    if exists|b: Seq<char>| #[trigger] s.qualifies(b) && b != tx.from@ {
        let b = choose|b: Seq<char>| #[trigger] s.qualifies(b) && b != tx.from@;
        assert(may_validate(s, b));
    }
}

/// The signing set lists the active validators and then the probationers, each in
/// address order with what stands behind it; without an active validator it is
/// empty, and the engine runs with all who may validate.
pub proof fn the_signing_set_lists_the_tiers(s: StateModel)
    ensures
        ({
            let full = |a: Seq<char>| (a, backing(s, a) as u64, false);
            let trial = |a: Seq<char>| (a, backing(s, a) as u64, true);
            let active = in_key_order::<Address>(s.active_validators).map_values(full);
            let probation = in_key_order::<Address>(s.probationary_validators).map_values(trial);
            let all = in_key_order::<Address>(
                Set::new(|a: Seq<char>| may_validate(s, a)),
            ).map_values(full);
            &&& s.active_validators.len() == 0 ==> s.signing_set().len() == 0
            &&& s.active_validators.len() == 0 ==> s.engine_set() == all
            &&& s.active_validators.len() > 0 ==> s.signing_set() == active + probation
            &&& s.active_validators.len() > 0 ==> s.engine_set() == active + probation
            &&& s.staker_list() == all.map_values(|e: (Seq<char>, u64, bool)| (e.0, e.1))
        }),
{
    let full = |a: Seq<char>| (a, backing(s, a) as u64, false);
    let trial = |a: Seq<char>| (a, backing(s, a) as u64, true);
    let may = Set::new(|a: Seq<char>| may_validate(s, a));
    assert(s.qualifying() =~= may);
    assert(s.tier(s.active_validators, false) =~= in_key_order::<Address>(
        s.active_validators,
    ).map_values(full));
    assert(s.tier(s.probationary_validators, true) =~= in_key_order::<Address>(
        s.probationary_validators,
    ).map_values(trial));
    assert(s.tier(s.qualifying(), false) =~= in_key_order::<Address>(may).map_values(full));
    assert(s.staker_list() =~= in_key_order::<Address>(may).map_values(full).map_values(
        |e: (Seq<char>, u64, bool)| (e.0, e.1),
    ));
}

/// A member's voting power is what stands behind it if it is a verified person, else
/// half, but at most a hundredth of all full members' stake, and none on probation.
pub proof fn voting_power_is_capped_stake(list: Seq<ValidatorModel>, i: int, v: ValidatorModel)
    requires
        0 <= i < list.len(),
    ensures
        ({
            let whole = full_stake(list);
            let m = list[i];
            let offer = if m.has_personhood {
                m.stake as int
            } else {
                m.stake as int / 2
            };
            let w = weighed(list)[i];
            &&& m.probationary ==> w.voting_power == 0
            &&& !m.probationary && offer <= whole / 100 ==> w.voting_power == offer
            &&& !m.probationary && offer > whole / 100 ==> w.voting_power == whole / 100
            &&& w.address == m.address && w.stake == m.stake && w.has_personhood == m.has_personhood
                && w.probationary == m.probationary
            &&& weighed(list).len() == list.len()
            &&& full_stake(list.push(v)) == whole + (if v.probationary {
                0
            } else {
                v.stake as int
            })
            &&& full_stake(Seq::empty()) == 0
        }),
{
    assert(list.push(v).drop_last() =~= list);
}

/// A position is worth its part of the pool's value, rounded down.
pub proof fn a_position_is_worth_its_part(s: StateModel, v: Seq<char>, d: Seq<char>)
    requires
        s.wf(),
    ensures
        ({
            let p = s.validator_pools[v];
            let n = held(s, v, d);
            let there = s.validator_pools.contains_key(v) && p.total_shares > 0 && n is Some;
            &&& redeemable(s, v, d) is Some <==> there
            &&& there ==> redeemable(s, v, d)->0 == n->0 * p.total_delegated_stake
                / p.total_shares as int
            &&& s.effective(v) == backing(s, v)
        }),
{
    crate::executor::validators::well_formed_sums_fit(s, v, d);
    if s.shares_of(v, d) is Some {
        crate::executor::value::position_within_pool(s, v, d);
        let p = s.validator_pools[v];
        if p.total_shares > 0 {
            crate::executor::validators::value_fits(
                s.shares_of(v, d)->0 as int,
                p.total_delegated_stake as int,
                p.total_shares as int,
            );
        }
    }
}

/// The largest stake is somebody's, and nobody has more behind them.
pub proof fn the_largest_stake_is_somebodys(s: StateModel, n: u64, a: Seq<char>)
    requires
        is_largest_stake(s, n),
    ensures
        s.accounts.contains_key(a) && address_fault(a) is None ==> backing(s, a) <= n,
        n > 0 ==> exists|b: Seq<char>| #[trigger]
            s.accounts.contains_key(b) && address_fault(b) is None && backing(s, b) == n,
{
    if n > 0 {
        let b = choose|b: Seq<char>| #[trigger]
            s.accounts.contains_key(b) && address_fault(b) is None && s.effective(b) == n;
        assert(s.accounts.contains_key(b) && address_fault(b) is None && backing(s, b) == n);
    }
}

} // verus!
