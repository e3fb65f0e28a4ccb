//! What holds of transactions in general, whatever their type.
use crate::crypto::Address;
use crate::executor::account::{self_bond_suffices, DelegationPool, RedelegationModel};
use crate::executor::block::{
    after_transactions, batch_fits, before_mint, closed_block, entry_fits, mint_for, settled, Batch,
    Closing,
};
use crate::executor::contracts::{call_leaves_books, paid_out, payments, with_writes};
use crate::executor::delegation::{
    deposit_holds_price, deposited, held_by, minted, price_holds, redeemed, withdrawal_holds_price,
    withdrawn,
};
use crate::executor::engine::{
    base_fee, executed, exclusion, operation_done, operation_fault, operation_leaves_validators,
    recovery_key_of,
};
use crate::executor::fees::{burned_part, reward_leaves_books, rewarded};
use crate::executor::identities::{payload_name, vote_for};
use crate::executor::payments::{another_qualifies, charged, moved, unstake_fault};
use crate::executor::quorum::participation_only_jails;
use crate::executor::slashing::{
    answers_for, entries_slashed, part_of, redelegation_slashed, redelegation_step,
    redelegations_slashed, shares_lost, slash_fits, slashed, stake_slashed,
    stake_slashed_keeps_books, stake_slashed_takes_stake,
};
use crate::executor::state::StateModel;
use crate::executor::validators::{is_largest_stake, redeemable, share_value, value_fits};
use crate::executor::value::{books_keep_wf, position_within_pool};
use crate::executor::votes::{
    evidence_fault, incident_name, personhood_fault, proposal_fault, slashed_accounts_are,
    slashing_leaves_balances, vote_fault, voted, SLASH_FRACTION_BPS,
};
use crate::identity::recovery::quorum_of;
use crate::table::in_key_order;
use crate::transaction::{authentic, Findings, Transaction, TxType};
use vstd::prelude::*;

verus! {

/// A transaction that is not signed by whoever controls its sender, is meant for
/// another chain, is out of turn, or cannot pay, changes nothing and costs nothing.
pub proof fn excluded_transactions_change_nothing(
    s: StateModel,
    tx: Transaction,
    f: Findings,
    signed: bool,
    validator: Seq<char>,
    height: u64,
    base_fee_per_byte: u64,
)
    requires
        !signed || tx.chain_id@ != s.chain_id || tx.nonce != s.account(tx.from@).nonce || tx.fee
            < base_fee(s, tx, base_fee_per_byte) || s.account(tx.from@).balance < tx.fee,
    ensures
        ({
            let (t, receipt) = executed(s, tx, f, signed, validator, height, base_fee_per_byte);
            &&& t == s
            &&& !receipt.success
            &&& receipt.fee_burned == 0
            &&& receipt.fee_to_validator == 0
        }),
{
}

/// Every other transaction pays its fee, no more and no less, between the burn and
/// the validator. If its operation is refused, that is all that it does beside
/// using up its nonce.
pub proof fn included_transactions_pay_their_fee(
    s: StateModel,
    tx: Transaction,
    f: Findings,
    signed: bool,
    validator: Seq<char>,
    height: u64,
    base_fee_per_byte: u64,
)
    requires
        exclusion(s, tx, signed, base_fee_per_byte) is None,
    ensures
        ({
            let (t, receipt) = executed(s, tx, f, signed, validator, height, base_fee_per_byte);
            &&& receipt.fee_burned + receipt.fee_to_validator == tx.fee
            &&& receipt.fee_burned == base_fee(s, tx, base_fee_per_byte)
            &&& receipt.success == operation_fault(s, tx, f, height) is None
            &&& !receipt.success ==> t == rewarded(charged(s, tx), validator, receipt.fee_to_validator)
        }),
{
}

proof fn payments_leave_nonces(
    s: StateModel,
    contract: Seq<char>,
    list: Seq<(Seq<char>, u64)>,
    a: Seq<char>,
)
    ensures
        paid_out(s, contract, list).account(a).nonce == s.account(a).nonce,
    decreases list.len(),
{
    if list.len() > 0 {
        payments_leave_nonces(s, contract, list.drop_last(), a);
    }
}

#[verifier::rlimit(40)]
proof fn operation_nonces(s: StateModel, tx: Transaction, f: Findings, height: u64, a: Seq<char>)
    requires
        s.wf(),
    ensures
        operation_done(s, tx, f, height).account(a).nonce == charged(s, tx).account(a).nonce,
{
    match tx.tx_type {
        TxType::CallContract => {
            let commit = f.call->Ok_0;
            let contract = tx.to->0@;
            let arrived = moved(charged(s, tx), tx.from@, contract, tx.amount);
            payments_leave_nonces(
                with_writes(arrived, contract, commit.storage_writes@),
                contract,
                payments(commit.transfers@),
                a,
            );
        },
        TxType::SubmitDoubleSignEvidence => {
            let e = f.evidence->0;
            let noted = StateModel {
                slashed_double_sign_incidents: s.slashed_double_sign_incidents.insert(
                    incident_name(e),
                ),
                ..s
            };
            books_keep_wf(s, noted);
            slashing_leaves_balances(noted, e.validator@, SLASH_FRACTION_BPS, a);
            slashing_leaves_balances(noted, e.validator@, SLASH_FRACTION_BPS, tx.from@);
        },
        _ => {},
    }
}

proof fn reward_leaves_nonces(s: StateModel, validator: Seq<char>, amount: u64, a: Seq<char>)
    ensures
        rewarded(s, validator, amount).account(a).nonce == s.account(a).nonce,
{
}

/// An included transaction moves its sender on by exactly one nonce, and nobody
/// else at all.
#[verifier::rlimit(40)]
pub proof fn nonces_count_transactions(
    s: StateModel,
    tx: Transaction,
    f: Findings,
    signed: bool,
    validator: Seq<char>,
    height: u64,
    base_fee_per_byte: u64,
    a: Seq<char>,
)
    requires
        s.wf(),
        tx.nonce < u64::MAX,
        exclusion(s, tx, signed, base_fee_per_byte) is None,
    ensures
        executed(s, tx, f, signed, validator, height, base_fee_per_byte).0.account(a).nonce == (
        if a == tx.from@ {
            s.account(a).nonce + 1
        } else {
            s.account(a).nonce as int
        }),
{
    let reward = (tx.fee - burned_part(tx.fee, base_fee(s, tx, base_fee_per_byte))) as u64;
    let c = charged(s, tx);
    assert(c.account(a).nonce == (if a == tx.from@ {
        s.account(a).nonce + 1
    } else {
        s.account(a).nonce as int
    }));
    if operation_fault(s, tx, f, height) is None {
        operation_nonces(s, tx, f, height, a);
        reward_leaves_nonces(operation_done(s, tx, f, height), validator, reward, a);
    } else {
        reward_leaves_nonces(c, validator, reward, a);
    }
}

/// A transaction works once. Whatever has been made of it, presenting it again
/// changes nothing.
pub proof fn no_transaction_works_twice(
    s: StateModel,
    tx: Transaction,
    f: Findings,
    signed: bool,
    validator: Seq<char>,
    height: u64,
    base_fee_per_byte: u64,
    again: Findings,
    signed_again: bool,
    validator_again: Seq<char>,
    height_again: u64,
    base_fee_again: u64,
)
    requires
        s.wf(),
        tx.nonce < u64::MAX,
        exclusion(s, tx, signed, base_fee_per_byte) is None,
    ensures
        ({
            let t = executed(s, tx, f, signed, validator, height, base_fee_per_byte).0;
            executed(
                t,
                tx,
                again,
                signed_again,
                validator_again,
                height_again,
                base_fee_again,
            ).0 == t
        }),
{
    nonces_count_transactions(
        s,
        tx,
        f,
        signed,
        validator,
        height,
        base_fee_per_byte,
        tx.from@,
    );
}

/// Once guardians have put a key in control of an address, no other key signs for
/// it: the old one stops working.
pub proof fn only_the_recovery_key_controls(s: StateModel, tx: Transaction)
    requires
        recovery_key_of(s, tx.from@) is Some,
        tx.public_key@ != recovery_key_of(s, tx.from@)->0,
    ensures
        !authentic(tx, recovery_key_of(s, tx.from@)),
{
}

/// Every approval in a pending recovery is a different guardian's.
pub open spec fn recovery_is_honest(s: StateModel) -> bool {
    forall|a: Seq<char>| #[trigger]
        s.recovery_requests.contains_key(a) ==> {
            &&& s.guardians.contains_key(a)
            &&& approvers_are_guardians(s.recovery_requests[a].approvals, s.guardians[a])
        }
}

/// The approvers are different, and all of them guardians.
pub open spec fn approvers_are_guardians(
    approvers: Seq<Seq<char>>,
    guardians: Seq<Seq<char>>,
) -> bool {
    &&& approvers.no_duplicates()
    &&& forall|i: int| 0 <= i < approvers.len() ==> guardians.contains(#[trigger] approvers[i])
}

proof fn another_guardian_approves(
    approvers: Seq<Seq<char>>,
    guardians: Seq<Seq<char>>,
    guardian: Seq<char>,
)
    requires
        approvers_are_guardians(approvers, guardians),
        guardians.contains(guardian),
        !approvers.contains(guardian),
    ensures
        approvers_are_guardians(approvers.push(guardian), guardians),
{
    let more = approvers.push(guardian);
    assert forall|i: int, j: int|
        0 <= i < more.len() && 0 <= j < more.len() && i != j implies more[i] != more[j] by {
        if i == approvers.len() {
            assert(approvers.contains(more[j]));
        } else if j == approvers.len() {
            assert(approvers.contains(more[i]));
        }
    }
}

proof fn vote_is_honest(s: StateModel, target: Seq<char>, key: Seq<u8>)
    requires
        recovery_is_honest(s),
    ensures
        approvers_are_guardians(vote_for(s, target, key), s.guardians[target]),
{
}

/// Whatever transactions come, the approvals in a pending recovery stay those of
/// different guardians.
#[verifier::rlimit(40)]
pub proof fn recovery_stays_honest(
    s: StateModel,
    tx: Transaction,
    f: Findings,
    signed: bool,
    validator: Seq<char>,
    height: u64,
    base_fee_per_byte: u64,
)
    requires
        s.wf(),
        recovery_is_honest(s),
    ensures
        recovery_is_honest(executed(s, tx, f, signed, validator, height, base_fee_per_byte).0),
{
    let t = executed(s, tx, f, signed, validator, height, base_fee_per_byte).0;
    recovery_books(s, tx, f, signed, validator, height, base_fee_per_byte);
    if operation_fault(s, tx, f, height) is None && tx.tx_type is ApproveRecovery {
        vote_is_honest(s, tx.to->0@, tx.data@);
        another_guardian_approves(
            vote_for(s, tx.to->0@, tx.data@),
            s.guardians[tx.to->0@],
            tx.from@,
        );
    }
    assert forall|a: Seq<char>| #[trigger] t.recovery_requests.contains_key(a) implies {
        &&& t.guardians.contains_key(a)
        &&& approvers_are_guardians(t.recovery_requests[a].approvals, t.guardians[a])
    } by {
        if s.recovery_requests.contains_key(a) {
        }
    }
}

/// What an executed transaction does to guardians, requests and keys.
#[verifier::rlimit(40)]
proof fn recovery_books(
    s: StateModel,
    tx: Transaction,
    f: Findings,
    signed: bool,
    validator: Seq<char>,
    height: u64,
    base_fee_per_byte: u64,
)
    requires
        s.wf(),
    ensures
        ({
            let t = executed(s, tx, f, signed, validator, height, base_fee_per_byte).0;
            if exclusion(s, tx, signed, base_fee_per_byte) is Some || operation_fault(
                s,
                tx,
                f,
                height,
            ) is Some {
                same_recovery(s, t)
            } else {
                same_recovery(operation_done(s, tx, f, height), t)
            }
        }),
        !(tx.tx_type is RegisterGuardians || tx.tx_type is ApproveRecovery
            || tx.tx_type is CancelRecoveryRequest) ==> same_recovery(
            s,
            operation_done(s, tx, f, height),
        ),
{
    match tx.tx_type {
        TxType::CallContract => {
            call_leaves_books(charged(s, tx), tx.from@, tx.to->0@, tx.amount, f.call->Ok_0);
        },
        TxType::SubmitDoubleSignEvidence => {
            let e = f.evidence->0;
            let noted = StateModel {
                slashed_double_sign_incidents: s.slashed_double_sign_incidents.insert(
                    incident_name(e),
                ),
                ..s
            };
            books_keep_wf(s, noted);
            stake_slashed_keeps_books(noted, e.validator@, SLASH_FRACTION_BPS);
        },
        _ => {},
    }
}

spec fn same_recovery(s: StateModel, t: StateModel) -> bool {
    &&& t.guardians == s.guardians
    &&& t.recovery_requests == s.recovery_requests
    &&& t.recovery_keys == s.recovery_keys
}

/// Control of an address passes to another key only by its guardians: by an
/// approval that makes a quorum of different guardians for that very key.
#[verifier::rlimit(40)]
pub proof fn control_changes_only_by_quorum(
    s: StateModel,
    tx: Transaction,
    f: Findings,
    signed: bool,
    validator: Seq<char>,
    height: u64,
    base_fee_per_byte: u64,
    a: Seq<char>,
)
    requires
        s.wf(),
        recovery_is_honest(s),
        recovery_key_of(
            executed(s, tx, f, signed, validator, height, base_fee_per_byte).0,
            a,
        ) != recovery_key_of(s, a),
    ensures
        tx.tx_type is ApproveRecovery,
        tx.to is Some && tx.to->0@ == a,
        s.guardians.contains_key(a),
        ({
            let approvers = vote_for(s, a, tx.data@).push(tx.from@);
            &&& approvers_are_guardians(approvers, s.guardians[a])
            &&& approvers.len() >= quorum_of(s.guardians[a].len())
        }),
        recovery_key_of(
            executed(s, tx, f, signed, validator, height, base_fee_per_byte).0,
            a,
        ) == Some(tx.data@),
{
    recovery_books(s, tx, f, signed, validator, height, base_fee_per_byte);
    vote_is_honest(s, a, tx.data@);
    if operation_fault(s, tx, f, height) is None && tx.tx_type is ApproveRecovery && tx.to->0@
        == a {
        another_guardian_approves(vote_for(s, a, tx.data@), s.guardians[a], tx.from@);
    }
}

/// What a state remembers for good: names keep their owners, and incidents that
/// were punished and commitments that were claimed stay on record.
pub open spec fn remembers(s: StateModel, t: StateModel) -> bool {
    &&& forall|n: Seq<char>| #[trigger]
        s.names.contains_key(n) ==> t.names.contains_key(n) && t.names[n] == s.names[n]
    &&& s.slashed_double_sign_incidents.subset_of(t.slashed_double_sign_incidents)
    &&& s.used_personhood_commitments.subset_of(t.used_personhood_commitments)
}

spec fn same_record(s: StateModel, t: StateModel) -> bool {
    &&& t.names == s.names
    &&& t.slashed_double_sign_incidents == s.slashed_double_sign_incidents
    &&& t.used_personhood_commitments == s.used_personhood_commitments
}

proof fn operations_leave_the_record(s: StateModel, tx: Transaction, f: Findings, height: u64)
    requires
        s.wf(),
    ensures
        !(tx.tx_type is RegisterName || tx.tx_type is ProvePersonhood
            || tx.tx_type is SubmitDoubleSignEvidence) ==> same_record(
            s,
            operation_done(s, tx, f, height),
        ),
{
    if tx.tx_type is CallContract {
        call_leaves_books(charged(s, tx), tx.from@, tx.to->0@, tx.amount, f.call->Ok_0);
    }
}

proof fn evidence_is_noted(s: StateModel, tx: Transaction, f: Findings, height: u64)
    requires
        s.wf(),
        tx.tx_type is SubmitDoubleSignEvidence,
    ensures
        same_record(
            StateModel {
                slashed_double_sign_incidents: s.slashed_double_sign_incidents.insert(
                    incident_name(f.evidence->0),
                ),
                ..s
            },
            operation_done(s, tx, f, height),
        ),
{
    let e = f.evidence->0;
    let noted = StateModel {
        slashed_double_sign_incidents: s.slashed_double_sign_incidents.insert(incident_name(e)),
        ..s
    };
    books_keep_wf(s, noted);
    stake_slashed_keeps_books(noted, e.validator@, SLASH_FRACTION_BPS);
}

/// No transaction takes a name away from its owner, or makes the state forget an
/// incident or a commitment.
pub proof fn nothing_on_record_is_lost(
    s: StateModel,
    tx: Transaction,
    f: Findings,
    signed: bool,
    validator: Seq<char>,
    height: u64,
    base_fee_per_byte: u64,
)
    requires
        s.wf(),
    ensures
        remembers(s, executed(s, tx, f, signed, validator, height, base_fee_per_byte).0),
{
    let t = executed(s, tx, f, signed, validator, height, base_fee_per_byte).0;
    let reward = (tx.fee - burned_part(tx.fee, base_fee(s, tx, base_fee_per_byte))) as u64;
    if exclusion(s, tx, signed, base_fee_per_byte) is None {
        match operation_fault(s, tx, f, height) {
            Some(_) => {
                reward_leaves_books(charged(s, tx), validator, reward);
                assert(same_record(s, t));
            },
            None => {
                let done = operation_done(s, tx, f, height);
                reward_leaves_books(done, validator, reward);
                assert(same_record(done, t));
                if tx.tx_type is RegisterName {
                    assert(!s.names.contains_key(payload_name(tx)));
                } else if tx.tx_type is ProvePersonhood {
                    assert(done.names == s.names);
                } else if tx.tx_type is SubmitDoubleSignEvidence {
                    evidence_is_noted(s, tx, f, height);
                } else {
                    operations_leave_the_record(s, tx, f, height);
                }
            },
        }
    }
}

/// Nor does a whole block: after all its transactions and its closing, everything
/// on record is still there, and pending recoveries are as honest as they were.
pub proof fn blocks_keep_the_record(s: StateModel, b: Batch, n: nat, burned: nat, c: Closing)
    requires
        s.wf(),
        batch_fits(s, b),
        n <= b.txs.len(),
    ensures
        ({
            let t = closed_block(after_transactions(s, b, n).0, burned, c);
            &&& remembers(s, t)
            &&& recovery_is_honest(s) ==> recovery_is_honest(t)
            &&& t.total_supply == s.total_supply
        }),
{
    transactions_keep_the_record(s, b, n);
    let u = after_transactions(s, b, n).0;
    closing_keeps_the_record(u, burned, c);
    let t = closed_block(u, burned, c);
    assert forall|a: Seq<char>| #[trigger] s.names.contains_key(a) implies t.names.contains_key(a)
        && t.names[a] == s.names[a] by {
        assert(u.names.contains_key(a));
    }
}

proof fn closing_keeps_the_record(u: StateModel, burned: nat, c: Closing)
    ensures
        ({
            let t = closed_block(u, burned, c);
            &&& t.names == u.names
            &&& t.slashed_double_sign_incidents == u.slashed_double_sign_incidents
            &&& t.used_personhood_commitments == u.used_personhood_commitments
            &&& t.guardians == u.guardians
            &&& t.recovery_requests == u.recovery_requests
            &&& t.recovery_keys == u.recovery_keys
            &&& t.total_supply == u.total_supply
        }),
{
    let booked = settled(u, burned, c.height);
    participation_only_jails(
        booked,
        in_key_order::<Address>(booked.active_validators),
        c.signers,
        c.height,
    );
    let before = before_mint(u, burned, c);
    reward_leaves_books(before, c.recipient, mint_for(before, c.height));
}

proof fn transactions_keep_the_record(s: StateModel, b: Batch, n: nat)
    requires
        s.wf(),
        batch_fits(s, b),
        n <= b.txs.len(),
    ensures
        ({
            let t = after_transactions(s, b, n).0;
            &&& remembers(s, t)
            &&& recovery_is_honest(s) ==> recovery_is_honest(t)
            &&& t.total_supply == s.total_supply
        }),
    decreases n,
{
    if n > 0 {
        let k = (n - 1) as nat;
        transactions_keep_the_record(s, b, k);
        let u = after_transactions(s, b, k).0;
        let t = after_transactions(s, b, n).0;
        let tx = b.txs[n - 1];
        let f = b.findings[n - 1];
        let signed = authentic(tx, recovery_key_of(u, tx.from@));
        assert(entry_fits(s, b, k as int));
        nothing_on_record_is_lost(u, tx, f, signed, b.recipient, b.height, b.base_fee_per_byte);
        if recovery_is_honest(u) {
            recovery_stays_honest(u, tx, f, signed, b.recipient, b.height, b.base_fee_per_byte);
        }
        operation_leaves_validators(u, tx, f, b.height);
        assert forall|a: Seq<char>| #[trigger] s.names.contains_key(a) implies t.names.contains_key(
            a,
        ) && t.names[a] == s.names[a] by {
            assert(u.names.contains_key(a));
        }
    }
}

/// An incident is punished once: on record, no evidence of it is taken again.
pub proof fn incidents_are_punished_once(s: StateModel, f: Findings)
    requires
        f.evidence is Some,
        s.slashed_double_sign_incidents.contains(incident_name(f.evidence->0)),
    ensures
        evidence_fault(s, f) is Some,
{
}

/// A commitment makes one person: claimed, it is not taken again, whoever sends it.
pub proof fn commitments_are_claimed_once(s: StateModel, f: Findings)
    requires
        f.personhood is Some,
        s.used_personhood_commitments.contains(f.personhood->0.commitment@),
    ensures
        personhood_fault(s, f) is Some,
{
}

/// Nobody becomes a verified person without an authority that was configured and
/// that signed for that very claim.
pub proof fn personhood_needs_an_authority(s: StateModel, f: Findings)
    requires
        personhood_fault(s, f) is None,
    ensures
        f.personhood is Some,
        f.personhood->0.proof_verified,
        s.personhood_authorities.len() > 0,
        crate::executor::votes::authority_signed(s, f.personhood->0),
{
}

/// A vote counts once, and the quorum it counts toward is the one that was set when
/// the proposal was made: stake that moves later does not lower it.
pub proof fn votes_count_once_toward_a_fixed_quorum(
    s: StateModel,
    tx: Transaction,
    id: u64,
    height: u64,
)
    requires
        crate::executor::governance::vote_of(tx.data@) == Ok::<
            u64,
            crate::executor::governance::GovernanceError,
        >(id),
        s.proposals.contains_key(id),
        s.proposals[id].id == id,
    ensures
        ({
            let t = voted(s, tx.from@, id);
            &&& vote_fault(t, tx, height) is Some
            &&& t.proposals[id].total_staked_at_creation
                == s.proposals[id].total_staked_at_creation
            &&& t.proposals[id].new_value == s.proposals[id].new_value
            &&& t.proposals[id].yes_stake >= s.proposals[id].yes_stake
        }),
{
}

/// A minimum stake that is accepted as a proposal leaves somebody with that much
/// behind them.
pub proof fn an_accepted_minimum_can_be_met(s: StateModel, tx: Transaction, n: u64)
    requires
        proposal_fault(s, tx) is None,
        crate::executor::governance::proposal_of(tx.data@)->Ok_0.0 is MinValidatorStake,
        is_largest_stake(s, n),
    ensures
        exists|a: Seq<char>| #[trigger]
            s.accounts.contains_key(a) && s.effective(a)
                >= crate::executor::governance::proposal_of(tx.data@)->Ok_0.1,
{
    let value = crate::executor::governance::proposal_of(tx.data@)->Ok_0.1;
    crate::executor::votes::largest_stake_is(s, n);
    let a = choose|a: Seq<char>| #[trigger]
        s.accounts.contains_key(a) && crate::crypto::address::address_fault(a) is None
            && s.effective(a) == n;
    assert(s.accounts.contains_key(a) && s.effective(a) >= value);
}

/// Releasing stake never leaves the network without a validator, unless the last
/// one qualified only through what others had delegated to it.
pub proof fn unstaking_leaves_a_validator(
    s: StateModel,
    tx: Transaction,
    f: Findings,
    height: u64,
    b: Seq<char>,
)
    requires
        s.wf(),
        tx.tx_type is Unstake,
        unstake_fault(s, tx) is None,
        s.qualifies(b),
        s.qualifies(tx.from@) ==> s.account(tx.from@).staked
            >= s.governance_params.min_validator_stake,
    ensures
        exists|c: Seq<char>| #[trigger] operation_done(s, tx, f, height).qualifies(c),
{
    let t = operation_done(s, tx, f, height);
    let a = s.account(tx.from@);
    let min = s.governance_params.min_validator_stake;
    if b != tx.from@ {
        assert(t.account(b) == s.account(b));
        assert(t.qualifies(b));
    } else if a.staked - tx.amount >= min {
        assert(t.account(b).staked == a.staked - tx.amount);
        assert(t.qualifies(b));
    } else {
        assert(another_qualifies(s, tx.from@));
        let c = choose|c: Seq<char>| #[trigger] s.qualifies(c) && c != tx.from@;
        assert(t.account(c) == s.account(c));
        assert(t.qualifies(c));
    }
}

/// A jailed validator is out, whatever its stake, until it has been let out.
pub proof fn jailed_validators_do_not_qualify(s: StateModel, a: Seq<char>)
    requires
        s.jailed_until.contains_key(a),
    ensures
        !s.qualifies(a),
        !s.rotated().active_validators.contains(a),
        !s.rotated().probationary_validators.contains(a),
        !s.rotated().pending_validators.contains(a),
{
}

/// What a slash burns is what is lost of all that is at stake. The validator loses
/// its part, rounded down; no balance, nonce or commission changes; and an address
/// without an account has nothing to lose.
pub proof fn slashing_takes_stake_alone(s: StateModel, validator: Seq<char>, bps: u64)
    requires
        s.wf(),
        bps <= 10_000,
        slash_fits(s, validator, bps),
    ensures
        ({
            let t = slashed(s, validator, bps);
            &&& t.wf()
            &&& t.total_burned >= s.total_burned
            &&& t.at_stake() + t.total_burned == s.at_stake() + s.total_burned
            &&& t.account(validator).staked == s.account(validator).staked - part_of(
                s.account(validator).staked,
                bps,
            )
            &&& forall|a: Seq<char>|
                (#[trigger] t.account(a)).balance == s.account(a).balance && t.account(a).nonce
                    == s.account(a).nonce
            &&& forall|v: Seq<char>|
                (#[trigger] t.pool(v)).commission_bps == s.pool(v).commission_bps
            &&& !s.accounts.contains_key(validator) ==> t == s
        }),
{
    if s.accounts.contains_key(validator) {
        stake_slashed_takes_stake(s, validator, bps);
        let u = stake_slashed(s, validator, bps);
        let t = slashed(s, validator, bps);
        books_keep_wf(u, t);
        assert forall|a: Seq<char>| (#[trigger] t.account(a)).balance == s.account(a).balance
            && t.account(a).nonce == s.account(a).nonce by {
            assert(t.account(a) == u.account(a));
        }
        assert forall|v: Seq<char>| (#[trigger] t.pool(v)).commission_bps == s.pool(
            v,
        ).commission_bps by {
            assert(t.pool(v) == u.pool(v));
        }
        assert(t.account(validator) == u.account(validator));
    }
    crate::executor::slashing::part_fits(s.account(validator).staked, bps);
}

/// Stake that is on its way out is slashed with the validator that it stood behind,
/// and with no other.
pub proof fn unbonding_stake_still_answers(
    s: StateModel,
    validator: Seq<char>,
    bps: u64,
    a: Seq<char>,
)
    requires
        s.wf(),
        bps <= 10_000,
        s.accounts.contains_key(validator),
        s.accounts.contains_key(a),
    ensures
        slashed(s, validator, bps).account(a).unbonding_stake == (if answers_for(
            a,
            s.account(a),
            validator,
        ) {
            (s.account(a).unbonding_stake - part_of(s.account(a).unbonding_stake, bps)) as u64
        } else {
            s.account(a).unbonding_stake
        }),
        slashed(s, validator, bps).account(a).staked == (if a == validator {
            (s.account(a).staked - part_of(s.account(a).staked, bps)) as u64
        } else {
            s.account(a).staked
        }),
{
    slashed_accounts_are(s, validator, bps);
}

/// What a position is worth does not fall as long as the price of a share holds.
pub proof fn price_protects_value(shares: u64, before: DelegationPool, after: DelegationPool)
    requires
        price_holds(before, after),
        0 < before.total_shares,
        0 < after.total_shares,
        shares <= before.total_shares,
        shares <= after.total_shares,
    ensures
        share_value(shares, after) >= share_value(shares, before),
{
    let n = shares as int;
    let s = before.total_shares as int;
    let d = before.total_delegated_stake as int;
    let s2 = after.total_shares as int;
    let d2 = after.total_delegated_stake as int;
    value_fits(n, d, s);
    value_fits(n, d2, s2);
    let q = n * d / s;
    assert(q * s <= n * d) by {
        vstd::arithmetic::div_mod::lemma_fundamental_div_mod(n * d, s);
        assert(q * s == s * q) by (nonlinear_arith);
    }
    assert(q * s2 <= n * d2) by (nonlinear_arith)
        requires
            q * s <= n * d,
            d2 * s >= d * s2,
            0 <= n,
            0 < s,
            0 < s2,
    ;
    vstd::arithmetic::div_mod::lemma_div_is_ordered(q * s2, n * d2, s2);
    vstd::arithmetic::div_mod::lemma_div_multiples_vanish(q, s2);
    assert(s2 * q == q * s2) by (nonlinear_arith);
}

/// Others can put stake into a pool and take theirs out without lowering what a
/// delegator's own position is worth.
pub proof fn others_do_not_lower_a_position(
    s: StateModel,
    validator: Seq<char>,
    other: Seq<char>,
    amount: u64,
    delegator: Seq<char>,
)
    requires
        s.wf(),
        delegator != other,
        redeemable(s, validator, delegator) is Some,
        s.pool(validator).total_delegated_stake > 0,
        s.pool(validator).total_shares + minted(s.pool(validator), amount) <= u64::MAX,
        s.pool(validator).total_delegated_stake + amount <= u64::MAX,
    ensures
        redeemable(deposited(s, validator, other, amount), validator, delegator) is Some,
        redeemable(deposited(s, validator, other, amount), validator, delegator)->0 >= redeemable(
            s,
            validator,
            delegator,
        )->0,
        redeemed(s.pool(validator), amount) <= held_by(s, validator, other) && amount <= s.pool(
            validator,
        ).total_delegated_stake && held_by(s, validator, delegator) > 0 ==> {
            &&& redeemable(withdrawn(s, validator, other, amount), validator, delegator) is Some
            &&& redeemable(withdrawn(s, validator, other, amount), validator, delegator)->0
                >= redeemable(s, validator, delegator)->0
        },
{
    let pool = s.pool(validator);
    let n = s.positions(validator)[delegator];
    position_within_pool(s, validator, delegator);
    let grown = deposited(s, validator, other, amount).validator_pools[validator];
    assert(0 <= minted(pool, amount)) by {
        if pool.total_shares > 0 {
            assert(0 <= amount as int * pool.total_shares as int) by (nonlinear_arith)
                requires
                    0 <= amount,
                    0 <= pool.total_shares,
            ;
            vstd::arithmetic::div_mod::lemma_div_pos_is_pos(
                amount as int * pool.total_shares as int,
                pool.total_delegated_stake as int,
            );
        }
    }
    deposit_holds_price(pool, amount);
    price_protects_value(n, pool, grown);
    if redeemed(pool, amount) <= held_by(s, validator, other) && amount
        <= pool.total_delegated_stake && n > 0 {
        two_positions_within_pool(s, validator, delegator, other);
        withdrawal_holds_price(pool, amount);
        let shrunk = withdrawn(s, validator, other, amount).validator_pools[validator];
        price_protects_value(n, pool, shrunk);
    }
}

proof fn two_positions_within_pool(
    s: StateModel,
    validator: Seq<char>,
    a: Seq<char>,
    b: Seq<char>,
)
    requires
        s.wf(),
        a != b,
        s.shares_of(validator, a) is Some,
    ensures
        held_by(s, validator, a) + held_by(s, validator, b) <= s.pool(validator).total_shares,
{
    assert(s.shares_backed(validator));
    let m = s.delegator_shares[validator];
    if m.contains_key(b) {
        crate::sums::total_bounds_two(m, crate::executor::state::by_shares(), a, b);
    } else {
        crate::sums::total_bounds_entry(m, crate::executor::state::by_shares(), a);
    }
}

proof fn one_move_spares_bystanders(
    s: StateModel,
    e: RedelegationModel,
    bps: u64,
    v: Seq<char>,
    b: Seq<char>,
)
    requires
        s.wf(),
        bps <= 10_000,
        !(e.dst == v && e.delegator == b),
        redeemable(s, v, b) is Some,
        held_by(s, v, b) > 0,
    ensures
        redeemable(redelegation_slashed(s, e, bps), v, b) is Some,
        redeemable(redelegation_slashed(s, e, bps), v, b)->0 >= redeemable(s, v, b)->0,
        held_by(redelegation_slashed(s, e, bps), v, b) == held_by(s, v, b),
{
    let lost = shares_lost(s, e, bps);
    if lost > 0 && e.dst == v {
        redelegation_step(s, e, bps);
        let t = redelegation_slashed(s, e, bps);
        let pool = s.validator_pools[v];
        let after = t.validator_pools[v];
        let n = held_by(s, v, b);
        two_positions_within_pool(s, v, b, e.delegator);
        let sh = pool.total_shares as int;
        let d = pool.total_delegated_stake as int;
        let l = lost as int;
        value_fits(l, d, sh);
        let taken = l * d / sh;
        assert(taken * sh <= l * d) by {
            vstd::arithmetic::div_mod::lemma_fundamental_div_mod(l * d, sh);
            assert(taken * sh == sh * taken) by (nonlinear_arith);
        }
        assert((d - taken) * sh >= d * (sh - l)) by (nonlinear_arith)
            requires
                taken * sh <= l * d,
        ;
        position_within_pool(s, v, b);
        price_protects_value(n, pool, after);
    }
}

proof fn moves_spare_bystanders(
    s: StateModel,
    list: Seq<RedelegationModel>,
    bps: u64,
    v: Seq<char>,
    b: Seq<char>,
)
    requires
        s.wf(),
        bps <= 10_000,
        forall|i: int|
            0 <= i < list.len() ==> !((#[trigger] list[i]).dst == v && list[i].delegator == b),
        redeemable(s, v, b) is Some,
        held_by(s, v, b) > 0,
    ensures
        entries_slashed(s, list, bps).0.wf(),
        redeemable(entries_slashed(s, list, bps).0, v, b) is Some,
        redeemable(entries_slashed(s, list, bps).0, v, b)->0 >= redeemable(s, v, b)->0,
        held_by(entries_slashed(s, list, bps).0, v, b) == held_by(s, v, b),
    decreases list.len(),
{
    if list.len() > 0 {
        let front = list.drop_last();
        moves_spare_bystanders(s, front, bps, v, b);
        let t = entries_slashed(s, front, bps).0;
        let e = list.last();
        one_move_spares_bystanders(t, e, bps, v, b);
        if shares_lost(t, e, bps) > 0 {
            redelegation_step(t, e, bps);
        }
    }
}

/// Slashing stake that has moved to another pool costs the delegators who moved it,
/// and nobody else in that pool.
pub proof fn moved_stake_is_slashed_without_bystanders(
    s: StateModel,
    validator: Seq<char>,
    bps: u64,
    v: Seq<char>,
    b: Seq<char>,
)
    requires
        s.wf(),
        bps <= 10_000,
        s.redelegations.contains_key(validator) ==> forall|i: int|
            0 <= i < s.redelegations[validator].len() ==> !((
            #[trigger] s.redelegations[validator][i]).dst == v
                && s.redelegations[validator][i].delegator == b),
        redeemable(s, v, b) is Some,
        held_by(s, v, b) > 0,
    ensures
        redeemable(redelegations_slashed(s, validator, bps), v, b) is Some,
        redeemable(redelegations_slashed(s, validator, bps), v, b)->0 >= redeemable(s, v, b)->0,
{
    if s.redelegations.contains_key(validator) {
        moves_spare_bystanders(s, s.redelegations[validator], bps, v, b);
    }
}

/// A validator that takes on stake, or releases its own, keeps the least part of
/// its own in what stands behind it.
#[verifier::rlimit(40)]
pub proof fn self_bond_is_kept(s: StateModel, tx: Transaction, f: Findings, height: u64)
    requires
        s.wf(),
        operation_fault(s, tx, f, height) is None,
    ensures
        tx.tx_type is Delegate ==> {
            let t = operation_done(s, tx, f, height);
            self_bond_suffices(
                t.account(tx.to->0@).staked as int,
                t.delegated_to(tx.to->0@) as int,
            )
        },
        tx.tx_type is Redelegate ==> {
            let t = operation_done(s, tx, f, height);
            self_bond_suffices(
                t.account(tx.to->0@).staked as int,
                t.delegated_to(tx.to->0@) as int,
            )
        },
        tx.tx_type is Unstake && s.delegated_to(tx.from@) > 0 ==> {
            let t = operation_done(s, tx, f, height);
            self_bond_suffices(t.account(tx.from@).staked as int, t.delegated_to(tx.from@) as int)
        },
{
    if tx.tx_type is Delegate {
        crate::executor::value::account_and_pool_within_wealth(s, tx.from@, tx.to->0@);
    }
    if tx.tx_type is Redelegate {
        let src = crate::executor::delegation::payload_text(tx);
        let dst = tx.to->0@;
        let pool = s.pool(src);
        let held = s.shares_of(src, tx.from@)->0;
        position_within_pool(s, src, tx.from@);
        value_fits(held as int, pool.total_delegated_stake as int, pool.total_shares as int);
        if s.validator_pools.contains_key(dst) {
            crate::sums::total_bounds_two(
                s.validator_pools,
                crate::executor::state::by_pool_value(),
                src,
                dst,
            );
        } else {
            crate::sums::total_bounds_entry(
                s.validator_pools,
                crate::executor::state::by_pool_value(),
                src,
            );
        }
    }
}

} // verus!
