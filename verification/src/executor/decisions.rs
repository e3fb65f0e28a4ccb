//! What votes, claims, evidence and validators' own reports do, and what they
//! leave alone.
use crate::crypto::address::{address_fault, address_of};
use crate::crypto::keys::verify_outcome;
use crate::encoding::le_value;
use crate::executor::account::AccountModel;
use crate::executor::effects::{is_due, only_the_fee};
use crate::executor::engine::{operation_done, operation_fault};
use crate::executor::laws::slashing_takes_stake_alone;
use crate::executor::payments::charged;
use crate::executor::slashing::slashed;
use crate::executor::state::StateModel;
use crate::executor::validators::{by_stake, is_largest_stake};
use crate::executor::value::books_keep_wf;
use crate::executor::votes::{evidence_fits, incident_name, incident_noted, largest_stake_is};
use crate::identity::personhood::StatusModel;
use crate::sums::total;
use crate::text::{decimal, decimal_holds_digits, decimal_tells_numbers_apart};
use crate::transaction::{DoubleSignEvidence, Findings, Transaction};
use vstd::prelude::*;

verus! {

/// Eight bytes as a number, the lowest first.
pub open spec fn number8(b: Seq<u8>) -> int {
    b[0] + 0x100 * b[1] + 0x1_0000 * b[2] + 0x100_0000 * b[3] + 0x1_0000_0000 * b[4]
        + 0x100_0000_0000 * b[5] + 0x1_0000_0000_0000 * b[6] + 0x100_0000_0000_0000 * b[7]
}

proof fn eight_bytes_are_a_number(b: Seq<u8>)
    requires
        b.len() == 8,
    ensures
        le_value(b) == number8(b),
        number8(b) <= u64::MAX,
{
    let b1 = b.drop_first();
    let b2 = b1.drop_first();
    let b3 = b2.drop_first();
    let b4 = b3.drop_first();
    let b5 = b4.drop_first();
    let b6 = b5.drop_first();
    let b7 = b6.drop_first();
    let b8 = b7.drop_first();
    assert(le_value(b8) == 0);
    assert(le_value(b7) == b[7]);
    assert(le_value(b6) == b[6] + 256 * le_value(b7));
    assert(le_value(b5) == b[5] + 256 * le_value(b6));
    assert(le_value(b4) == b[4] + 256 * le_value(b5));
    assert(le_value(b3) == b[3] + 256 * le_value(b4));
    assert(le_value(b2) == b[2] + 256 * le_value(b3));
    assert(le_value(b1) == b[1] + 256 * le_value(b2));
    assert(le_value(b) == b[0] + 256 * le_value(b1));
}

/// A vote is taken exactly from a staker, on a proposal that is there, is open, has
/// not been executed, and that this staker has not voted on. It adds the voter's
/// stake. Exactly if the stake behind the proposal is then more than two thirds of
/// all there was when it was made, the parameter that it names gets the value that
/// it names; the other parameter never changes, and without that both stay.
pub proof fn a_vote_over_the_quorum_sets_the_parameter(
    s: StateModel,
    tx: Transaction,
    f: Findings,
    height: u64,
)
    requires
        is_due(s, tx),
        tx.tx_type is VoteProposal,
        forall|id: u64| #[trigger] s.proposals.contains_key(id) ==> s.proposals[id].id == id,
    ensures
        ({
            let id = number8(tx.data@) as u64;
            let p = s.proposals[id];
            &&& operation_fault(s, tx, f, height) is None <==> {
                &&& s.account(tx.from@).staked > 0
                &&& tx.data@.len() == 8
                &&& s.proposals.contains_key(id)
                &&& !p.executed
                &&& height <= p.created_at_height + 1000
                &&& !p.voters.contains(tx.from@)
            }
            &&& operation_fault(s, tx, f, height) is None ==> {
                let t = operation_done(s, tx, f, height);
                let q = t.proposals[id];
                let stake = p.yes_stake + s.account(tx.from@).staked;
                let passed = 3 * q.yes_stake > 2 * p.total_staked_at_creation;
                &&& stake <= u64::MAX ==> q.yes_stake == stake
                &&& stake > u64::MAX ==> q.yes_stake == u64::MAX
                &&& q.executed == passed
                &&& q.voters == p.voters.insert(tx.from@)
                &&& q.id == id && q.proposer == p.proposer && q.param == p.param && q.new_value
                    == p.new_value && q.created_at_height == p.created_at_height
                    && q.total_staked_at_creation == p.total_staked_at_creation
                &&& t.governance_params.min_validator_stake == (if passed
                    && p.param is MinValidatorStake {
                    p.new_value
                } else {
                    s.governance_params.min_validator_stake
                })
                &&& t.governance_params.fuel_per_fee_unit == (if passed && p.param is FuelPerFeeUnit {
                    p.new_value
                } else {
                    s.governance_params.fuel_per_fee_unit
                })
                &&& t.proposals == s.proposals.insert(id, q)
                &&& only_the_fee(s, t, tx)
                &&& t == (StateModel {
                    accounts: t.accounts,
                    proposals: t.proposals,
                    governance_params: t.governance_params,
                    ..s
                })
            }
        }),
{
    if tx.data@.len() == 8 {
        eight_bytes_are_a_number(tx.data@);
    }
}

proof fn some_stake_is_largest(s: StateModel, n: u64)
    requires
        forall|a: Seq<char>| #[trigger]
            s.accounts.contains_key(a) && address_fault(a) is None ==> s.effective(a) <= n,
    ensures
        exists|m: u64| is_largest_stake(s, m),
    decreases n,
{
    if n == 0 || exists|a: Seq<char>| #[trigger]
        s.accounts.contains_key(a) && address_fault(a) is None && s.effective(a) == n {
        assert(is_largest_stake(s, n));
    } else {
        some_stake_is_largest(s, (n - 1) as u64);
    }
}

/// A proposal is taken exactly from a staker, for a parameter that there is and a
/// value that is not too low; a new minimum stake only if somebody has that much
/// behind them. It is filed under the next number, open, without votes, and measured
/// against all the stake there is; no parameter changes yet.
pub proof fn a_proposal_is_filed_as_made(s: StateModel, tx: Transaction, f: Findings, height: u64)
    requires
        is_due(s, tx),
        tx.tx_type is CreateProposal,
        s.next_proposal_id < u64::MAX,
    ensures
        ({
            let value = number8(tx.data@.skip(1));
            &&& operation_fault(s, tx, f, height) is None <==> {
                &&& s.account(tx.from@).staked > 0
                &&& tx.data@.len() == 9
                &&& tx.data@[0] == 0 || tx.data@[0] == 1
                &&& tx.data@[0] == 0 ==> value >= 1_000_000_000_000 && exists|a: Seq<char>| #[trigger]
                    s.accounts.contains_key(a) && address_fault(a) is None && s.account(a).staked
                        + s.pool(a).total_delegated_stake >= value
                &&& tx.data@[0] == 1 ==> value >= 1
            }
            &&& operation_fault(s, tx, f, height) is None ==> {
                let t = operation_done(s, tx, f, height);
                let p = t.proposals[s.next_proposal_id];
                &&& t.proposals == s.proposals.insert(s.next_proposal_id, p)
                &&& t.next_proposal_id == s.next_proposal_id + 1
                &&& p.id == s.next_proposal_id
                &&& p.proposer == tx.from@
                &&& p.param is MinValidatorStake <==> tx.data@[0] == 0
                &&& p.param is FuelPerFeeUnit <==> tx.data@[0] == 1
                &&& p.new_value == value
                &&& p.created_at_height == height
                &&& p.voters == Set::<Seq<char>>::empty()
                &&& p.yes_stake == 0
                &&& !p.executed
                &&& p.total_staked_at_creation == total(
                    s.accounts,
                    |a: AccountModel| a.staked as nat,
                )
                &&& only_the_fee(s, t, tx)
                &&& t == (StateModel {
                    accounts: t.accounts,
                    proposals: t.proposals,
                    next_proposal_id: t.next_proposal_id,
                    ..s
                })
            }
        }),
{
    if tx.data@.len() == 9 {
        eight_bytes_are_a_number(tx.data@.skip(1));
        let value = number8(tx.data@.skip(1));
        assert forall|a: Seq<char>| #[trigger]
            s.accounts.contains_key(a) && address_fault(a) is None implies s.effective(a)
            <= u64::MAX by {}
        some_stake_is_largest(s, u64::MAX);
        let n = choose|n: u64| is_largest_stake(s, n);
        largest_stake_is(s, n);
        if value <= n && value > 0 {
            let a = choose|a: Seq<char>| #[trigger]
                s.accounts.contains_key(a) && address_fault(a) is None && s.effective(a) == n;
            assert(s.account(a).staked + s.pool(a).total_delegated_stake >= value);
        }
        if exists|a: Seq<char>| #[trigger]
            s.accounts.contains_key(a) && address_fault(a) is None && s.account(a).staked + s.pool(
                a,
            ).total_delegated_stake >= value {
            let a = choose|a: Seq<char>| #[trigger]
                s.accounts.contains_key(a) && address_fault(a) is None && s.account(a).staked
                    + s.pool(a).total_delegated_stake >= value;
            assert(s.effective(a) >= value);
        }
    }
    let c = charged(s, tx);
    same_stake_in_all(s, tx);
}

/// Paying a fee leaves all stake as it was.
proof fn same_stake_in_all(s: StateModel, tx: Transaction)
    requires
        is_due(s, tx),
    ensures
        total(charged(s, tx).accounts, by_stake()) == total(
            s.accounts,
            |a: AccountModel| a.staked as nat,
        ),
        total(s.accounts, by_stake()) <= u64::MAX,
{
    let weight = |a: AccountModel| a.staked as nat;
    assert(by_stake() =~= weight);
    crate::sums::total_after_insert(
        s.accounts,
        by_stake(),
        tx.from@,
        charged(s, tx).account(tx.from@),
    );
    crate::executor::validators::well_formed_sums_fit(s, tx.from@, tx.from@);
}

/// Somebody becomes a verified person exactly by a proof that holds, signed by one
/// of the authorities, on a commitment that nobody has claimed. The commitment is
/// used up, the sender is verified, and nobody else's standing changes.
pub proof fn a_claim_verifies_its_sender(s: StateModel, tx: Transaction, f: Findings, height: u64)
    requires
        is_due(s, tx),
        tx.tx_type is ProvePersonhood,
    ensures
        ({
            let p = f.personhood->0;
            &&& operation_fault(s, tx, f, height) is None <==> {
                &&& f.personhood is Some
                &&& p.proof_verified
                &&& exists|i: int|
                    0 <= i < s.personhood_authorities.len() && verify_outcome(
                        p.authority_crypto_version,
                        #[trigger] s.personhood_authorities[i],
                        p.authority_preimage@,
                        p.authority_signature@,
                    ) is Ok
                &&& !s.used_personhood_commitments.contains(p.commitment@)
            }
            &&& operation_fault(s, tx, f, height) is None ==> {
                let t = operation_done(s, tx, f, height);
                &&& t.used_personhood_commitments == s.used_personhood_commitments.insert(
                    p.commitment@,
                )
                &&& t.personhood.dom() == s.personhood.dom().insert(tx.from@)
                &&& t.personhood[tx.from@] == (StatusModel::Verified { verified_at_height: 0 })
                &&& forall|a: Seq<char>|
                    a != tx.from@ && s.personhood.contains_key(a) ==> #[trigger] t.personhood[a]
                        == s.personhood[a]
                &&& only_the_fee(s, t, tx)
                &&& t == (StateModel {
                    accounts: t.accounts,
                    used_personhood_commitments: t.used_personhood_commitments,
                    personhood: t.personhood,
                    ..s
                })
            }
        }),
{
    if operation_fault(s, tx, f, height) is None {
        let t = operation_done(s, tx, f, height);
        assert(t.personhood.dom() =~= s.personhood.dom().insert(tx.from@));
    }
}

/// A heartbeat is taken exactly from a probationer who still owes one; it is then
/// seen, and nothing else changes.
pub proof fn a_heartbeat_is_seen(s: StateModel, tx: Transaction, f: Findings, height: u64)
    requires
        is_due(s, tx),
        tx.tx_type is ProbationHeartbeat,
    ensures
        operation_fault(s, tx, f, height) is None <==> s.probationary_validators.contains(tx.from@)
            && !s.probation_seen.contains(tx.from@),
        operation_fault(s, tx, f, height) is None ==> {
            let t = operation_done(s, tx, f, height);
            &&& t.probation_seen == s.probation_seen.insert(tx.from@)
            &&& only_the_fee(s, t, tx)
            &&& t == (StateModel { accounts: t.accounts, probation_seen: t.probation_seen, ..s })
        },
{
}

/// A validator leaves jail exactly from the height on that it was jailed until; it
/// does not get its seat back, and nobody else is let out.
pub proof fn jail_ends_with_its_term(s: StateModel, tx: Transaction, f: Findings, height: u64)
    requires
        is_due(s, tx),
        tx.tx_type is Unjail,
    ensures
        operation_fault(s, tx, f, height) is None <==> s.jailed_until.contains_key(tx.from@)
            && s.jailed_until[tx.from@] <= height,
        operation_fault(s, tx, f, height) is None ==> {
            let t = operation_done(s, tx, f, height);
            &&& t.jailed_until == s.jailed_until.remove(tx.from@)
            &&& only_the_fee(s, t, tx)
            &&& t == (StateModel { accounts: t.accounts, jailed_until: t.jailed_until, ..s })
        },
{
}

/// A commission is taken exactly up to fifty percent. It is then the commission of
/// the sender's own pool, whose value and shares stay.
pub proof fn a_commission_is_set_as_asked(s: StateModel, tx: Transaction, f: Findings, height: u64)
    requires
        is_due(s, tx),
        tx.tx_type is SetCommission,
    ensures
        ({
            let bps = tx.data@[0] + 0x100 * tx.data@[1];
            &&& operation_fault(s, tx, f, height) is None <==> tx.data@.len() == 2 && bps <= 5_000
            &&& operation_fault(s, tx, f, height) is None ==> {
                let t = operation_done(s, tx, f, height);
                let q = t.validator_pools[tx.from@];
                &&& t.validator_pools == s.validator_pools.insert(tx.from@, q)
                &&& q.commission_bps == bps
                &&& q.total_shares == s.pool(tx.from@).total_shares
                &&& q.total_delegated_stake == s.pool(tx.from@).total_delegated_stake
                &&& only_the_fee(s, t, tx)
                &&& t == (StateModel { accounts: t.accounts, validator_pools: t.validator_pools, ..s })
            }
        }),
{
    if tx.data@.len() == 2 {
        let d1 = tx.data@.drop_first();
        assert(le_value(d1.drop_first()) == 0);
        assert(le_value(d1) == tx.data@[1]);
        assert(le_value(tx.data@) == tx.data@[0] + 256 * le_value(d1));
    }
}

/// Evidence is taken exactly if both votes are the accused's own, signed by the key
/// that its address belongs to, for one height and round and for different blocks,
/// and the incident is not on record. It goes on record; the accused loses five
/// percent of its stake; no balance changes but the sender's, by the fee; and all
/// that is lost of what was at stake is burned.
pub proof fn evidence_costs_five_percent(s: StateModel, tx: Transaction, f: Findings, height: u64)
    requires
        is_due(s, tx),
        tx.tx_type is SubmitDoubleSignEvidence,
        evidence_fits(s, f),
    ensures
        ({
            let e = f.evidence->0;
            let v = e.validator@;
            &&& operation_fault(s, tx, f, height) is None <==> {
                &&& f.evidence is Some
                &&& e.vote_a.validator@ == v && e.vote_b.validator@ == v
                &&& e.vote_a.height == e.height && e.vote_b.height == e.height
                &&& e.vote_a.round == e.round && e.vote_b.round == e.round
                &&& e.vote_a.block_hash@ != e.vote_b.block_hash@
                &&& address_of(e.vote_a.public_key@) == v && address_of(
                    e.vote_b.public_key@,
                ) == v
                &&& verify_outcome(
                    e.vote_a.crypto_version,
                    e.vote_a.public_key@,
                    e.vote_a.signing_bytes@,
                    e.vote_a.signature@,
                ) is Ok
                &&& verify_outcome(
                    e.vote_b.crypto_version,
                    e.vote_b.public_key@,
                    e.vote_b.signing_bytes@,
                    e.vote_b.signature@,
                ) is Ok
                &&& !s.slashed_double_sign_incidents.contains(incident_name(e))
            }
            &&& operation_fault(s, tx, f, height) is None ==> {
                let t = operation_done(s, tx, f, height);
                &&& t.slashed_double_sign_incidents == s.slashed_double_sign_incidents.insert(
                    incident_name(e),
                )
                &&& t.account(v).staked == s.account(v).staked - s.account(v).staked * 500 / 10_000
                &&& forall|a: Seq<char>|
                    (#[trigger] t.account(a)).balance == s.account(a).balance - (if a == tx.from@ {
                        tx.fee as int
                    } else {
                        0
                    })
                &&& t.total_burned >= s.total_burned
                &&& t.at_stake() + t.total_burned == s.at_stake() + s.total_burned
            }
        }),
{
    if operation_fault(s, tx, f, height) is None {
        let e = f.evidence->0;
        let v = e.validator@;
        let noted = incident_noted(s, e);
        books_keep_wf(s, noted);
        slashing_takes_stake_alone(noted, v, 500);
        let u = slashed(noted, v, 500);
        let t = operation_done(s, tx, f, height);
        assert(t == charged(u, tx));
        let x = u.account(tx.from@);
        crate::sums::total_after_insert(
            u.accounts,
            crate::executor::state::by_bond(),
            tx.from@,
            t.account(tx.from@),
        );
        crate::executor::slashing::part_fits(s.account(v).staked, 500);
        assert(noted.account(v) == s.account(v));
        assert forall|a: Seq<char>|
            (#[trigger] t.account(a)).balance == s.account(a).balance - (if a == tx.from@ {
                tx.fee as int
            } else {
                0
            }) by {
            assert(u.account(a).balance == noted.account(a).balance);
            assert(noted.account(a) == s.account(a));
        }
        crate::executor::slashing::stake_slashed_keeps_books(noted, v, 500);
        assert(t.account(v).staked == u.account(v).staked);
    }
}

/// Texts that end in the same way behind their last colon are the same before it.
proof fn last_colon_splits(a: Seq<char>, b: Seq<char>, x: Seq<char>, y: Seq<char>)
    requires
        a + ":"@ + b == x + ":"@ + y,
        !b.contains(':'),
        !y.contains(':'),
    ensures
        a == x,
        b == y,
{
    reveal_strlit(":");
    let s = a + ":"@ + b;
    let t = x + ":"@ + y;
    assert(s.len() == a.len() + 1 + b.len());
    assert(t.len() == x.len() + 1 + y.len());
    assert(s[a.len() as int] == ':');
    assert(t[x.len() as int] == ':');
    assert(s == t);
    if a.len() < x.len() {
        let i = x.len() - a.len() - 1;
        assert(0 <= i < b.len());
        assert(s[x.len() as int] == b[i]);
        assert(b[i] == ':');
    }
    if x.len() < a.len() {
        let i = a.len() - x.len() - 1;
        assert(0 <= i < y.len());
        assert(t[a.len() as int] == y[i]);
        assert(y[i] == ':');
    }
    assert(a =~= s.take(a.len() as int));
    assert(x =~= t.take(x.len() as int));
    assert(b =~= s.skip(a.len() as int + 1));
    assert(y =~= t.skip(x.len() as int + 1));
}

/// Incidents have the same name only if validator, height and round are the same:
/// none is taken for another, and so none goes unpunished.
pub proof fn incidents_are_told_apart(d: DoubleSignEvidence, e: DoubleSignEvidence)
    ensures
        incident_name(d) == incident_name(e) <==> d.validator@ == e.validator@ && d.height
            == e.height && d.round == e.round,
{
    if incident_name(d) == incident_name(e) {
        let (dh, eh) = (decimal(d.height as nat), decimal(e.height as nat));
        let (dr, er) = (decimal(d.round as nat), decimal(e.round as nat));
        decimal_holds_digits(d.height as nat);
        decimal_holds_digits(e.height as nat);
        decimal_holds_digits(d.round as nat);
        decimal_holds_digits(e.round as nat);
        last_colon_splits(d.validator@ + ":"@ + dh, dr, e.validator@ + ":"@ + eh, er);
        last_colon_splits(d.validator@, dh, e.validator@, eh);
        decimal_tells_numbers_apart(d.height as nat, e.height as nat);
        decimal_tells_numbers_apart(d.round as nat, e.round as nat);
    }
}

} // verus!
