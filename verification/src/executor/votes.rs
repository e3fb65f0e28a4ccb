//! Proposals, votes, personhood claims, evidence and the validators' own reports.
use crate::crypto::keys::{verify_outcome, verify_with_scheme};
use crate::executor::governance::{
    decode_proposal, decode_vote, proposal_of, quorum_threshold, supermajority, vote_of,
    GovernanceParam, GovernanceParams, GovernanceProposal, ProposalModel, VOTING_PERIOD_BLOCKS,
};
use crate::executor::payments::{can_charge, charge_sender, charged, settles};
use crate::executor::fees::saturated;
use crate::executor::slashing::{slash_fits, slashed, stake_slashed};
use crate::executor::state::{ChainState, StateModel, QUORUM_LIMIT};
use crate::executor::validators::{
    by_stake, is_largest_stake, proof_outstanding, well_formed_sums_fit,
};
use crate::executor::value::books_keep_wf;
use crate::identity::personhood::{PersonhoodStatus, StatusModel};
use crate::sums::total;
use crate::table::KeySet;
use crate::text::{decimal, decimal_text, joined2, joined4, joined5};
use crate::transaction::{
    evidence_conflicts, vote_authentic, DoubleSignEvidence, Findings, PersonhoodProofPayload,
    Transaction,
};
use vstd::prelude::*;

verus! {

/// Part of a validator's stake that a double-sign costs: five percent.
pub const SLASH_FRACTION_BPS: u64 = 500;

/// The largest effective stake of any account with a proper address.
pub open spec fn largest_stake(s: StateModel) -> u64 {
    choose|n: u64| is_largest_stake(s, n)
}

pub proof fn largest_stake_is(s: StateModel, n: u64)
    requires
        is_largest_stake(s, n),
    ensures
        largest_stake(s) == n,
{
    let m = largest_stake(s);
    assert(is_largest_stake(s, m));
    if m < n {
        let a = choose|a: Seq<char>| #[trigger]
            s.accounts.contains_key(a) && crate::crypto::address::address_fault(a) is None
                && s.effective(a) == n;
        assert(s.effective(a) <= m);
    }
    if n < m {
        let a = choose|a: Seq<char>| #[trigger]
            s.accounts.contains_key(a) && crate::crypto::address::address_fault(a) is None
                && s.effective(a) == m;
        assert(s.effective(a) <= n);
    }
}

/// Why a proposal is refused.
pub open spec fn proposal_fault(s: StateModel, tx: Transaction) -> Option<Seq<char>> {
    if s.account(tx.from@).staked == 0 {
        Some("only stakers may create governance proposals"@)
    } else {
        match proposal_of(tx.data@) {
            Err(e) => Some("invalid proposal payload: "@ + e.words()),
            Ok((param, value)) => if value < param.floor() {
                Some(crate::executor::governance::GovernanceError::ValueTooLow(param).words())
            } else if param is MinValidatorStake && value > largest_stake(s) {
                Some(
                    "proposed min_validator_stake "@ + decimal(value as nat)
                        + " exceeds the current largest single stake "@ + decimal(
                        largest_stake(s) as nat,
                    ) + " — would disqualify every validator at once"@,
                )
            } else {
                None
            },
        }
    }
}

/// A new proposal is open, measured against the stake that there is now.
pub open spec fn proposed(
    s: StateModel,
    from: Seq<char>,
    param: GovernanceParam,
    new_value: u64,
    height: u64,
) -> StateModel {
    let id = s.next_proposal_id;
    StateModel {
        next_proposal_id: (id + 1) as u64,
        proposals: s.proposals.insert(
            id,
            ProposalModel {
                id,
                proposer: from,
                param,
                new_value,
                created_at_height: height,
                voters: Set::empty(),
                yes_stake: 0,
                total_staked_at_creation: total(s.accounts, by_stake()) as u64,
                executed: false,
            },
        ),
        ..s
    }
}

pub fn execute_create_proposal(state: &mut ChainState, tx: &Transaction, height: u64) -> (r: Result<
    (),
    String,
>)
    requires
        can_charge(old(state)@, *tx),
        old(state)@.next_proposal_id < u64::MAX,
        height + VOTING_PERIOD_BLOCKS <= u64::MAX,
    ensures
        settles(
            old(state)@,
            final(state)@,
            proposal_fault(old(state)@, *tx),
            proposed(
                charged(old(state)@, *tx),
                tx.from@,
                proposal_of(tx.data@)->Ok_0.0,
                proposal_of(tx.data@)->Ok_0.1,
                height,
            ),
            r,
        ),
        r is Ok ==> final(state)@.wf() && final(state)@.wealth() + tx.fee == old(state)@.wealth(),
{
    if state.get_or_default(&tx.from).staked == 0 {
        return Err("only stakers may create governance proposals".to_owned());
    }
    let (param, new_value) = match decode_proposal(tx.data.as_slice()) {
        Ok(p) => p,
        Err(e) => {
            let words = e.message();
            return Err(joined2("invalid proposal payload: ", words.as_str()));
        },
    };
    match param.validate(new_value) {
        Ok(()) => {},
        Err(e) => {
            return Err(e.message());
        },
    }
    // A minimum above every stake would disqualify all validators at once.
    if param == GovernanceParam::MinValidatorStake {
        let ceiling: u64 = state.max_single_stake();
        proof {
            largest_stake_is(state@, ceiling);
        }
        if new_value > ceiling {
            let asked = decimal_text(new_value);
            let most = decimal_text(ceiling);
            return Err(
                joined5(
                    "proposed min_validator_stake ",
                    asked.as_str(),
                    " exceeds the current largest single stake ",
                    most.as_str(),
                    " — would disqualify every validator at once",
                ),
            );
        }
    }
    charge_sender(state, tx);
    let ghost before = state@;
    proof {
        well_formed_sums_fit(before, tx.from@, tx.from@);
    }
    let total_staked: u64 = state.total_staked();
    let id: u64 = state.next_proposal_id;
    state.next_proposal_id = id + 1;
    state.set_proposal(
        GovernanceProposal {
            id,
            proposer: tx.from.to_string(),
            param,
            new_value,
            created_at_height: height,
            voters: KeySet::new(),
            yes_stake: 0,
            total_staked_at_creation: total_staked,
            executed: false,
        },
    );
    proof {
        assert forall|k: u64| #[trigger] state@.proposals.contains_key(k) implies
            crate::executor::state::proposal_fits(state@.proposals[k]) by {
            if k != id {
                assert(before.proposals.contains_key(k));
            }
        }
        books_keep_wf(before, state@);
    }
    Ok(())
}

/// Why a vote is refused.
pub open spec fn vote_fault(s: StateModel, tx: Transaction, height: u64) -> Option<Seq<char>> {
    if s.account(tx.from@).staked == 0 {
        Some("only stakers may vote"@)
    } else {
        match vote_of(tx.data@) {
            Err(e) => Some("invalid vote payload: "@ + e.words()),
            Ok(id) => if !s.proposals.contains_key(id) {
                Some("proposal not found"@)
            } else if s.proposals[id].executed {
                Some("proposal already executed"@)
            } else if s.proposals[id].expired(height) {
                Some("voting period has expired"@)
            } else if s.proposals[id].voters.contains(tx.from@) {
                Some("address already voted on this proposal"@)
            } else {
                None
            },
        }
    }
}

/// The quorum of the proposal that a vote is for can be reckoned.
pub open spec fn vote_fits(s: StateModel, tx: Transaction, height: u64) -> bool {
    vote_fault(s, tx, height) is None
        ==> s.proposals[vote_of(tx.data@)->Ok_0].total_staked_at_creation <= QUORUM_LIMIT
}

/// Whether the quorum of the proposal that a vote is for can be reckoned.
pub fn vote_has_room(state: &ChainState, tx: &Transaction, height: u64) -> (r: bool)
    requires
        state@.wf(),
    ensures
        r == vote_fits(state@, *tx, height),
{
    let id: u64 = match decode_vote(tx.data.as_slice()) {
        Ok(n) => n,
        Err(_) => {
            return true;
        },
    };
    match state.proposal(id) {
        None => true,
        Some(p) => {
            proof {
                assert(state@.proposals.contains_key(id));
            }
            p.total_staked_at_creation <= QUORUM_LIMIT || state.get_or_default(&tx.from).staked == 0
                || p.executed || p.is_expired(height) || p.voters.contains(&tx.from.to_string())
        },
    }
}

/// The parameters with one of them set.
pub open spec fn param_set(p: GovernanceParams, param: GovernanceParam, value: u64) -> GovernanceParams {
    match param {
        GovernanceParam::MinValidatorStake => GovernanceParams { min_validator_stake: value, ..p },
        GovernanceParam::FuelPerFeeUnit => GovernanceParams { fuel_per_fee_unit: value, ..p },
    }
}

/// The stake behind a proposal once an account has voted for it.
pub open spec fn stake_with(s: StateModel, id: u64, voter: Seq<char>) -> u64 {
    saturated(s.proposals[id].yes_stake + s.account(voter).staked)
}

/// The vote takes the proposal over its quorum.
pub open spec fn passes(s: StateModel, id: u64, voter: Seq<char>) -> bool {
    stake_with(s, id, voter) >= supermajority(s.proposals[id].total_staked_at_creation as int)
}

/// An account has voted for a proposal; with a quorum the parameter is changed at once.
pub open spec fn voted(s: StateModel, voter: Seq<char>, id: u64) -> StateModel {
    let p = s.proposals[id];
    StateModel {
        proposals: s.proposals.insert(
            p.id,
            ProposalModel {
                voters: p.voters.insert(voter),
                yes_stake: stake_with(s, id, voter),
                executed: passes(s, id, voter),
                ..p
            },
        ),
        governance_params: if passes(s, id, voter) {
            param_set(s.governance_params, p.param, p.new_value)
        } else {
            s.governance_params
        },
        ..s
    }
}

pub fn execute_vote_proposal(state: &mut ChainState, tx: &Transaction, height: u64) -> (r: Result<
    (),
    String,
>)
    requires
        can_charge(old(state)@, *tx),
        vote_fits(old(state)@, *tx, height),
    ensures
        settles(
            old(state)@,
            final(state)@,
            vote_fault(old(state)@, *tx, height),
            voted(charged(old(state)@, *tx), tx.from@, vote_of(tx.data@)->Ok_0),
            r,
        ),
        r is Ok ==> final(state)@.wf() && final(state)@.wealth() + tx.fee == old(state)@.wealth(),
{
    let sender_staked: u64 = state.get_or_default(&tx.from).staked;
    if sender_staked == 0 {
        return Err("only stakers may vote".to_owned());
    }
    let id: u64 = match decode_vote(tx.data.as_slice()) {
        Ok(n) => n,
        Err(e) => {
            let words = e.message();
            return Err(joined2("invalid vote payload: ", words.as_str()));
        },
    };
    let mut proposal = match state.proposal(id) {
        None => {
            return Err("proposal not found".to_owned());
        },
        Some(p) => p.clone(),
    };
    proof {
        assert(state@.proposals.contains_key(id));
    }
    if proposal.executed {
        return Err("proposal already executed".to_owned());
    }
    if proposal.is_expired(height) {
        return Err("voting period has expired".to_owned());
    }
    if !proposal.voters.insert(tx.from.to_string()) {
        return Err("address already voted on this proposal".to_owned());
    }
    proposal.yes_stake = proposal.yes_stake.saturating_add(sender_staked);
    charge_sender(state, tx);
    let ghost before = state@;
    // The quorum is measured against the stake of the proposal's own time, so that
    // releasing stake after a vote cannot lower it.
    if proposal.yes_stake >= quorum_threshold(proposal.total_staked_at_creation) {
        match proposal.param {
            GovernanceParam::MinValidatorStake => {
                state.governance_params.min_validator_stake = proposal.new_value;
            },
            GovernanceParam::FuelPerFeeUnit => {
                state.governance_params.fuel_per_fee_unit = proposal.new_value;
            },
        }
        proposal.executed = true;
    }
    let ghost done = proposal@;
    state.set_proposal(proposal);
    proof {
        assert forall|k: u64| #[trigger] state@.proposals.contains_key(k) implies
            crate::executor::state::proposal_fits(state@.proposals[k]) by {
            if k != done.id {
                assert(before.proposals.contains_key(k));
            }
        }
        books_keep_wf(before, state@);
        assert(state@.proposals =~= voted(before, tx.from@, id).proposals);
    }
    Ok(())
}

/// One of the authorities has signed the claim.
pub open spec fn authority_signed(s: StateModel, p: PersonhoodProofPayload) -> bool {
    exists|i: int|
        0 <= i < s.personhood_authorities.len() && verify_outcome(
            p.authority_crypto_version,
            #[trigger] s.personhood_authorities[i],
            p.authority_preimage@,
            p.authority_signature@,
        ) is Ok
}

/// Why a personhood claim is refused.
pub open spec fn personhood_fault(s: StateModel, f: Findings) -> Option<Seq<char>> {
    match f.personhood {
        None => Some("invalid personhood proof payload"@),
        Some(p) => if !p.proof_verified {
            Some("ZK personhood proof verification failed"@)
        } else if s.personhood_authorities.len() == 0 {
            Some("no personhood authority configured"@)
        } else if !authority_signed(s, p) {
            Some("personhood authority signature verification failed"@)
        } else if s.used_personhood_commitments.contains(p.commitment@) {
            Some("personhood commitment already claimed"@)
        } else {
            None
        },
    }
}

/// An address counts as one human, and the commitment is used up.
pub open spec fn personhood_proved(s: StateModel, a: Seq<char>, commitment: Seq<u8>) -> StateModel {
    StateModel {
        used_personhood_commitments: s.used_personhood_commitments.insert(commitment),
        personhood: s.personhood.insert(a, StatusModel::Verified { verified_at_height: 0 }),
        ..s
    }
}

fn is_authority_signed(state: &ChainState, p: &PersonhoodProofPayload) -> (r: bool)
    ensures
        r == authority_signed(state@, *p),
{
    let mut i: usize = 0;
    while i < state.personhood_authorities.len()
        invariant
            i <= state.personhood_authorities@.len(),
            forall|k: int|
                0 <= k < i ==> verify_outcome(
                    p.authority_crypto_version,
                    #[trigger] state@.personhood_authorities[k],
                    p.authority_preimage@,
                    p.authority_signature@,
                ) is Err,
        decreases state.personhood_authorities.len() - i,
    {
        let authority = &state.personhood_authorities[i];
        proof {
            assert(state@.personhood_authorities[i as int] == authority@);
        }
        match verify_with_scheme(
            p.authority_crypto_version,
            authority,
            p.authority_preimage.as_slice(),
            &p.authority_signature,
        ) {
            Ok(()) => {
                return true;
            },
            Err(_) => {},
        }
        i = i + 1;
    }
    false
}

pub fn execute_prove_personhood(state: &mut ChainState, tx: &Transaction, findings: &Findings) -> (r:
    Result<(), String>)
    requires
        can_charge(old(state)@, *tx),
    ensures
        settles(
            old(state)@,
            final(state)@,
            personhood_fault(old(state)@, *findings),
            personhood_proved(
                charged(old(state)@, *tx),
                tx.from@,
                findings.personhood->0.commitment@,
            ),
            r,
        ),
        r is Ok ==> final(state)@.wf() && final(state)@.wealth() + tx.fee == old(state)@.wealth(),
{
    let payload = match &findings.personhood {
        None => {
            return Err("invalid personhood proof payload".to_owned());
        },
        Some(p) => p,
    };
    if !payload.proof_verified {
        return Err("ZK personhood proof verification failed".to_owned());
    }
    // A proof shows knowledge of some secret that its maker chose. Without an
    // authority's signature anyone could verify themselves as often as they like.
    if state.personhood_authorities.len() == 0 {
        return Err("no personhood authority configured".to_owned());
    }
    if !is_authority_signed(state, payload) {
        return Err("personhood authority signature verification failed".to_owned());
    }
    if state.used_personhood_commitments.contains(&payload.commitment) {
        return Err("personhood commitment already claimed".to_owned());
    }
    charge_sender(state, tx);
    let ghost before = state@;
    state.used_personhood_commitments.insert(payload.commitment);
    state.set_personhood_status(&tx.from, PersonhoodStatus::Verified { verified_at_height: 0 });
    proof {
        books_keep_wf(before, state@);
    }
    Ok(())
}

/// The name under which an incident is remembered.
pub open spec fn incident_name(e: DoubleSignEvidence) -> Seq<char> {
    e.validator@ + ":"@ + decimal(e.height as nat) + ":"@ + decimal(e.round as nat)
}

/// Why evidence of a double-sign is refused.
pub open spec fn evidence_fault(s: StateModel, f: Findings) -> Option<Seq<char>> {
    match f.evidence {
        None => Some("invalid double-sign evidence payload"@),
        Some(e) => if !evidence_conflicts(e) {
            Some(
                "evidence is not structurally valid (validator/height/round mismatch or identical block hashes)"@,
            )
        } else if !vote_authentic(e.vote_a) {
            Some("vote_a signature verification failed"@)
        } else if !vote_authentic(e.vote_b) {
            Some("vote_b signature verification failed"@)
        } else if s.slashed_double_sign_incidents.contains(incident_name(e)) {
            Some("this double-sign incident was already slashed"@)
        } else {
            None
        },
    }
}

/// An incident is on record.
pub open spec fn incident_noted(s: StateModel, e: DoubleSignEvidence) -> StateModel {
    StateModel {
        slashed_double_sign_incidents: s.slashed_double_sign_incidents.insert(incident_name(e)),
        ..s
    }
}

/// An incident is on record and the validator has been slashed for it.
pub open spec fn incident_punished(s: StateModel, e: DoubleSignEvidence) -> StateModel {
    slashed(incident_noted(s, e), e.validator@, SLASH_FRACTION_BPS)
}

/// What the evidence has burned can be booked.
pub open spec fn evidence_fits(s: StateModel, f: Findings) -> bool {
    f.evidence is Some ==> slash_fits(
        incident_noted(s, f.evidence->0),
        f.evidence->0.validator@,
        SLASH_FRACTION_BPS,
    )
}

/// Whether what the evidence has burned can be booked.
pub fn evidence_has_room(state: &ChainState, findings: &Findings) -> (r: bool)
    requires
        state@.wf(),
    ensures
        r == evidence_fits(state@, *findings),
{
    match &findings.evidence {
        None => true,
        Some(e) => {
            proof {
                noting_leaves_stake(state@, *e);
            }
            state.slash_has_room(&e.validator, SLASH_FRACTION_BPS)
        },
    }
}

/// Putting an incident on record changes nothing of what a slash takes.
proof fn noting_leaves_stake(s: StateModel, e: DoubleSignEvidence)
    ensures
        slash_fits(incident_noted(s, e), e.validator@, SLASH_FRACTION_BPS) == slash_fits(
            s,
            e.validator@,
            SLASH_FRACTION_BPS,
        ),
{
    crate::executor::slashing::slash_reads_stake(
        s,
        incident_noted(s, e),
        e.validator@,
        SLASH_FRACTION_BPS,
    );
}

/// Slashing a validator changes nobody's balance or nonce.
pub proof fn slashing_leaves_balances(s: StateModel, validator: Seq<char>, bps: u64, a: Seq<char>)
    requires
        s.wf(),
        bps <= 10_000,
    ensures
        slashed(s, validator, bps).account(a).balance == s.account(a).balance,
        slashed(s, validator, bps).account(a).nonce == s.account(a).nonce,
{
    if s.accounts.contains_key(validator) {
        slashed_accounts_are(s, validator, bps);
    }
}

/// Slashing changes accounts by their own losses alone.
pub proof fn slashed_accounts_are(s: StateModel, validator: Seq<char>, bps: u64)
    requires
        s.wf(),
        bps <= 10_000,
    ensures
        stake_slashed(s, validator, bps).accounts
            == crate::executor::slashing::accounts_slashed(s, validator, bps).accounts,
{
    let a = crate::executor::slashing::pool_slashed(
        crate::executor::slashing::accounts_slashed(s, validator, bps),
        validator,
        bps,
    );
    if a.redelegations.contains_key(validator) {
        crate::executor::slashing::entries_slashed_books(a, a.redelegations[validator], bps);
    }
}

pub fn execute_submit_double_sign_evidence(
    state: &mut ChainState,
    tx: &Transaction,
    findings: &Findings,
) -> (r: Result<(), String>)
    requires
        can_charge(old(state)@, *tx),
        evidence_fits(old(state)@, *findings),
    ensures
        settles(
            old(state)@,
            final(state)@,
            evidence_fault(old(state)@, *findings),
            charged(incident_punished(old(state)@, findings.evidence->0), *tx),
            r,
        ),
        r is Ok ==> final(state)@.wf() && final(state)@.wealth() + tx.fee <= old(state)@.wealth(),
        r is Ok ==> final(state)@.wealth() + tx.fee + final(state)@.total_burned
            == old(state)@.wealth() + old(state)@.total_burned,
{
    let evidence = match &findings.evidence {
        None => {
            return Err("invalid double-sign evidence payload".to_owned());
        },
        Some(e) => e,
    };
    if !evidence.is_valid() {
        return Err(
            "evidence is not structurally valid (validator/height/round mismatch or identical block hashes)".to_owned(),
        );
    }
    if !evidence.vote_a.verify_signature() {
        return Err("vote_a signature verification failed".to_owned());
    }
    if !evidence.vote_b.verify_signature() {
        return Err("vote_b signature verification failed".to_owned());
    }
    let height = decimal_text(evidence.height);
    let round = decimal_text(evidence.round as u64);
    let incident = joined5(
        evidence.validator.as_str(),
        ":",
        height.as_str(),
        ":",
        round.as_str(),
    );
    if state.slashed_double_sign_incidents.contains(&incident) {
        return Err("this double-sign incident was already slashed".to_owned());
    }
    let ghost s = state@;
    state.slashed_double_sign_incidents.insert(incident);
    let ghost noted = state@;
    proof {
        books_keep_wf(s, noted);
    }
    state.slash(&evidence.validator, SLASH_FRACTION_BPS);
    proof {
        slashing_leaves_balances(noted, evidence.validator@, SLASH_FRACTION_BPS, tx.from@);
        assert(noted.account(tx.from@) == s.account(tx.from@));
    }
    charge_sender(state, tx);
    Ok(())
}

/// Why a heartbeat is refused.
pub open spec fn heartbeat_fault(s: StateModel, tx: Transaction) -> Option<Seq<char>> {
    if !proof_outstanding(s, tx.from@) {
        Some("sender has no probation proof outstanding"@)
    } else {
        None
    }
}

/// A probationer has been seen running.
pub open spec fn seen(s: StateModel, a: Seq<char>) -> StateModel {
    StateModel { probation_seen: s.probation_seen.insert(a), ..s }
}

/// Takes a probationer's signed transaction as proof that its node is running.
pub fn execute_probation_heartbeat(state: &mut ChainState, tx: &Transaction) -> (r: Result<
    (),
    String,
>)
    requires
        can_charge(old(state)@, *tx),
    ensures
        settles(
            old(state)@,
            final(state)@,
            heartbeat_fault(old(state)@, *tx),
            seen(charged(old(state)@, *tx), tx.from@),
            r,
        ),
        r is Ok ==> final(state)@.wf() && final(state)@.wealth() + tx.fee == old(state)@.wealth(),
{
    if !state.probation_proof_outstanding(&tx.from) {
        return Err("sender has no probation proof outstanding".to_owned());
    }
    charge_sender(state, tx);
    let ghost before = state@;
    state.probation_seen.insert(tx.from.clone());
    proof {
        books_keep_wf(before, state@);
    }
    Ok(())
}

/// Why leaving jail is refused.
pub open spec fn unjail_fault(s: StateModel, tx: Transaction, height: u64) -> Option<Seq<char>> {
    if !s.jailed_until.contains_key(tx.from@) {
        Some("sender is not jailed"@)
    } else if height < s.jailed_until[tx.from@] {
        Some(
            "jail period not over: ends at height "@ + decimal(s.jailed_until[tx.from@] as nat)
                + ", current "@ + decimal(height as nat),
        )
    } else {
        None
    }
}

/// A validator has left jail.
pub open spec fn freed(s: StateModel, a: Seq<char>) -> StateModel {
    StateModel { jailed_until: s.jailed_until.remove(a), ..s }
}

/// Lets a validator out of jail once its time is up.
pub fn execute_unjail(state: &mut ChainState, tx: &Transaction, height: u64) -> (r: Result<
    (),
    String,
>)
    requires
        can_charge(old(state)@, *tx),
    ensures
        settles(
            old(state)@,
            final(state)@,
            unjail_fault(old(state)@, *tx, height),
            freed(charged(old(state)@, *tx), tx.from@),
            r,
        ),
        r is Ok ==> final(state)@.wf() && final(state)@.wealth() + tx.fee == old(state)@.wealth(),
{
    let key = tx.from.to_string();
    match state.jailed_until.get(&key) {
        None => {
            return Err("sender is not jailed".to_owned());
        },
        Some(until) => {
            if height < *until {
                let ends = decimal_text(*until);
                let now = decimal_text(height);
                return Err(
                    joined4(
                        "jail period not over: ends at height ",
                        ends.as_str(),
                        ", current ",
                        now.as_str(),
                    ),
                );
            }
        },
    }
    charge_sender(state, tx);
    let ghost before = state@;
    state.jailed_until.remove(&key);
    proof {
        books_keep_wf(before, state@);
    }
    Ok(())
}

} // verus!
