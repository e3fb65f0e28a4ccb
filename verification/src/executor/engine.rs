//! Executing transactions and blocks.
use crate::crypto::Address;
use crate::executor::account::UNBONDING_PERIOD;
use crate::executor::contracts::{
    call_refusal, called, commit_fits, commit_has_room, deploy_fault, deployed, execute_call_contract,
    execute_deploy_contract, saturating_product,
};
use crate::executor::delegation::{
    commission_fault, commission_set, delegate_fault, delegate_fits, delegate_has_room, delegated,
    execute_delegate, execute_redelegate, execute_set_commission, execute_undelegate, payload_text,
    redelegate_fault, redelegate_fits, redelegate_has_room, redelegated, undelegate_fault,
    undelegated,
};
use crate::executor::fees::{burned_part, distribute_fee, rewarded, saturated};
use crate::executor::governance::{proposal_of, vote_of, VOTING_PERIOD_BLOCKS};
use crate::executor::identities::{
    addresses_in, approval_fault, approved, cancel_fault, cancelled, execute_approve_recovery,
    execute_cancel_recovery_request, execute_register_guardians, execute_register_identity,
    execute_register_name, guarded, guardians_fault, identity_refusal, name_taken, payload_name,
    registration_fault,
};
use crate::executor::payments::{
    can_charge, charge_sender, charged, claim_fault, claimed, cost_fits, cost_has_room,
    execute_claim_unbonded,
    execute_stake, execute_transfer, execute_unstake, moved, payable, settles, stake_fault, staked,
    transfer_fault, unstake_fault, unstaked,
};
use crate::executor::receipt::{failure_receipt, success_receipt, Receipt, ReceiptModel};
use crate::executor::state::{ChainState, StateModel};
use crate::executor::validators::proof_outstanding;
use crate::executor::value::books_keep_wf;
use crate::executor::votes::{
    evidence_fault, evidence_fits, evidence_has_room, execute_create_proposal, execute_probation_heartbeat, execute_prove_personhood,
    execute_submit_double_sign_evidence, execute_unjail, execute_vote_proposal, freed,
    heartbeat_fault, incident_noted, incident_punished, personhood_fault, personhood_proved,
    proposal_fault, proposed, seen, unjail_fault, vote_fault, vote_fits, vote_has_room, voted,
};
use crate::text::{decimal, decimal_text, joined2, joined4, lines_of};
use crate::transaction::{authentic, Findings, Transaction, TxType};
use vstd::prelude::*;

verus! {

/// The ways in which executing can fail.
#[derive(Debug)]
pub enum ExecutionError {
    AccountNotFound(String),
    InsufficientBalance { need: u64, have: u64 },
    InvalidNonce { expected: u64, got: u64 },
    InvalidSignature,
    Invalid(String),
}

impl ExecutionError {
    pub open spec fn words(self) -> Seq<char> {
        match self {
            ExecutionError::AccountNotFound(a) => "Account not found: "@ + a@,
            ExecutionError::InsufficientBalance { need, have } => "Insufficient balance: need "@
                + decimal(need as nat) + ", have "@ + decimal(have as nat),
            ExecutionError::InvalidNonce { expected, got } => "Invalid nonce: expected "@ + decimal(
                expected as nat,
            ) + ", got "@ + decimal(got as nat),
            ExecutionError::InvalidSignature => "Signature verification failed"@,
            ExecutionError::Invalid(w) => "Invalid transaction: "@ + w@,
        }
    }

    /// The error in words.
    pub fn message(&self) -> (r: String)
        ensures
            r@ == self.words(),
    {
        match self {
            ExecutionError::AccountNotFound(a) => joined2("Account not found: ", a.as_str()),
            ExecutionError::InsufficientBalance { need, have } => {
                let need = decimal_text(*need);
                let have = decimal_text(*have);
                joined4("Insufficient balance: need ", need.as_str(), ", have ", have.as_str())
            },
            ExecutionError::InvalidNonce { expected, got } => {
                let expected = decimal_text(*expected);
                let got = decimal_text(*got);
                joined4("Invalid nonce: expected ", expected.as_str(), ", got ", got.as_str())
            },
            ExecutionError::InvalidSignature => "Signature verification failed".to_owned(),
            ExecutionError::Invalid(w) => joined2("Invalid transaction: ", w.as_str()),
        }
    }
}

pub type ExecutionResult<T> = Result<T, ExecutionError>;

/// Why an operation is refused.
pub open spec fn operation_fault(s: StateModel, tx: Transaction, f: Findings, height: u64) -> Option<
    Seq<char>,
> {
    match tx.tx_type {
        TxType::Transfer => transfer_fault(s, tx),
        TxType::Stake => stake_fault(s, tx),
        TxType::Unstake => unstake_fault(s, tx),
        TxType::RegisterName => registration_fault(s, tx),
        TxType::RegisterIdentity => Some(identity_refusal()),
        TxType::RegisterGuardians => guardians_fault(s, tx),
        TxType::ApproveRecovery => approval_fault(s, tx),
        TxType::DeployContract => deploy_fault(tx, f),
        TxType::CallContract => call_refusal(s, tx, f),
        TxType::CreateProposal => proposal_fault(s, tx),
        TxType::VoteProposal => vote_fault(s, tx, height),
        TxType::ProvePersonhood => personhood_fault(s, f),
        TxType::ClaimUnbonded => claim_fault(s, tx, height),
        TxType::CancelRecoveryRequest => cancel_fault(s, tx),
        TxType::SubmitDoubleSignEvidence => evidence_fault(s, f),
        TxType::Delegate => delegate_fault(s, tx),
        TxType::Undelegate => undelegate_fault(s, tx),
        TxType::Redelegate => redelegate_fault(s, tx),
        TxType::SetCommission => commission_fault(tx),
        TxType::ProbationHeartbeat => heartbeat_fault(s, tx),
        TxType::Unjail => unjail_fault(s, tx, height),
    }
}

/// The state once the sender is charged and an operation that was not refused is done.
pub open spec fn operation_done(s: StateModel, tx: Transaction, f: Findings, height: u64) -> StateModel {
    let c = charged(s, tx);
    match tx.tx_type {
        TxType::Transfer => moved(c, tx.from@, tx.to->0@, tx.amount),
        TxType::Stake => staked(c, tx.from@, tx.amount),
        TxType::Unstake => unstaked(c, tx.from@, tx.amount, height),
        TxType::RegisterName => name_taken(c, payload_name(tx), tx.from@),
        TxType::RegisterIdentity => c,
        TxType::RegisterGuardians => guarded(c, tx.from@, addresses_in(lines_of(tx.data@))->Ok_0),
        TxType::ApproveRecovery => approved(c, tx.from@, tx.to->0@, tx.data@),
        TxType::DeployContract => deployed(c, tx.from@, tx.data@),
        TxType::CallContract => called(c, tx.from@, tx.to->0@, tx.amount, f.call->Ok_0),
        TxType::CreateProposal => proposed(
            c,
            tx.from@,
            proposal_of(tx.data@)->Ok_0.0,
            proposal_of(tx.data@)->Ok_0.1,
            height,
        ),
        TxType::VoteProposal => voted(c, tx.from@, vote_of(tx.data@)->Ok_0),
        TxType::ProvePersonhood => personhood_proved(c, tx.from@, f.personhood->0.commitment@),
        TxType::ClaimUnbonded => claimed(c, tx.from@),
        TxType::CancelRecoveryRequest => cancelled(c, tx.from@),
        TxType::SubmitDoubleSignEvidence => charged(incident_punished(s, f.evidence->0), tx),
        TxType::Delegate => delegated(c, tx.from@, tx.to->0@, tx.amount),
        TxType::Undelegate => undelegated(c, tx.from@, tx.to->0@, tx.amount, height),
        TxType::Redelegate => redelegated(
            c,
            tx.from@,
            payload_text(tx),
            tx.to->0@,
            tx.amount,
            height,
        ),
        TxType::SetCommission => commission_set(
            c,
            tx.from@,
            crate::encoding::le_value(tx.data@) as u16,
        ),
        TxType::ProbationHeartbeat => seen(c, tx.from@),
        TxType::Unjail => freed(c, tx.from@),
    }
}

/// The arithmetic of a transaction stays within the machine's numbers, unless its
/// sender cannot pay for it, when there is none to do: there is a next nonce, and
/// the operation has room for what it adds up.
pub open spec fn transaction_fits(s: StateModel, tx: Transaction, f: Findings, height: u64) -> bool {
    &&& s.wf()
    &&& payable(s, tx) ==> tx.nonce < u64::MAX && operation_fits(s, tx, f, height)
}

/// The arithmetic of an operation stays within the machine's numbers: costs,
/// heights and identifiers have room, a quorum can be reckoned, the burned total
/// has room, a deposit's shares can be counted, and a contract can make its payments.
pub open spec fn operation_fits(s: StateModel, tx: Transaction, f: Findings, height: u64) -> bool {
    match tx.tx_type {
        TxType::Transfer | TxType::Stake => cost_fits(s, tx),
        TxType::Unstake | TxType::Undelegate => height + UNBONDING_PERIOD <= u64::MAX,
        TxType::CreateProposal => s.next_proposal_id < u64::MAX && height + VOTING_PERIOD_BLOCKS
            <= u64::MAX,
        TxType::VoteProposal => vote_fits(s, tx, height),
        TxType::SubmitDoubleSignEvidence => evidence_fits(s, f),
        TxType::Delegate => cost_fits(s, tx) && delegate_fits(s, tx),
        TxType::Redelegate => height + UNBONDING_PERIOD <= u64::MAX && redelegate_fits(s, tx),
        TxType::CallContract => cost_fits(s, tx) && commit_fits(s, tx, f),
        _ => true,
    }
}

/// Whether the arithmetic of a transaction stays within the machine's numbers.
pub fn transaction_has_room(
    state: &ChainState,
    tx: &Transaction,
    findings: &Findings,
    height: u64,
) -> (r: bool)
    requires
        state@.wf(),
    ensures
        r == transaction_fits(state@, *tx, *findings, height),
{
    let sender = state.get_or_default(&tx.from);
    if sender.nonce != tx.nonce || sender.balance < tx.fee {
        return true;
    }
    if tx.nonce == u64::MAX {
        return false;
    }
    match tx.tx_type {
        TxType::Transfer | TxType::Stake => cost_has_room(state, tx),
        TxType::Unstake | TxType::Undelegate => height <= u64::MAX - UNBONDING_PERIOD,
        TxType::CreateProposal => state.next_proposal_id < u64::MAX && height <= u64::MAX
            - VOTING_PERIOD_BLOCKS,
        TxType::VoteProposal => vote_has_room(state, tx, height),
        TxType::SubmitDoubleSignEvidence => evidence_has_room(state, findings),
        TxType::Delegate => cost_has_room(state, tx) && delegate_has_room(state, tx),
        TxType::Redelegate => height <= u64::MAX - UNBONDING_PERIOD && redelegate_has_room(state, tx),
        TxType::CallContract => cost_has_room(state, tx) && commit_has_room(state, tx, findings),
        _ => true,
    }
}

/// Tries an operation on behalf of a sender that can pay for it.
fn run_operation(state: &mut ChainState, tx: &Transaction, findings: &Findings, height: u64) -> (r:
    Result<(), String>)
    requires
        can_charge(old(state)@, *tx),
        transaction_fits(old(state)@, *tx, *findings, height),
    ensures
        settles(
            old(state)@,
            final(state)@,
            operation_fault(old(state)@, *tx, *findings, height),
            operation_done(old(state)@, *tx, *findings, height),
            r,
        ),
        r is Ok ==> final(state)@.wf(),
        r is Ok ==> final(state)@.wealth() + tx.fee + final(state)@.total_burned
            == old(state)@.wealth() + old(state)@.total_burned,
        r is Ok ==> final(state)@.total_burned >= old(state)@.total_burned,
{
    match tx.tx_type {
        TxType::Transfer => execute_transfer(state, tx),
        TxType::Stake => execute_stake(state, tx),
        TxType::Unstake => execute_unstake(state, tx, height),
        TxType::RegisterName => execute_register_name(state, tx),
        TxType::RegisterIdentity => execute_register_identity(),
        TxType::RegisterGuardians => execute_register_guardians(state, tx),
        TxType::ApproveRecovery => execute_approve_recovery(state, tx),
        TxType::DeployContract => execute_deploy_contract(state, tx, findings),
        TxType::CallContract => {
            let r = execute_call_contract(state, tx, findings);
            proof {
                if r is Ok {
                    crate::executor::contracts::call_leaves_books(
                        charged(old(state)@, *tx),
                        tx.from@,
                        tx.to->0@,
                        tx.amount,
                        findings.call->Ok_0,
                    );
                }
            }
            r
        },
        TxType::CreateProposal => execute_create_proposal(state, tx, height),
        TxType::VoteProposal => execute_vote_proposal(state, tx, height),
        TxType::ProvePersonhood => execute_prove_personhood(state, tx, findings),
        TxType::ClaimUnbonded => execute_claim_unbonded(state, tx, height),
        TxType::CancelRecoveryRequest => execute_cancel_recovery_request(state, tx),
        TxType::SubmitDoubleSignEvidence => execute_submit_double_sign_evidence(
            state,
            tx,
            findings,
        ),
        TxType::Delegate => execute_delegate(state, tx),
        TxType::Undelegate => execute_undelegate(state, tx, height),
        TxType::Redelegate => execute_redelegate(state, tx, height),
        TxType::SetCommission => execute_set_commission(state, tx),
        TxType::ProbationHeartbeat => execute_probation_heartbeat(state, tx),
        TxType::Unjail => execute_unjail(state, tx, height),
    }
}

/// The base fee that a transaction has to pay for its size. Evidence of
/// misbehaviour, and the heartbeat that a probationer owes, are exempt.
pub open spec fn base_fee(s: StateModel, tx: Transaction, base_fee_per_byte: u64) -> u64 {
    if tx.tx_type is SubmitDoubleSignEvidence || (tx.tx_type is ProbationHeartbeat
        && proof_outstanding(s, tx.from@)) {
        0
    } else {
        saturated(base_fee_per_byte as int * tx.size_bytes as int)
    }
}

/// Why a transaction cannot be taken into a block at all. Nobody is charged for one of these.
pub open spec fn exclusion(
    s: StateModel,
    tx: Transaction,
    signed: bool,
    base_fee_per_byte: u64,
) -> Option<Seq<char>> {
    let sender = s.account(tx.from@);
    if !signed {
        Some("invalid signature"@)
    } else if tx.chain_id@ != s.chain_id {
        Some("transaction is signed for a different chain"@)
    } else if tx.fee < base_fee(s, tx, base_fee_per_byte) {
        Some("fee below block base fee"@)
    } else if tx.nonce != sender.nonce {
        Some(
            "nonce mismatch: expected "@ + decimal(sender.nonce as nat) + ", got "@ + decimal(
                tx.nonce as nat,
            ),
        )
    } else if sender.balance < tx.fee {
        Some(
            "cannot pay the fee: needs "@ + decimal(tx.fee as nat) + ", has "@ + decimal(
                sender.balance as nat,
            ),
        )
    } else {
        None
    }
}

/// The state and the receipt after a transaction. One that is excluded changes
/// nothing. Any other pays its fee and uses up its nonce, and its operation is
/// done unless it is refused.
pub open spec fn executed(
    s: StateModel,
    tx: Transaction,
    f: Findings,
    signed: bool,
    validator: Seq<char>,
    height: u64,
    base_fee_per_byte: u64,
) -> (StateModel, ReceiptModel) {
    match exclusion(s, tx, signed, base_fee_per_byte) {
        Some(words) => (s, failure_receipt(tx.hash@, words, 0, 0)),
        None => {
            let burned = burned_part(tx.fee, base_fee(s, tx, base_fee_per_byte));
            let reward = (tx.fee - burned) as u64;
            match operation_fault(s, tx, f, height) {
                None => (
                    rewarded(operation_done(s, tx, f, height), validator, reward),
                    success_receipt(tx.hash@, burned, reward),
                ),
                Some(words) => (
                    rewarded(charged(s, tx), validator, reward),
                    failure_receipt(tx.hash@, words, burned, reward),
                ),
            }
        },
    }
}

/// The key that guardians have put in control of an address, if any.
pub open spec fn recovery_key_of(s: StateModel, a: Seq<char>) -> Option<Seq<u8>> {
    if s.recovery_keys.contains_key(a) {
        Some(s.recovery_keys[a])
    } else {
        None
    }
}

/// Whether a transaction was signed by whoever controls its sender.
pub fn verify_tx_signature(state: &ChainState, tx: &Transaction) -> (r: bool)
    ensures
        r == authentic(*tx, recovery_key_of(state@, tx.from@)),
{
    match tx.verify_signature_with_recovery_key(state.recovery_key(&tx.from)) {
        Ok(()) => true,
        Err(_) => false,
    }
}

/// Whether a transaction's sender can pay the fee it declares.
pub fn can_pay_fee(state: &ChainState, tx: &Transaction) -> (r: bool)
    ensures
        r == (state@.account(tx.from@).balance >= tx.fee),
{
    state.get_or_default(&tx.from).balance >= tx.fee
}

fn base_fee_amount(state: &ChainState, tx: &Transaction, base_fee_per_byte: u64) -> (r: u64)
    ensures
        r == base_fee(state@, *tx, base_fee_per_byte),
{
    match tx.tx_type {
        TxType::SubmitDoubleSignEvidence => 0,
        TxType::ProbationHeartbeat => if state.probation_proof_outstanding(&tx.from) {
            0
        } else {
            saturating_product(base_fee_per_byte, tx.size_bytes)
        },
        _ => saturating_product(base_fee_per_byte, tx.size_bytes),
    }
}

fn check_exclusion(state: &ChainState, tx: &Transaction, signed: bool, base_fee_per_byte: u64) -> (r:
    Option<String>)
    ensures
        match r {
            Some(words) => exclusion(state@, *tx, signed, base_fee_per_byte) == Some(words@),
            None => exclusion(state@, *tx, signed, base_fee_per_byte) is None,
        },
{
    if !signed {
        return Some("invalid signature".to_owned());
    }
    if !tx.chain_id.same(&state.chain_id) {
        return Some("transaction is signed for a different chain".to_owned());
    }
    if tx.fee < base_fee_amount(state, tx, base_fee_per_byte) {
        return Some("fee below block base fee".to_owned());
    }
    let sender = state.get_or_default(&tx.from);
    if tx.nonce != sender.nonce {
        let expected = decimal_text(sender.nonce);
        let got = decimal_text(tx.nonce);
        return Some(
            joined4("nonce mismatch: expected ", expected.as_str(), ", got ", got.as_str()),
        );
    }
    if sender.balance < tx.fee {
        let needs = decimal_text(tx.fee);
        let has = decimal_text(sender.balance);
        return Some(joined4("cannot pay the fee: needs ", needs.as_str(), ", has ", has.as_str()));
    }
    None
}

/// Executes a transaction whose signature has been checked. `signed` says what
/// the check found.
pub fn execute_checked_transaction(
    state: &mut ChainState,
    tx: &Transaction,
    findings: &Findings,
    signed: bool,
    validator: &Address,
    height: u64,
    base_fee_per_byte: u64,
) -> (r: Receipt)
    requires
        transaction_fits(old(state)@, *tx, *findings, height),
    ensures
        (final(state)@, r@) == executed(
            old(state)@,
            *tx,
            *findings,
            signed,
            validator@,
            height,
            base_fee_per_byte,
        ),
        final(state)@.wf(),
        final(state)@.wealth() + r.fee_burned + final(state)@.total_burned == old(state)@.wealth()
            + old(state)@.total_burned,
        final(state)@.total_burned >= old(state)@.total_burned,
        r.fee_burned + r.fee_to_validator <= tx.fee,
{
    match check_exclusion(state, tx, signed, base_fee_per_byte) {
        Some(words) => {
            return Receipt::failure(tx.hash(), words.as_str(), 0, 0);
        },
        None => {},
    }
    let base_fee_amount: u64 = base_fee_amount(state, tx, base_fee_per_byte);
    match run_operation(state, tx, findings, height) {
        Ok(()) => {
            let (burned, reward) = distribute_fee(state, validator, tx.fee, base_fee_amount);
            proof {
                crate::executor::fees::reward_leaves_books(
                    operation_done(old(state)@, *tx, *findings, height),
                    validator@,
                    reward,
                );
            }
            Receipt::success(tx.hash(), burned, reward)
        },
        Err(words) => charge_failed_transaction(
            state,
            tx,
            validator,
            base_fee_amount,
            words.as_str(),
        ),
    }
}

/// Takes the fee and the nonce of a transaction whose operation was refused.
fn charge_failed_transaction(
    state: &mut ChainState,
    tx: &Transaction,
    validator: &Address,
    base_fee_amount: u64,
    reason: &str,
) -> (r: Receipt)
    requires
        can_charge(old(state)@, *tx),
    ensures
        final(state)@ == rewarded(
            charged(old(state)@, *tx),
            validator@,
            (tx.fee - burned_part(tx.fee, base_fee_amount)) as u64,
        ),
        r@ == failure_receipt(
            tx.hash@,
            reason@,
            burned_part(tx.fee, base_fee_amount),
            (tx.fee - burned_part(tx.fee, base_fee_amount)) as u64,
        ),
        final(state)@.wf(),
        final(state)@.wealth() + r.fee_burned == old(state)@.wealth(),
        final(state)@.total_burned == old(state)@.total_burned,
{
    charge_sender(state, tx);
    let ghost before = state@;
    let (burned, reward) = distribute_fee(state, validator, tx.fee, base_fee_amount);
    proof {
        crate::executor::fees::reward_leaves_books(before, validator@, reward);
    }
    Receipt::failure(tx.hash(), reason, burned, reward)
}

/// Executes a transaction. `base_fee_per_byte` is the block's base fee: that part
/// of the fee is burned, the rest is the validator's.
pub fn execute_transaction(
    state: &mut ChainState,
    tx: &Transaction,
    findings: &Findings,
    validator: &Address,
    height: u64,
    base_fee_per_byte: u64,
) -> (r: Receipt)
    requires
        transaction_fits(old(state)@, *tx, *findings, height),
    ensures
        (final(state)@, r@) == executed(
            old(state)@,
            *tx,
            *findings,
            authentic(*tx, recovery_key_of(old(state)@, tx.from@)),
            validator@,
            height,
            base_fee_per_byte,
        ),
        final(state)@.wf(),
        final(state)@.wealth() + r.fee_burned + final(state)@.total_burned == old(state)@.wealth()
            + old(state)@.total_burned,
        final(state)@.total_burned >= old(state)@.total_burned,
        r.fee_burned + r.fee_to_validator <= tx.fee,
{
    let signed = verify_tx_signature(state, tx);
    execute_checked_transaction(
        state,
        tx,
        findings,
        signed,
        validator,
        height,
        base_fee_per_byte,
    )
}

/// No operation touches the active validators, the missed-block counters, or what was issued.
pub proof fn operation_leaves_validators(s: StateModel, tx: Transaction, f: Findings, height: u64)
    requires
        s.wf(),
    ensures
        ({
            let t = operation_done(s, tx, f, height);
            &&& t.active_validators == s.active_validators
            &&& t.missed_blocks == s.missed_blocks
            &&& t.total_issued == s.total_issued
            &&& t.total_supply == s.total_supply
        }),
{
    match tx.tx_type {
        TxType::CallContract => {
            crate::executor::contracts::call_leaves_books(
                charged(s, tx),
                tx.from@,
                tx.to->0@,
                tx.amount,
                f.call->Ok_0,
            );
        },
        TxType::SubmitDoubleSignEvidence => {
            let e = f.evidence->0;
            let noted = incident_noted(s, e);
            books_keep_wf(s, noted);
            crate::executor::slashing::stake_slashed_keeps_books(
                noted,
                e.validator@,
                crate::executor::votes::SLASH_FRACTION_BPS,
            );
        },
        _ => {},
    }
}

} // verus!
