//! Transactions and blocks as the ledger reads them.
//!
//! A transaction's own hash, the hash that its signature covers and its size on
//! the wire depend on the wire format, which the ledger does not know: they are
//! part of what it is given.
use crate::crypto::address::address_of;
use crate::crypto::error::CryptoFault;
use crate::crypto::hash::Digest;
use crate::crypto::keys::{verify_outcome, verify_with_scheme, CryptoScheme, PublicKey, Signature};
use crate::crypto::Address;
use crate::table::Table;
use vstd::prelude::*;

verus! {

#[derive(Debug, Clone, Copy, PartialEq, Eq, Structural)]
pub enum TxType {
    Transfer,
    Stake,
    Unstake,
    RegisterName,
    RegisterIdentity,
    RegisterGuardians,
    ApproveRecovery,
    DeployContract,
    CallContract,
    CreateProposal,
    VoteProposal,
    ProvePersonhood,
    ClaimUnbonded,
    CancelRecoveryRequest,
    SubmitDoubleSignEvidence,
    Delegate,
    Undelegate,
    Redelegate,
    SetCommission,
    ProbationHeartbeat,
    Unjail,
}

#[derive(Debug)]
pub struct Transaction {
    pub version: u32,
    pub tx_type: TxType,
    pub from: Address,
    pub to: Option<Address>,
    pub amount: u64,
    pub fee: u64,
    pub nonce: u64,
    pub data: Vec<u8>,
    pub crypto_version: CryptoScheme,
    /// The chain that the sender signed for.
    pub chain_id: Digest,
    pub signature: Signature,
    pub public_key: PublicKey,
    /// The transaction's own hash.
    pub hash: Digest,
    /// The hash that the signature covers.
    pub signing_hash: Digest,
    /// Size on the wire.
    pub size_bytes: u64,
}

/// The addresses, keys and bytes of two transactions are the same.
pub open spec fn same_transaction(a: Transaction, b: Transaction) -> bool {
    &&& a.version == b.version
    &&& a.tx_type == b.tx_type
    &&& a.from@ == b.from@
    &&& (a.to is Some) == (b.to is Some)
    &&& a.to is Some ==> a.to->0@ == b.to->0@
    &&& a.amount == b.amount
    &&& a.fee == b.fee
    &&& a.nonce == b.nonce
    &&& a.data@ == b.data@
    &&& a.crypto_version == b.crypto_version
    &&& a.chain_id@ == b.chain_id@
    &&& a.signature@ == b.signature@
    &&& a.public_key@ == b.public_key@
    &&& a.hash@ == b.hash@
    &&& a.signing_hash@ == b.signing_hash@
    &&& a.size_bytes == b.size_bytes
}

impl Clone for Transaction {
    fn clone(&self) -> (r: Self)
        ensures
            same_transaction(r, *self),
    {
        Transaction {
            version: self.version,
            tx_type: self.tx_type,
            from: self.from.clone(),
            to: match &self.to {
                Some(a) => Some(a.clone()),
                None => None,
            },
            amount: self.amount,
            fee: self.fee,
            nonce: self.nonce,
            data: vstd::slice::slice_to_vec(self.data.as_slice()),
            crypto_version: self.crypto_version,
            chain_id: self.chain_id,
            signature: self.signature.clone(),
            public_key: self.public_key.clone(),
            hash: self.hash,
            signing_hash: self.signing_hash,
            size_bytes: self.size_bytes,
        }
    }
}

/// The key that a transaction's signature has to come from: the one that
/// guardians have put in control of the sender, or else the one that the
/// sender's address belongs to.
pub open spec fn controls(tx: Transaction, recovery_key: Option<Seq<u8>>) -> bool {
    match recovery_key {
        Some(k) => tx.public_key@ == k,
        None => address_of(tx.public_key@) == tx.from@,
    }
}

/// What the signature check says of a transaction's own key and signature.
pub open spec fn signature_outcome(tx: Transaction) -> Result<(), CryptoFault> {
    verify_outcome(tx.crypto_version, tx.public_key@, tx.signing_hash@, tx.signature@)
}

/// The transaction was signed by whoever controls its sender.
pub open spec fn authentic(tx: Transaction, recovery_key: Option<Seq<u8>>) -> bool {
    controls(tx, recovery_key) && signature_outcome(tx) is Ok
}

/// Why a transaction is not authentic.
pub open spec fn forgery(tx: Transaction, recovery_key: Option<Seq<u8>>) -> Option<Seq<char>> {
    if !controls(tx, recovery_key) {
        Some("public key does not control the sender address"@)
    } else {
        match signature_outcome(tx) {
            Ok(_) => None,
            Err(e) => Some(e.words()),
        }
    }
}

/// The bytes of an optional key.
pub open spec fn key_view(key: Option<&PublicKey>) -> Option<Seq<u8>> {
    match key {
        Some(k) => Some(k@),
        None => None,
    }
}

impl Transaction {
    pub fn hash(&self) -> (r: Digest)
        ensures
            r@ == self.hash@,
    {
        self.hash
    }

    pub fn signing_hash(&self) -> (r: Digest)
        ensures
            r@ == self.signing_hash@,
    {
        self.signing_hash
    }

    pub fn size_bytes(&self) -> (r: u64)
        ensures
            r == self.size_bytes,
    {
        self.size_bytes
    }

    /// Checks that the signature comes from whoever controls the sender: the
    /// recovery key if there is one, else the key that the address belongs to.
    pub fn verify_signature_with_recovery_key(&self, recovery_key: Option<&PublicKey>) -> (r: Result<
        (),
        String,
    >)
        ensures
            match r {
                Ok(()) => authentic(*self, key_view(recovery_key)),
                Err(e) => forgery(*self, key_view(recovery_key)) == Some(e@),
            },
            r is Ok <==> authentic(*self, key_view(recovery_key)),
    {
        let controlling = match recovery_key {
            Some(k) => self.public_key.same(k),
            None => Address::from_public_key(&self.public_key).same(&self.from),
        };
        if !controlling {
            return Err("public key does not control the sender address".to_owned());
        }
        let message = vstd::array::array_as_slice(self.signing_hash.as_bytes());
        match verify_with_scheme(self.crypto_version, &self.public_key, message, &self.signature) {
            Ok(()) => Ok(()),
            Err(e) => Err(e.message()),
        }
    }
}

#[derive(Debug, Clone, Copy, PartialEq, Eq, Structural)]
pub enum VoteType {
    Prevote,
    Precommit,
}

/// A validator's signed vote for a block.
#[derive(Debug)]
pub struct Vote {
    pub vote_type: VoteType,
    pub height: u64,
    pub round: u32,
    pub block_hash: Digest,
    pub validator: Address,
    pub public_key: PublicKey,
    pub crypto_version: CryptoScheme,
    pub signature: Signature,
    /// The bytes that the signature covers.
    pub signing_bytes: Vec<u8>,
}

/// The vote was signed by the key that its validator's address belongs to.
pub open spec fn vote_authentic(v: Vote) -> bool {
    &&& address_of(v.public_key@) == v.validator@
    &&& verify_outcome(v.crypto_version, v.public_key@, v.signing_bytes@, v.signature@) is Ok
}

impl Vote {
    pub fn verify_signature(&self) -> (r: bool)
        ensures
            r == vote_authentic(*self),
    {
        if !Address::from_public_key(&self.public_key).same(&self.validator) {
            return false;
        }
        match verify_with_scheme(
            self.crypto_version,
            &self.public_key,
            self.signing_bytes.as_slice(),
            &self.signature,
        ) {
            Ok(()) => true,
            Err(_) => false,
        }
    }
}

/// Two votes of one validator, claimed to conflict.
#[derive(Debug)]
pub struct DoubleSignEvidence {
    pub validator: Address,
    pub height: u64,
    pub round: u32,
    pub vote_a: Vote,
    pub vote_b: Vote,
}

/// Both votes are the accused's, for the height and round named, and for different blocks.
pub open spec fn evidence_conflicts(e: DoubleSignEvidence) -> bool {
    &&& e.vote_a.validator@ == e.validator@
    &&& e.vote_b.validator@ == e.validator@
    &&& e.vote_a.height == e.height
    &&& e.vote_b.height == e.height
    &&& e.vote_a.round == e.round
    &&& e.vote_b.round == e.round
    &&& e.vote_a.block_hash@ != e.vote_b.block_hash@
}

impl DoubleSignEvidence {
    pub fn is_valid(&self) -> (r: bool)
        ensures
            r == evidence_conflicts(*self),
    {
        self.vote_a.validator.same(&self.validator) && self.vote_b.validator.same(&self.validator)
            && self.vote_a.height == self.height && self.vote_b.height == self.height
            && self.vote_a.round == self.round && self.vote_b.round == self.round
            && !self.vote_a.block_hash.same(&self.vote_b.block_hash)
    }
}

/// A personhood claim as decoded from a transaction's payload.
#[derive(Debug)]
pub struct PersonhoodProofPayload {
    pub commitment: [u8; 16],
    /// Whether the zero-knowledge proof shows knowledge of the commitment's secret.
    pub proof_verified: bool,
    pub authority_signature: Signature,
    pub authority_crypto_version: CryptoScheme,
    /// What an authority has to sign: the commitment bound to the claiming address.
    pub authority_preimage: Vec<u8>,
}

/// What a finished contract call wants to do to the state.
pub struct ContractCommitData {
    pub contract: Address,
    /// The last value written to each storage key.
    pub storage_writes: Table<Vec<u8>, Vec<u8>>,
    /// Payments out of the contract, in order.
    pub transfers: Vec<(Address, u64)>,
    pub return_data: Vec<u8>,
}

/// What the decoders and the virtual machine say of a transaction's payload.
pub struct Findings {
    /// The double-sign evidence that the payload decodes to.
    pub evidence: Option<DoubleSignEvidence>,
    /// The personhood claim that the payload decodes to.
    pub personhood: Option<PersonhoodProofPayload>,
    /// The most code that the virtual machine takes.
    pub code_size_limit: usize,
    /// The virtual machine's verdict on the payload as contract code.
    pub bytecode: Result<(), String>,
    /// How running the called contract ended.
    pub call: Result<ContractCommitData, String>,
}

impl Findings {
    /// Nothing decoded and nothing run.
    pub fn none() -> (r: Self)
        ensures
            r.evidence is None,
            r.personhood is None,
            r.code_size_limit == 0,
            r.bytecode is Err && r.bytecode->Err_0@ == "not checked"@,
            r.call is Err && r.call->Err_0@ == "not run"@,
    {
        Findings {
            evidence: None,
            personhood: None,
            code_size_limit: 0,
            bytecode: Err("not checked".to_owned()),
            call: Err("not run".to_owned()),
        }
    }
}

#[derive(Debug)]
pub struct BlockHeader {
    pub version: u32,
    pub height: u64,
    pub timestamp: u64,
    pub prev_hash: Digest,
    pub merkle_root: Digest,
    pub validator: Address,
    pub public_key: PublicKey,
    pub crypto_version: CryptoScheme,
    pub base_fee_per_byte: u64,
    pub signature: Signature,
    /// Validators whose verified signatures finalised the parent block.
    pub last_commit: Vec<Address>,
    /// Whether the validator set rotates after this block.
    pub ends_epoch: bool,
}

#[derive(Debug)]
pub struct Block {
    pub header: BlockHeader,
    pub transactions: Vec<Transaction>,
    /// The block's own hash.
    pub hash: Digest,
}

} // verus!
