use helix::crypto::{Address, CryptoScheme, Digest, KeyPair, PublicKey, Signature};
use helix::executor::account::{
    DelegationPool, DEFAULT_COMMISSION_BPS, MAX_COMMISSION_BPS, UNBONDING_PERIOD,
};
use helix::executor::block::execute_block;
use helix::executor::contracts::{plan_contract_call, ContractHostContext};
use helix::executor::engine::execute_transaction;
use helix::executor::fees::credit_validator_reward;
use helix::executor::genesis::{
    scheduled_block_reward, HALVING_INTERVAL_BLOCKS, INITIAL_BLOCK_REWARD_HLX,
    MIN_VALIDATOR_STAKE, NANO_PER_HLX, TOTAL_SUPPLY_HLX,
};
use helix::executor::governance::{
    encode_proposal, encode_vote, quorum_threshold, GovernanceParam, DEFAULT_FUEL_PER_FEE_UNIT,
    VOTING_PERIOD_BLOCKS,
};
use helix::executor::receipt::Receipt;
use helix::executor::state::{unset_chain_id, ChainState};
use helix::executor::votes::SLASH_FRACTION_BPS;
use helix::identity::ATTESTATION_THRESHOLD;
use helix::mempool::INITIAL_BASE_FEE_PER_BYTE;
use helix::transaction::{
    Block, BlockHeader, ContractCommitData, DoubleSignEvidence, Findings, PersonhoodProofPayload,
    Transaction, TxType, Vote, VoteType,
};

const MAX_CONTRACT_CODE_SIZE: usize = 64 * 1024;

/// What a wire format would cover: every field but the signature.
fn unsigned_bytes(tx: &Transaction) -> Vec<u8> {
    let mut b = format!("{:?}", tx.tx_type).into_bytes();
    b.extend_from_slice(tx.from.as_str().as_bytes());
    if let Some(to) = &tx.to {
        b.extend_from_slice(to.as_str().as_bytes());
    }
    for n in [tx.amount, tx.fee, tx.nonce] {
        b.extend_from_slice(&n.to_le_bytes());
    }
    b.extend_from_slice(&tx.data);
    b.extend_from_slice(tx.chain_id.as_bytes());
    b.extend_from_slice(tx.public_key.as_bytes());
    b
}

fn signed_tx(
    kp: &KeyPair,
    from: &Address,
    tx_type: TxType,
    to: Option<Address>,
    amount: u64,
    data: Vec<u8>,
    nonce: u64,
    fee: u64,
) -> Transaction {
    let mut tx = Transaction {
        version: 1,
        tx_type,
        from: from.clone(),
        to,
        amount,
        fee,
        nonce,
        data,
        crypto_version: kp.scheme,
        chain_id: unset_chain_id(),
        signature: Signature::from_bytes(vec![]),
        public_key: kp.public.clone(),
        hash: Digest::zero(),
        signing_hash: Digest::zero(),
        size_bytes: 0,
    };
    let mut bytes = unsigned_bytes(&tx);
    tx.signing_hash = Digest::digest(&bytes);
    tx.signature = kp.sign(tx.signing_hash().as_bytes()).unwrap();
    bytes.extend_from_slice(tx.signature.as_bytes());
    tx.hash = Digest::digest(&bytes);
    tx.size_bytes = bytes.len() as u64;
    tx
}

/// One instruction of the toy machine that the contract tests run on.
enum Op {
    Write(Vec<u8>, Vec<u8>),
    Pay(String, u64),
    Echo(Vec<u8>),
    Trap,
    Loop,
}

/// Code for the toy machine: a magic number, then one line for each instruction.
fn program(ops: &[Op]) -> Vec<u8> {
    let mut lines = vec!["toy".to_string()];
    for op in ops {
        lines.push(match op {
            Op::Write(k, v) => format!("write {} {}", hex::encode(k), hex::encode(v)),
            Op::Pay(to, amount) => format!("pay {to} {amount}"),
            Op::Echo(k) => format!("echo {}", hex::encode(k)),
            Op::Trap => "trap".to_string(),
            Op::Loop => "loop".to_string(),
        });
    }
    lines.join("\n").into_bytes()
}

fn valid_contract_wasm() -> Vec<u8> {
    program(&[])
}

fn storage_writer_wasm() -> Vec<u8> {
    program(&[Op::Write(b"greeting".to_vec(), b"hello".to_vec())])
}

fn transfer_wasm(recipient: &Address, amount: i64) -> Vec<u8> {
    program(&[Op::Pay(recipient.to_string(), amount as u64)])
}

/// Runs a call on the toy machine against the library's host context.
fn call(state: &ChainState, tx: &Transaction, height: u64) -> Result<ContractCommitData, String> {
    let (code, fuel) = plan_contract_call(state, tx)?;
    let mut ctx = ContractHostContext::new(
        state,
        tx.to.clone().unwrap(),
        tx.from.clone(),
        tx.amount,
        height,
        tx.data.clone(),
    );
    assert_eq!(ctx.caller(), tx.from.as_str());
    assert_eq!(ctx.self_address(), tx.to.as_ref().unwrap().as_str());
    assert_eq!((ctx.value(), ctx.block_height()), (tx.amount, height));
    let text = String::from_utf8(code).unwrap();
    let mut fuel = fuel;
    for line in text.lines().skip(1) {
        if line == "loop" {
            fuel = 0;
        }
        if fuel == 0 {
            return Err("out of gas".to_string());
        }
        fuel -= 1;
        let words: Vec<&str> = line.split(' ').collect();
        match words[0] {
            "write" => {
                ctx.storage_write(&hex::decode(words[1]).unwrap(), hex::decode(words[2]).unwrap())
            }
            "pay" => {
                ctx.transfer(words[1], words[2].parse().unwrap());
            }
            "echo" => {
                let input = ctx.input().to_vec();
                ctx.storage_write(&hex::decode(words[1]).unwrap(), input);
            }
            _ => return Err("trap".to_string()),
        }
    }
    Ok(ctx.into_commit_data())
}

/// What the toy machine says of a transaction.
fn machine_findings(state: &ChainState, tx: &Transaction, height: u64) -> Findings {
    let mut f = Findings::none();
    f.code_size_limit = MAX_CONTRACT_CODE_SIZE;
    f.bytecode = if tx.data.starts_with(b"toy") {
        Ok(())
    } else {
        Err("bad magic number".to_string())
    };
    if tx.tx_type == TxType::CallContract {
        f.call = call(state, tx, height);
    }
    f
}

fn run(
    state: &mut ChainState,
    tx: &Transaction,
    validator: &Address,
    height: u64,
    base_fee_per_byte: u64,
) -> Receipt {
    let found = machine_findings(state, tx, height);
    execute_transaction(state, tx, &found, validator, height, base_fee_per_byte)
}

fn run_with(
    state: &mut ChainState,
    tx: &Transaction,
    found: &Findings,
    validator: &Address,
    height: u64,
    base_fee_per_byte: u64,
) -> Receipt {
    execute_transaction(state, tx, found, validator, height, base_fee_per_byte)
}

fn signed_register_name_tx(
    kp: &KeyPair,
    from: &Address,
    name: &str,
    nonce: u64,
    fee: u64,
) -> Transaction {
    signed_tx(kp, from, TxType::RegisterName, None, 0, name.as_bytes().to_vec(), nonce, fee)
}

fn signed_attest_tx(kp: &KeyPair, from: &Address, to: &Address, nonce: u64, fee: u64) -> Transaction {
    signed_tx(kp, from, TxType::RegisterIdentity, Some(to.clone()), 0, vec![], nonce, fee)
}

fn signed_register_guardians_tx(
    kp: &KeyPair,
    from: &Address,
    guardians: &[Address],
    nonce: u64,
    fee: u64,
) -> Transaction {
    let data = guardians
        .iter()
        .map(|g| g.to_string())
        .collect::<Vec<_>>()
        .join("\n")
        .into_bytes();
    signed_tx(kp, from, TxType::RegisterGuardians, None, 0, data, nonce, fee)
}

fn signed_approve_recovery_tx(
    kp: &KeyPair,
    from: &Address,
    target: &Address,
    new_public_key: &PublicKey,
    nonce: u64,
    fee: u64,
) -> Transaction {
    let data = new_public_key.as_bytes().to_vec();
    signed_tx(kp, from, TxType::ApproveRecovery, Some(target.clone()), 0, data, nonce, fee)
}

fn signed_cancel_recovery_request_tx(
    kp: &KeyPair,
    from: &Address,
    nonce: u64,
    fee: u64,
) -> Transaction {
    signed_tx(kp, from, TxType::CancelRecoveryRequest, None, 0, vec![], nonce, fee)
}

fn signed_contract_tx(
    kp: &KeyPair,
    from: &Address,
    tx_type: TxType,
    to: Option<Address>,
    amount: u64,
    data: Vec<u8>,
    nonce: u64,
    fee: u64,
) -> Transaction {
    signed_tx(kp, from, tx_type, to, amount, data, nonce, fee)
}

fn signed_governance_tx(
    kp: &KeyPair,
    from: &Address,
    tx_type: TxType,
    data: Vec<u8>,
    nonce: u64,
    fee: u64,
) -> Transaction {
    signed_tx(kp, from, tx_type, None, 0, data, nonce, fee)
}

fn signed_tx_simple(
    kp: &KeyPair,
    from: &Address,
    tx_type: TxType,
    nonce: u64,
    fee: u64,
) -> Transaction {
    signed_tx(kp, from, tx_type, None, 0, vec![], nonce, fee)
}

fn signed_unstake_tx(kp: &KeyPair, from: &Address, amount: u64, nonce: u64, fee: u64) -> Transaction {
    signed_tx(kp, from, TxType::Unstake, None, amount, vec![], nonce, fee)
}

/// A personhood claim as it stands in a transaction.
struct Claim {
    commitment: [u8; 16],
    authority_signature: Signature,
    authority_crypto_version: CryptoScheme,
}

fn authority_preimage(commitment: &[u8; 16], claimant: &Address) -> Vec<u8> {
    let mut b = commitment.to_vec();
    b.extend_from_slice(claimant.as_str().as_bytes());
    b
}

fn personhood_payload(authority_kp: &KeyPair, commitment: [u8; 16], claimant: &Address) -> Claim {
    let preimage = authority_preimage(&commitment, claimant);
    Claim {
        commitment,
        authority_signature: authority_kp.sign(&preimage).unwrap(),
        authority_crypto_version: authority_kp.scheme,
    }
}

fn signed_personhood_tx(
    kp: &KeyPair,
    from: &Address,
    payload: &Claim,
    nonce: u64,
    fee: u64,
) -> Transaction {
    let mut data = payload.commitment.to_vec();
    data.extend_from_slice(payload.authority_signature.as_bytes());
    signed_tx(kp, from, TxType::ProvePersonhood, None, 0, data, nonce, fee)
}

/// What decoding a claim sent by `from` finds, its zero-knowledge proof being good.
fn personhood_findings(payload: &Claim, from: &Address) -> Findings {
    let mut f = Findings::none();
    f.personhood = Some(PersonhoodProofPayload {
        commitment: payload.commitment,
        proof_verified: true,
        authority_signature: payload.authority_signature.clone(),
        authority_crypto_version: payload.authority_crypto_version,
        authority_preimage: authority_preimage(&payload.commitment, from),
    });
    f
}

fn signed_vote(
    kp: &KeyPair,
    validator: &Address,
    vote_type: VoteType,
    height: u64,
    round: u32,
    block_hash: Digest,
) -> Vote {
    let mut signing_bytes = format!("{vote_type:?}").into_bytes();
    signing_bytes.extend_from_slice(&height.to_le_bytes());
    signing_bytes.extend_from_slice(&round.to_le_bytes());
    signing_bytes.extend_from_slice(block_hash.as_bytes());
    Vote {
        vote_type,
        height,
        round,
        block_hash,
        validator: validator.clone(),
        public_key: kp.public.clone(),
        crypto_version: kp.scheme,
        signature: kp.sign(&signing_bytes).unwrap(),
        signing_bytes,
    }
}

fn signed_evidence_tx(reporter_kp: &KeyPair, reporter: &Address, nonce: u64) -> Transaction {
    let data = b"evidence".to_vec();
    signed_tx(reporter_kp, reporter, TxType::SubmitDoubleSignEvidence, None, 0, data, nonce, 0)
}

fn evidence_findings(evidence: DoubleSignEvidence) -> Findings {
    let mut f = Findings::none();
    f.evidence = Some(evidence);
    f
}

fn empty_block(validator: &Address, height: u64) -> Block {
    Block {
        header: BlockHeader {
            version: 1,
            height,
            timestamp: 0,
            prev_hash: Digest::zero(),
            merkle_root: Digest::zero(),
            validator: validator.clone(),
            public_key: KeyPair::generate().public,
            crypto_version: CryptoScheme::MlDsa,
            base_fee_per_byte: INITIAL_BASE_FEE_PER_BYTE,
            signature: Signature::from_bytes(vec![]),
            last_commit: vec![],
            ends_epoch: false,
        },
        transactions: vec![],
        hash: Digest::zero(),
    }
}

fn set_pool_value(state: &mut ChainState, validator: &Address, value: u64) {
    let mut pool = *state.validator_pools.get(&validator.to_string()).unwrap();
    pool.total_delegated_stake = value;
    state.validator_pools.insert(validator.to_string(), pool);
}


#[test]
fn register_name_succeeds_and_charges_fee() {
    let kp = KeyPair::generate();
    let addr = Address::from_public_key(&kp.public);
    let validator = Address::from_public_key(&KeyPair::generate().public);

    let mut state = ChainState::new(0);
    state.update_account(&addr, |acc| acc.balance = 1_000_000);

    let tx = signed_register_name_tx(&kp, &addr, "alice", 0, 10_000);
    let receipt = run(&mut state, &tx, &validator, 0, 0);

    assert!(receipt.success, "expected success, got: {:?}", receipt.error);
    assert_eq!(state.resolve_name("alice"), Some(addr.to_string().as_str()));
    assert_eq!(state.name_of(&addr), Some("alice"));
    assert_eq!(state.get(&addr).unwrap().balance, 1_000_000 - 10_000);
    assert_eq!(state.get(&addr).unwrap().nonce, 1);
}

#[test]
fn tx_below_block_base_fee_is_rejected_then_base_fee_is_burned_and_rest_tips() {
    let kp = KeyPair::generate();
    let addr = Address::from_public_key(&kp.public);
    let to = Address::from_public_key(&KeyPair::generate().public);
    let validator = Address::from_public_key(&KeyPair::generate().public);

    let mut state = ChainState::new(0);
    state.update_account(&addr, |acc| acc.balance = 1_000_000);

    let tx = signed_tx(&kp, &addr, TxType::Transfer, Some(to.clone()), 1, vec![], 0, 10);
    assert!(tx.size_bytes() > 10, "tx must be larger than its fee for this to show anything");
    let rejected = run(&mut state, &tx, &validator, 0, 1);
    assert!(!rejected.success);
    assert_eq!(rejected.error.as_deref(), Some("fee below block base fee"));
    assert_eq!(state.get(&addr).unwrap().balance, 1_000_000, "rejected tx must not touch balance");
    assert_eq!(state.get(&addr).unwrap().nonce, 0, "rejected tx must not advance nonce");

    let base_fee_per_byte = 1u64;
    let tx2 = signed_tx(&kp, &addr, TxType::Transfer, Some(to.clone()), 1, vec![], 0, 100_000);
    let expected_burn = base_fee_per_byte * tx2.size_bytes();
    let ok = run(&mut state, &tx2, &validator, 0, base_fee_per_byte);
    assert!(ok.success, "expected success, got: {:?}", ok.error);
    assert_eq!(ok.fee_burned, expected_burn);
    assert_eq!(ok.fee_to_validator, 100_000 - expected_burn);
}

#[test]
fn register_name_rejects_already_taken_name() {
    let kp_a = KeyPair::generate();
    let addr_a = Address::from_public_key(&kp_a.public);
    let kp_b = KeyPair::generate();
    let addr_b = Address::from_public_key(&kp_b.public);
    let validator = Address::from_public_key(&KeyPair::generate().public);

    let mut state = ChainState::new(0);
    state.update_account(&addr_a, |acc| acc.balance = 1_000_000);
    state.update_account(&addr_b, |acc| acc.balance = 1_000_000);

    let tx_a = signed_register_name_tx(&kp_a, &addr_a, "alice", 0, 10_000);
    assert!(run(&mut state, &tx_a, &validator, 0, 0).success);

    let tx_b = signed_register_name_tx(&kp_b, &addr_b, "alice", 0, 10_000);
    let receipt = run(&mut state, &tx_b, &validator, 0, 0);
    assert!(!receipt.success);
    assert_eq!(state.resolve_name("alice"), Some(addr_a.to_string().as_str()));
}

#[test]
fn register_name_rejects_invalid_name() {
    let kp = KeyPair::generate();
    let addr = Address::from_public_key(&kp.public);
    let validator = Address::from_public_key(&KeyPair::generate().public);

    let mut state = ChainState::new(0);
    state.update_account(&addr, |acc| acc.balance = 1_000_000);

    let tx = signed_register_name_tx(&kp, &addr, "AB", 0, 10_000); // too short + uppercase
    let receipt = run(&mut state, &tx, &validator, 0, 0);
    assert!(!receipt.success);
    assert!(state.resolve_name("ab").is_none());
}

#[test]
fn register_identity_social_attestation_is_disabled() {
    let validator = Address::from_public_key(&KeyPair::generate().public);
    let attestee = Address::from_public_key(&KeyPair::generate().public);

    let mut state = ChainState::new(0);

    for i in 0..ATTESTATION_THRESHOLD {
        let attester_kp = KeyPair::generate();
        let attester = Address::from_public_key(&attester_kp.public);
        state.update_account(&attester, |acc| acc.balance = 1_000_000);

        let tx = signed_attest_tx(&attester_kp, &attester, &attestee, 0, 10_000);
        let receipt = run(&mut state, &tx, &validator, 50 + i as u64, 0);
        assert!(!receipt.success, "attestation {i} unexpectedly succeeded");
    }

    assert!(!state.has_personhood(&attestee));
}

#[test]
fn register_guardians_succeeds_with_valid_set() {
    let owner_kp = KeyPair::generate();
    let owner = Address::from_public_key(&owner_kp.public);
    let validator = Address::from_public_key(&KeyPair::generate().public);

    let mut state = ChainState::new(0);
    state.update_account(&owner, |acc| acc.balance = 1_000_000);

    let guardians: Vec<Address> = (0..5)
        .map(|_| Address::from_public_key(&KeyPair::generate().public))
        .collect();
    let tx = signed_register_guardians_tx(&owner_kp, &owner, &guardians, 0, 10_000);
    let receipt = run(&mut state, &tx, &validator, 0, 0);

    assert!(receipt.success, "expected success, got: {:?}", receipt.error);
    assert_eq!(state.guardians(&owner).unwrap().guardians.len(), 5);
    assert_eq!(state.guardians(&owner).unwrap().threshold(), 3);
}

#[test]
fn register_guardians_rejects_too_few() {
    let owner_kp = KeyPair::generate();
    let owner = Address::from_public_key(&owner_kp.public);
    let validator = Address::from_public_key(&KeyPair::generate().public);

    let mut state = ChainState::new(0);
    state.update_account(&owner, |acc| acc.balance = 1_000_000);

    let guardians: Vec<Address> = (0..2)
        .map(|_| Address::from_public_key(&KeyPair::generate().public))
        .collect();
    let tx = signed_register_guardians_tx(&owner_kp, &owner, &guardians, 0, 10_000);
    let receipt = run(&mut state, &tx, &validator, 0, 0);

    assert!(!receipt.success);
    assert!(state.guardians(&owner).is_none());
}

#[test]
fn recovery_quorum_rotates_control_and_old_key_stops_working() {
    let validator = Address::from_public_key(&KeyPair::generate().public);
    let owner_kp = KeyPair::generate();
    let owner = Address::from_public_key(&owner_kp.public);

    let mut state = ChainState::new(0);
    state.update_account(&owner, |acc| acc.balance = 1_000_000);

    let guardian_kps: Vec<KeyPair> = (0..5).map(|_| KeyPair::generate()).collect();
    let guardian_addrs: Vec<Address> = guardian_kps
        .iter()
        .map(|kp| Address::from_public_key(&kp.public))
        .collect();
    for addr in &guardian_addrs {
        state.update_account(addr, |acc| acc.balance = 1_000_000);
    }

    let reg_tx = signed_register_guardians_tx(&owner_kp, &owner, &guardian_addrs, 0, 10_000);
    assert!(run(&mut state, &reg_tx, &validator, 0, 0).success);

    let new_kp = KeyPair::generate();

    for i in 0..2 {
        let tx = signed_approve_recovery_tx(
            &guardian_kps[i],
            &guardian_addrs[i],
            &owner,
            &new_kp.public,
            0,
            10_000,
        );
        let receipt = run(&mut state, &tx, &validator, 1, 0);
        assert!(receipt.success, "approval {i} failed: {:?}", receipt.error);
    }
    assert!(state.recovery_key(&owner).is_none());

    let tx = signed_approve_recovery_tx(
        &guardian_kps[2],
        &guardian_addrs[2],
        &owner,
        &new_kp.public,
        0,
        10_000,
    );
    assert!(run(&mut state, &tx, &validator, 1, 0).success);
    assert!(state.recovery_key(&owner).is_some());

    let old_key_tx = signed_register_guardians_tx(&owner_kp, &owner, &guardian_addrs, 1, 10_000);
    let receipt = run(&mut state, &old_key_tx, &validator, 2, 0);
    assert!(!receipt.success, "old key should no longer control the account");

    let transfer_tx = signed_tx(
        &new_kp,
        &owner,
        TxType::Transfer,
        Some(guardian_addrs[0].clone()),
        100,
        vec![],
        1,
        10_000,
    );
    let receipt = run(&mut state, &transfer_tx, &validator, 3, 0);
    assert!(receipt.success, "new key should control the account: {:?}", receipt.error);
}

#[test]
fn approve_recovery_rejects_non_guardian() {
    let validator = Address::from_public_key(&KeyPair::generate().public);
    let owner_kp = KeyPair::generate();
    let owner = Address::from_public_key(&owner_kp.public);

    let mut state = ChainState::new(0);
    state.update_account(&owner, |acc| acc.balance = 1_000_000);

    let guardian_addrs: Vec<Address> = (0..5)
        .map(|_| Address::from_public_key(&KeyPair::generate().public))
        .collect();
    let reg_tx = signed_register_guardians_tx(&owner_kp, &owner, &guardian_addrs, 0, 10_000);
    assert!(run(&mut state, &reg_tx, &validator, 0, 0).success);

    let outsider_kp = KeyPair::generate();
    let outsider = Address::from_public_key(&outsider_kp.public);
    state.update_account(&outsider, |acc| acc.balance = 1_000_000);

    let new_kp = KeyPair::generate();
    let tx = signed_approve_recovery_tx(&outsider_kp, &outsider, &owner, &new_kp.public, 0, 10_000);
    let receipt = run(&mut state, &tx, &validator, 1, 0);
    assert!(!receipt.success);
    assert!(state.recovery_key(&owner).is_none());
}

#[test]
fn cancel_recovery_request_unblocks_guardian_changes() {
    let validator = Address::from_public_key(&KeyPair::generate().public);
    let owner_kp = KeyPair::generate();
    let owner = Address::from_public_key(&owner_kp.public);

    let mut state = ChainState::new(0);
    state.update_account(&owner, |acc| acc.balance = 1_000_000);

    let guardian_kps: Vec<KeyPair> = (0..5).map(|_| KeyPair::generate()).collect();
    let guardian_addrs: Vec<Address> = guardian_kps
        .iter()
        .map(|kp| Address::from_public_key(&kp.public))
        .collect();
    for addr in &guardian_addrs {
        state.update_account(addr, |acc| acc.balance = 1_000_000);
    }

    let reg_tx = signed_register_guardians_tx(&owner_kp, &owner, &guardian_addrs, 0, 10_000);
    assert!(run(&mut state, &reg_tx, &validator, 0, 0).success);

    let bogus_kp = KeyPair::generate();
    let approve_tx = signed_approve_recovery_tx(
        &guardian_kps[0],
        &guardian_addrs[0],
        &owner,
        &bogus_kp.public,
        0,
        10_000,
    );
    assert!(run(&mut state, &approve_tx, &validator, 1, 0).success);
    assert!(state.recovery_request(&owner).is_some());

    let blocked_tx = signed_register_guardians_tx(&owner_kp, &owner, &guardian_addrs, 1, 10_000);
    let receipt = run(&mut state, &blocked_tx, &validator, 2, 0);
    assert!(!receipt.success, "guardian changes should be blocked while a request is pending");

    let cancel_tx = signed_cancel_recovery_request_tx(&owner_kp, &owner, 2, 10_000);
    let receipt = run(&mut state, &cancel_tx, &validator, 2, 0);
    assert!(receipt.success, "expected success, got: {:?}", receipt.error);
    assert!(state.recovery_request(&owner).is_none());

    let unblocked_tx = signed_register_guardians_tx(&owner_kp, &owner, &guardian_addrs, 3, 10_000);
    let receipt = run(&mut state, &unblocked_tx, &validator, 3, 0);
    assert!(receipt.success, "expected success, got: {:?}", receipt.error);
}

#[test]
fn cancel_recovery_request_rejects_when_none_pending() {
    let validator = Address::from_public_key(&KeyPair::generate().public);
    let owner_kp = KeyPair::generate();
    let owner = Address::from_public_key(&owner_kp.public);

    let mut state = ChainState::new(0);
    state.update_account(&owner, |acc| acc.balance = 1_000_000);

    let tx = signed_cancel_recovery_request_tx(&owner_kp, &owner, 0, 10_000);
    let receipt = run(&mut state, &tx, &validator, 0, 0);
    assert!(!receipt.success);
}

#[test]
fn deploy_contract_stores_code_and_charges_fee() {
    let kp = KeyPair::generate();
    let addr = Address::from_public_key(&kp.public);
    let validator = Address::from_public_key(&KeyPair::generate().public);

    let mut state = ChainState::new(0);
    state.update_account(&addr, |acc| acc.balance = 1_000_000);

    let tx = signed_contract_tx(
        &kp,
        &addr,
        TxType::DeployContract,
        None,
        0,
        valid_contract_wasm(),
        0,
        10_000,
    );
    let receipt = run(&mut state, &tx, &validator, 0, 0);

    assert!(receipt.success, "expected success, got: {:?}", receipt.error);
    assert!(state.get(&addr).unwrap().code.is_some());
    assert_eq!(state.get(&addr).unwrap().balance, 1_000_000 - 10_000);
}

#[test]
fn deploy_contract_rejects_invalid_bytecode() {
    let kp = KeyPair::generate();
    let addr = Address::from_public_key(&kp.public);
    let validator = Address::from_public_key(&KeyPair::generate().public);

    let mut state = ChainState::new(0);
    state.update_account(&addr, |acc| acc.balance = 1_000_000);

    let tx = signed_contract_tx(
        &kp,
        &addr,
        TxType::DeployContract,
        None,
        0,
        b"not wasm".to_vec(),
        0,
        10_000,
    );
    let receipt = run(&mut state, &tx, &validator, 0, 0);

    assert!(!receipt.success);
    assert!(state.get(&addr).unwrap().code.is_none());
}

#[test]
fn deploy_contract_rejects_oversized_bytecode() {
    let kp = KeyPair::generate();
    let addr = Address::from_public_key(&kp.public);
    let validator = Address::from_public_key(&KeyPair::generate().public);

    let mut state = ChainState::new(0);
    state.update_account(&addr, |acc| acc.balance = 1_000_000);

    let oversized = vec![0u8; MAX_CONTRACT_CODE_SIZE + 1];
    let tx = signed_contract_tx(
        &kp,
        &addr,
        TxType::DeployContract,
        None,
        0,
        oversized,
        0,
        10_000,
    );
    let receipt = run(&mut state, &tx, &validator, 0, 0);

    assert!(!receipt.success, "oversized deploy must fail");
    assert!(state.get(&addr).unwrap().code.is_none(), "no code may be stored");
}

#[test]
fn call_contract_executes_and_transfers_value() {
    let deployer_kp = KeyPair::generate();
    let deployer = Address::from_public_key(&deployer_kp.public);
    let caller_kp = KeyPair::generate();
    let caller = Address::from_public_key(&caller_kp.public);
    let validator = Address::from_public_key(&KeyPair::generate().public);

    let mut state = ChainState::new(0);
    state.update_account(&deployer, |acc| acc.balance = 1_000_000);
    state.update_account(&caller, |acc| acc.balance = 1_000_000);

    let deploy_tx = signed_contract_tx(
        &deployer_kp,
        &deployer,
        TxType::DeployContract,
        None,
        0,
        valid_contract_wasm(),
        0,
        10_000,
    );
    assert!(run(&mut state, &deploy_tx, &validator, 0, 0).success);

    let call_tx = signed_contract_tx(
        &caller_kp,
        &caller,
        TxType::CallContract,
        Some(deployer.clone()),
        5_000,
        vec![],
        0,
        10_000,
    );
    let receipt = run(&mut state, &call_tx, &validator, 1, 0);

    assert!(receipt.success, "expected success, got: {:?}", receipt.error);
    assert_eq!(state.get(&caller).unwrap().balance, 1_000_000 - 5_000 - 10_000);
    assert_eq!(
        state.get(&deployer).unwrap().balance,
        1_000_000 - 10_000 + 5_000
    );
}

#[test]
fn call_contract_rejects_target_without_code() {
    let caller_kp = KeyPair::generate();
    let caller = Address::from_public_key(&caller_kp.public);
    let target = Address::from_public_key(&KeyPair::generate().public);
    let validator = Address::from_public_key(&KeyPair::generate().public);

    let mut state = ChainState::new(0);
    state.update_account(&caller, |acc| acc.balance = 1_000_000);

    let tx = signed_contract_tx(
        &caller_kp,
        &caller,
        TxType::CallContract,
        Some(target),
        0,
        vec![],
        0,
        10_000,
    );
    let receipt = run(&mut state, &tx, &validator, 0, 0);
    assert!(!receipt.success);
}

#[test]
fn call_contract_charges_fee_and_advances_nonce_on_out_of_gas_failure() {
    let deployer_kp = KeyPair::generate();
    let deployer = Address::from_public_key(&deployer_kp.public);
    let caller_kp = KeyPair::generate();
    let caller = Address::from_public_key(&caller_kp.public);
    let validator = Address::from_public_key(&KeyPair::generate().public);

    let mut state = ChainState::new(0);
    state.update_account(&deployer, |acc| acc.balance = 1_000_000);
    state.update_account(&caller, |acc| acc.balance = 1_000_000);

    let looping_wasm = program(&[Op::Loop]);
    let deploy_tx = signed_contract_tx(
        &deployer_kp,
        &deployer,
        TxType::DeployContract,
        None,
        0,
        looping_wasm,
        0,
        10_000,
    );
    assert!(run(&mut state, &deploy_tx, &validator, 0, 0).success);

    let call_tx = signed_contract_tx(
        &caller_kp,
        &caller,
        TxType::CallContract,
        Some(deployer),
        0,
        vec![],
        0,
        1, // 1 fuel unit — nowhere near enough to complete the loop
    );
    let receipt = run(&mut state, &call_tx, &validator, 1, 0);

    assert!(!receipt.success);
    assert_eq!(state.get(&caller).unwrap().balance, 1_000_000 - 1);
    assert_eq!(state.get(&caller).unwrap().nonce, 1);
}

#[test]
fn call_contract_storage_write_persists_into_real_chain_state() {
    let deployer_kp = KeyPair::generate();
    let deployer = Address::from_public_key(&deployer_kp.public);
    let caller_kp = KeyPair::generate();
    let caller = Address::from_public_key(&caller_kp.public);
    let validator = Address::from_public_key(&KeyPair::generate().public);

    let mut state = ChainState::new(0);
    state.update_account(&deployer, |acc| acc.balance = 1_000_000);
    state.update_account(&caller, |acc| acc.balance = 1_000_000);

    let deploy_tx = signed_contract_tx(&deployer_kp, &deployer, TxType::DeployContract, None, 0, storage_writer_wasm(), 0, 10_000);
    assert!(run(&mut state, &deploy_tx, &validator, 0, 0).success);

    assert_eq!(state.contract_storage_read(&deployer, b"greeting"), None, "nothing written yet");

    let call_tx = signed_contract_tx(&caller_kp, &caller, TxType::CallContract, Some(deployer.clone()), 0, vec![], 0, 10_000);
    let receipt = run(&mut state, &call_tx, &validator, 1, 0);

    assert!(receipt.success, "expected success, got: {:?}", receipt.error);
    assert_eq!(state.contract_storage_read(&deployer, b"greeting"), Some(b"hello".to_vec()));
}

#[test]
fn call_contract_storage_is_isolated_between_different_contracts() {
    let deployer_a_kp = KeyPair::generate();
    let deployer_a = Address::from_public_key(&deployer_a_kp.public);
    let deployer_b_kp = KeyPair::generate();
    let deployer_b = Address::from_public_key(&deployer_b_kp.public);
    let validator = Address::from_public_key(&KeyPair::generate().public);

    let mut state = ChainState::new(0);
    state.update_account(&deployer_a, |acc| acc.balance = 1_000_000);
    state.update_account(&deployer_b, |acc| acc.balance = 1_000_000);

    let deploy_a = signed_contract_tx(&deployer_a_kp, &deployer_a, TxType::DeployContract, None, 0, storage_writer_wasm(), 0, 10_000);
    let deploy_b = signed_contract_tx(&deployer_b_kp, &deployer_b, TxType::DeployContract, None, 0, storage_writer_wasm(), 0, 10_000);
    assert!(run(&mut state, &deploy_a, &validator, 0, 0).success);
    assert!(run(&mut state, &deploy_b, &validator, 0, 0).success);

    let call_a = signed_contract_tx(&deployer_a_kp, &deployer_a, TxType::CallContract, Some(deployer_a.clone()), 0, vec![], 1, 10_000);
    assert!(run(&mut state, &call_a, &validator, 1, 0).success);

    assert_eq!(state.contract_storage_read(&deployer_a, b"greeting"), Some(b"hello".to_vec()));
    assert_eq!(
        state.contract_storage_read(&deployer_b, b"greeting"),
        None,
        "one contract's storage write must never be visible under a different contract's address"
    );
}

#[test]
fn call_contract_transfer_moves_real_balance_to_a_third_party() {
    let deployer_kp = KeyPair::generate();
    let deployer = Address::from_public_key(&deployer_kp.public);
    let caller_kp = KeyPair::generate();
    let caller = Address::from_public_key(&caller_kp.public);
    let recipient = Address::from_public_key(&KeyPair::generate().public);
    let validator = Address::from_public_key(&KeyPair::generate().public);

    let mut state = ChainState::new(0);
    state.update_account(&deployer, |acc| acc.balance = 1_000_000);
    state.update_account(&caller, |acc| acc.balance = 1_000_000);

    let wasm = transfer_wasm(&recipient, 300);
    let deploy_tx = signed_contract_tx(&deployer_kp, &deployer, TxType::DeployContract, None, 0, wasm, 0, 10_000);
    assert!(run(&mut state, &deploy_tx, &validator, 0, 0).success);

    let call_tx = signed_contract_tx(&caller_kp, &caller, TxType::CallContract, Some(deployer.clone()), 1_000, vec![], 0, 10_000);
    let receipt = run(&mut state, &call_tx, &validator, 1, 0);

    assert!(receipt.success, "expected success, got: {:?}", receipt.error);
    assert_eq!(state.get(&recipient).unwrap().balance, 300);
    assert_eq!(state.get(&deployer).unwrap().balance, 990_700);
}

#[test]
fn call_contract_trap_rolls_back_storage_writes_and_transfers_atomically() {
    let deployer_kp = KeyPair::generate();
    let deployer = Address::from_public_key(&deployer_kp.public);
    let caller_kp = KeyPair::generate();
    let caller = Address::from_public_key(&caller_kp.public);
    let recipient = Address::from_public_key(&KeyPair::generate().public);
    let validator = Address::from_public_key(&KeyPair::generate().public);

    let mut state = ChainState::new(0);
    state.update_account(&deployer, |acc| acc.balance = 1_000_000);
    state.update_account(&caller, |acc| acc.balance = 1_000_000);

    let wasm = program(&[
        Op::Write(b"greeting".to_vec(), b"hello".to_vec()),
        Op::Pay(recipient.to_string(), 500),
        Op::Trap,
    ]);

    let deploy_tx = signed_contract_tx(&deployer_kp, &deployer, TxType::DeployContract, None, 0, wasm, 0, 10_000);
    assert!(run(&mut state, &deploy_tx, &validator, 0, 0).success);

    let call_tx = signed_contract_tx(&caller_kp, &caller, TxType::CallContract, Some(deployer.clone()), 1_000, vec![], 0, 10_000);
    let receipt = run(&mut state, &call_tx, &validator, 1, 0);

    assert!(!receipt.success, "a trapped call must fail");
    assert_eq!(state.contract_storage_read(&deployer, b"greeting"), None, "the storage write before the trap must be rolled back");
    assert!(state.get(&recipient).is_none(), "the transfer before the trap must be rolled back — recipient must not even have an account");
    assert_eq!(
        state.get(&deployer).unwrap().balance,
        990_000,
        "the contract's own balance (1_000_000 minus the 10_000 deploy fee) must be \
         untouched by the trapped call — tx.amount is only credited on success, same as \
         before host imports existed"
    );
    assert_eq!(state.get(&caller).unwrap().balance, 1_000_000 - 10_000);
    assert_eq!(state.get(&caller).unwrap().nonce, 1);
}

#[test]
fn call_contract_input_is_the_transaction_data() {
    let deployer_kp = KeyPair::generate();
    let deployer = Address::from_public_key(&deployer_kp.public);
    let caller_kp = KeyPair::generate();
    let caller = Address::from_public_key(&caller_kp.public);
    let validator = Address::from_public_key(&KeyPair::generate().public);

    let mut state = ChainState::new(0);
    state.update_account(&deployer, |acc| acc.balance = 1_000_000);
    state.update_account(&caller, |acc| acc.balance = 1_000_000);

    let wasm = program(&[Op::Echo(b"in".to_vec())]);
    let deploy_tx = signed_contract_tx(&deployer_kp, &deployer, TxType::DeployContract, None, 0, wasm, 0, 10_000);
    assert!(run(&mut state, &deploy_tx, &validator, 0, 0).success);

    let call_tx = signed_contract_tx(&caller_kp, &caller, TxType::CallContract, Some(deployer.clone()), 0, b"pass-through".to_vec(), 0, 10_000);
    let receipt = run(&mut state, &call_tx, &validator, 1, 0);

    assert!(receipt.success, "expected success, got: {:?}", receipt.error);
    assert_eq!(state.contract_storage_read(&deployer, b"in"), Some(b"pass-through".to_vec()));
}

#[test]
fn create_proposal_rejects_non_staker() {
    let kp = KeyPair::generate();
    let addr = Address::from_public_key(&kp.public);
    let validator = Address::from_public_key(&KeyPair::generate().public);

    let mut state = ChainState::new(0);
    state.update_account(&addr, |acc| acc.balance = 1_000_000);

    let data = encode_proposal(GovernanceParam::FuelPerFeeUnit, 5);
    let tx = signed_governance_tx(&kp, &addr, TxType::CreateProposal, data, 0, 10_000);
    let receipt = run(&mut state, &tx, &validator, 0, 0);

    assert!(!receipt.success);
    assert!(state.proposals.is_empty());
}

#[test]
fn create_proposal_succeeds_for_staker_and_charges_fee() {
    let kp = KeyPair::generate();
    let addr = Address::from_public_key(&kp.public);
    let validator = Address::from_public_key(&KeyPair::generate().public);

    let mut state = ChainState::new(0);
    state.update_account(&addr, |acc| {
        acc.balance = 1_000_000;
        acc.staked = 500_000;
    });

    let data = encode_proposal(GovernanceParam::FuelPerFeeUnit, 5);
    let tx = signed_governance_tx(&kp, &addr, TxType::CreateProposal, data, 0, 10_000);
    let receipt = run(&mut state, &tx, &validator, 100, 0);

    assert!(receipt.success, "expected success, got: {:?}", receipt.error);
    let proposal = state.proposal(0).expect("proposal 0 should exist");
    assert_eq!(proposal.new_value, 5);
    assert_eq!(proposal.created_at_height, 100);
    assert!(!proposal.executed);
    assert_eq!(state.get(&addr).unwrap().balance, 1_000_000 - 10_000);
}

#[test]
fn create_proposal_rejects_zero_min_validator_stake() {
    let kp = KeyPair::generate();
    let addr = Address::from_public_key(&kp.public);
    let validator = Address::from_public_key(&KeyPair::generate().public);

    let mut state = ChainState::new(0);
    state.update_account(&addr, |acc| {
        acc.balance = 1_000_000;
        acc.staked = 500_000;
    });

    let data = encode_proposal(GovernanceParam::MinValidatorStake, 0);
    let tx = signed_governance_tx(&kp, &addr, TxType::CreateProposal, data, 0, 10_000);
    let receipt = run(&mut state, &tx, &validator, 0, 0);

    assert!(!receipt.success);
    assert!(state.proposals.is_empty(), "the chain-stalling proposal must not exist");
    assert_eq!(state.get(&addr).unwrap().balance, 1_000_000 - 10_000);
    assert_eq!(state.get(&addr).unwrap().nonce, 1);
}

#[test]
fn create_proposal_rejects_zero_fuel_per_fee_unit() {
    let kp = KeyPair::generate();
    let addr = Address::from_public_key(&kp.public);
    let validator = Address::from_public_key(&KeyPair::generate().public);

    let mut state = ChainState::new(0);
    state.update_account(&addr, |acc| {
        acc.balance = 1_000_000;
        acc.staked = 500_000;
    });

    let data = encode_proposal(GovernanceParam::FuelPerFeeUnit, 0);
    let tx = signed_governance_tx(&kp, &addr, TxType::CreateProposal, data, 0, 10_000);
    let receipt = run(&mut state, &tx, &validator, 0, 0);

    assert!(!receipt.success);
    assert!(state.proposals.is_empty());
}

#[test]
fn create_proposal_rejects_near_zero_min_validator_stake() {
    let kp = KeyPair::generate();
    let addr = Address::from_public_key(&kp.public);
    let validator = Address::from_public_key(&KeyPair::generate().public);

    let mut state = ChainState::new(0);
    state.update_account(&addr, |acc| {
        acc.balance = 1_000_000;
        acc.staked = 500_000;
    });

    let data = encode_proposal(GovernanceParam::MinValidatorStake, 1);
    let tx = signed_governance_tx(&kp, &addr, TxType::CreateProposal, data, 0, 10_000);
    let receipt = run(&mut state, &tx, &validator, 0, 0);

    assert!(!receipt.success);
    assert!(state.proposals.is_empty());
}

#[test]
fn create_proposal_accepts_min_validator_stake_exactly_at_floor() {
    let kp = KeyPair::generate();
    let addr = Address::from_public_key(&kp.public);
    let validator = Address::from_public_key(&KeyPair::generate().public);

    let floor = MIN_VALIDATOR_STAKE / 100;
    let mut state = ChainState::new(0);
    state.update_account(&addr, |acc| {
        acc.balance = 1_000_000;
        acc.staked = floor;
    });
    let data = encode_proposal(GovernanceParam::MinValidatorStake, floor);
    let tx = signed_governance_tx(&kp, &addr, TxType::CreateProposal, data, 0, 10_000);
    let receipt = run(&mut state, &tx, &validator, 0, 0);

    assert!(receipt.success, "expected success, got: {:?}", receipt.error);
    assert_eq!(state.proposal(0).unwrap().new_value, floor);

    let data2 = encode_proposal(GovernanceParam::MinValidatorStake, floor - 1);
    let tx2 = signed_governance_tx(&kp, &addr, TxType::CreateProposal, data2, 1, 10_000);
    assert!(!run(&mut state, &tx2, &validator, 1, 0).success);
}

#[test]
fn create_proposal_rejects_min_validator_stake_above_every_current_stake() {
    let kp = KeyPair::generate();
    let addr = Address::from_public_key(&kp.public);
    let validator = Address::from_public_key(&KeyPair::generate().public);

    let floor = MIN_VALIDATOR_STAKE / 100;
    let largest_stake = floor + 1_000_000_000;

    let mut state = ChainState::new(0);
    state.update_account(&addr, |acc| {
        acc.balance = 1_000_000;
        acc.staked = largest_stake;
    });

    let data = encode_proposal(
        GovernanceParam::MinValidatorStake,
        largest_stake + 1,
    );
    let tx = signed_governance_tx(&kp, &addr, TxType::CreateProposal, data, 0, 10_000);
    let receipt = run(&mut state, &tx, &validator, 0, 0);

    assert!(!receipt.success, "proposal exceeding every current stake must be rejected");
    assert!(state.proposals.is_empty());
}

#[test]
fn create_proposal_accepts_min_validator_stake_up_to_the_largest_current_stake() {
    let kp = KeyPair::generate();
    let addr = Address::from_public_key(&kp.public);
    let validator = Address::from_public_key(&KeyPair::generate().public);

    let floor = MIN_VALIDATOR_STAKE / 100;
    let largest_stake = floor + 1_000_000_000;

    let mut state = ChainState::new(0);
    state.update_account(&addr, |acc| {
        acc.balance = 1_000_000;
        acc.staked = largest_stake;
    });

    let data =
        encode_proposal(GovernanceParam::MinValidatorStake, largest_stake);
    let tx = signed_governance_tx(&kp, &addr, TxType::CreateProposal, data, 0, 10_000);
    let receipt = run(&mut state, &tx, &validator, 0, 0);

    assert!(receipt.success, "expected success, got: {:?}", receipt.error);
}

#[test]
fn vote_reaching_supermajority_applies_param_change_immediately() {
    let validator = Address::from_public_key(&KeyPair::generate().public);
    let proposer_kp = KeyPair::generate();
    let proposer = Address::from_public_key(&proposer_kp.public);
    let voter_kp = KeyPair::generate();
    let voter = Address::from_public_key(&voter_kp.public);

    let mut state = ChainState::new(0);
    state.update_account(&proposer, |acc| {
        acc.balance = 1_000_000;
        acc.staked = 500_000;
    });
    state.update_account(&voter, |acc| {
        acc.balance = 1_000_000;
        acc.staked = 500_000;
    });

    let data = encode_proposal(GovernanceParam::FuelPerFeeUnit, 99);
    let create_tx =
        signed_governance_tx(&proposer_kp, &proposer, TxType::CreateProposal, data, 0, 10_000);
    assert!(run(&mut state, &create_tx, &validator, 0, 0).success);
    assert_eq!(state.governance_params.fuel_per_fee_unit, DEFAULT_FUEL_PER_FEE_UNIT);

    let self_vote = signed_governance_tx(
        &proposer_kp,
        &proposer,
        TxType::VoteProposal,
        encode_vote(0),
        1,
        10_000,
    );
    assert!(run(&mut state, &self_vote, &validator, 1, 0).success);
    assert!(!state.proposal(0).unwrap().executed);

    let second_vote = signed_governance_tx(
        &voter_kp,
        &voter,
        TxType::VoteProposal,
        encode_vote(0),
        0,
        10_000,
    );
    let receipt = run(&mut state, &second_vote, &validator, 2, 0);

    assert!(receipt.success, "expected success, got: {:?}", receipt.error);
    assert!(state.proposal(0).unwrap().executed);
    assert_eq!(state.governance_params.fuel_per_fee_unit, 99);
}

#[test]
fn vote_rejects_double_voting_from_same_address() {
    let validator = Address::from_public_key(&KeyPair::generate().public);
    let kp = KeyPair::generate();
    let addr = Address::from_public_key(&kp.public);

    let mut state = ChainState::new(0);
    state.update_account(&addr, |acc| {
        acc.balance = 1_000_000;
        acc.staked = 500_000;
    });

    let data = encode_proposal(GovernanceParam::FuelPerFeeUnit, 1);
    let create_tx = signed_governance_tx(&kp, &addr, TxType::CreateProposal, data, 0, 10_000);
    assert!(run(&mut state, &create_tx, &validator, 0, 0).success);

    let vote_tx =
        signed_governance_tx(&kp, &addr, TxType::VoteProposal, encode_vote(0), 1, 10_000);
    assert!(run(&mut state, &vote_tx, &validator, 1, 0).success);

    let repeat_vote_tx =
        signed_governance_tx(&kp, &addr, TxType::VoteProposal, encode_vote(0), 2, 10_000);
    let receipt = run(&mut state, &repeat_vote_tx, &validator, 2, 0);
    assert!(!receipt.success);
}

#[test]
fn quorum_survives_voter_unstaking_after_voting() {
    let validator = Address::from_public_key(&KeyPair::generate().public);
    let attacker_kp = KeyPair::generate();
    let attacker = Address::from_public_key(&attacker_kp.public);
    let honest_kp = KeyPair::generate();
    let honest = Address::from_public_key(&honest_kp.public);
    let tiny_kp = KeyPair::generate();
    let tiny = Address::from_public_key(&tiny_kp.public);

    let mut state = ChainState::new(0);
    state.update_account(&attacker, |acc| {
        acc.balance = 1_000_000;
        acc.staked = 200;
    });
    state.update_account(&honest, |acc| {
        acc.balance = 1_000_000;
        acc.staked = 150;
    });
    state.update_account(&tiny, |acc| acc.balance = 1_000_000);

    let data = encode_proposal(GovernanceParam::FuelPerFeeUnit, 42);
    let create_tx =
        signed_governance_tx(&attacker_kp, &attacker, TxType::CreateProposal, data, 0, 1);
    assert!(run(&mut state, &create_tx, &validator, 0, 0).success);
    assert_eq!(state.proposal(0).unwrap().total_staked_at_creation, 350);
    assert_eq!(quorum_threshold(350), 234);

    let attacker_vote = signed_governance_tx(
        &attacker_kp,
        &attacker,
        TxType::VoteProposal,
        encode_vote(0),
        1,
        1,
    );
    assert!(run(&mut state, &attacker_vote, &validator, 1, 0).success);
    assert!(!state.proposal(0).unwrap().executed);
    assert_eq!(state.proposal(0).unwrap().yes_stake, 200);

    let unstake_tx = signed_unstake_tx(&attacker_kp, &attacker, 200, 2, 1);
    assert!(run(&mut state, &unstake_tx, &validator, 2, 0).success);
    assert_eq!(state.get(&attacker).unwrap().staked, 0);
    assert_eq!(state.total_staked(), 150);
    assert_eq!(quorum_threshold(state.total_staked()), 101);

    state.update_account(&tiny, |acc| acc.staked = 1);
    let tiny_vote = signed_governance_tx(
        &tiny_kp,
        &tiny,
        TxType::VoteProposal,
        encode_vote(0),
        0,
        1,
    );
    let receipt = run(&mut state, &tiny_vote, &validator, 3, 0);
    assert!(receipt.success, "vote tx itself should still succeed: {:?}", receipt.error);
    assert_eq!(state.proposal(0).unwrap().yes_stake, 201);
    assert!(
        !state.proposal(0).unwrap().executed,
        "quorum must stay frozen at proposal creation, not shrink with a voter's later unstake"
    );
    assert_eq!(state.governance_params.fuel_per_fee_unit, DEFAULT_FUEL_PER_FEE_UNIT);
}

#[test]
fn vote_rejects_after_voting_period_expires() {
    let validator = Address::from_public_key(&KeyPair::generate().public);
    let proposer_kp = KeyPair::generate();
    let proposer = Address::from_public_key(&proposer_kp.public);
    let voter_kp = KeyPair::generate();
    let voter = Address::from_public_key(&voter_kp.public);

    let mut state = ChainState::new(0);
    state.update_account(&proposer, |acc| {
        acc.balance = 1_000_000;
        acc.staked = 500_000;
    });
    state.update_account(&voter, |acc| {
        acc.balance = 1_000_000;
        acc.staked = 500_000;
    });

    let data = encode_proposal(GovernanceParam::FuelPerFeeUnit, 1);
    let create_tx = signed_governance_tx(&proposer_kp, &proposer, TxType::CreateProposal, data, 0, 10_000);
    assert!(run(&mut state, &create_tx, &validator, 0, 0).success);

    let expired_height = VOTING_PERIOD_BLOCKS + 1;
    let vote_tx =
        signed_governance_tx(&voter_kp, &voter, TxType::VoteProposal, encode_vote(0), 0, 10_000);
    let receipt = run(&mut state, &vote_tx, &validator, expired_height, 0);
    assert!(!receipt.success);
}

#[test]
fn unstake_moves_to_unbonding_not_balance() {
    let kp = KeyPair::generate();
    let addr = Address::from_public_key(&kp.public);
    let validator = Address::from_public_key(&KeyPair::generate().public);
    let mut state = ChainState::new(0);
    state.update_account(&addr, |acc| {
        acc.balance = 100_000;
        acc.staked = 500_000;
    });

    let tx = signed_unstake_tx(&kp, &addr, 200_000, 0, 10_000);
    let receipt = run(&mut state, &tx, &validator, 1, 0);
    assert!(receipt.success, "{:?}", receipt.error);

    let acc = state.get(&addr).unwrap();
    assert_eq!(acc.staked, 300_000, "active stake should be reduced");
    assert_eq!(acc.unbonding_stake, 200_000, "unstaked amount should be in unbonding");
    assert_eq!(acc.balance, 90_000, "only fee deducted from balance, unbonded not released");
    assert_eq!(acc.unbonding_unlock_height, 1 + UNBONDING_PERIOD);
}

#[test]
fn claim_unbonded_before_period_fails() {
    let kp = KeyPair::generate();
    let addr = Address::from_public_key(&kp.public);
    let validator = Address::from_public_key(&KeyPair::generate().public);
    let mut state = ChainState::new(0);
    state.update_account(&addr, |acc| {
        acc.balance = 100_000;
        acc.staked = 500_000;
    });

    let unstake_tx = signed_unstake_tx(&kp, &addr, 200_000, 0, 10_000);
    run(&mut state, &unstake_tx, &validator, 1, 0);

    let claim_tx = signed_tx_simple(&kp, &addr, TxType::ClaimUnbonded, 1, 10_000);
    let receipt = run(&mut state, &claim_tx, &validator, UNBONDING_PERIOD, 0);
    assert!(!receipt.success, "should fail: unlock height is 1 + UNBONDING_PERIOD");
}

#[test]
fn claim_unbonded_after_period_succeeds() {
    let kp = KeyPair::generate();
    let addr = Address::from_public_key(&kp.public);
    let validator = Address::from_public_key(&KeyPair::generate().public);
    let mut state = ChainState::new(0);
    state.update_account(&addr, |acc| {
        acc.balance = 100_000;
        acc.staked = 500_000;
    });

    let unstake_tx = signed_unstake_tx(&kp, &addr, 200_000, 0, 10_000);
    run(&mut state, &unstake_tx, &validator, 1, 0);

    let unlock = 1 + UNBONDING_PERIOD;
    let claim_tx = signed_tx_simple(&kp, &addr, TxType::ClaimUnbonded, 1, 10_000);
    let receipt = run(&mut state, &claim_tx, &validator, unlock, 0);
    assert!(receipt.success, "{:?}", receipt.error);

    let acc = state.get(&addr).unwrap();
    assert_eq!(acc.unbonding_stake, 0);
    assert_eq!(acc.unbonding_unlock_height, 0);
    assert_eq!(acc.balance, 280_000);
}

#[test]
fn slash_hits_both_staked_and_unbonding() {
    let addr = Address::from_public_key(&KeyPair::generate().public);
    let mut state = ChainState::new(0);
    state.update_account(&addr, |acc| {
        acc.staked = 1_000_000;
        acc.unbonding_stake = 500_000;
    });

    let slashed = state.slash(&addr, 1_000);
    let acc = state.get(&addr).unwrap();
    assert_eq!(acc.staked, 900_000);
    assert_eq!(acc.unbonding_stake, 450_000);
    assert_eq!(slashed, 150_000); // 100k + 50k
}

#[test]
fn double_unbonding_rejected() {
    let kp = KeyPair::generate();
    let addr = Address::from_public_key(&kp.public);
    let validator = Address::from_public_key(&KeyPair::generate().public);
    let mut state = ChainState::new(0);
    state.update_account(&addr, |acc| {
        acc.balance = 200_000;
        acc.staked = 1_000_000;
    });

    let tx1 = signed_unstake_tx(&kp, &addr, 300_000, 0, 10_000);
    assert!(run(&mut state, &tx1, &validator, 1, 0).success);

    let tx2 = signed_unstake_tx(&kp, &addr, 100_000, 1, 10_000);
    let receipt = run(&mut state, &tx2, &validator, 2, 0);
    assert!(!receipt.success, "second unstake while first is unbonding should fail");
}

#[test]
fn unstake_rejects_last_validator_dropping_below_minimum() {
    let kp = KeyPair::generate();
    let addr = Address::from_public_key(&kp.public);
    let validator = Address::from_public_key(&KeyPair::generate().public);
    let min_stake = MIN_VALIDATOR_STAKE;

    let mut state = ChainState::new(0);
    state.update_account(&addr, |acc| {
        acc.balance = 1_000_000;
        acc.staked = min_stake;
    });

    let tx = signed_unstake_tx(&kp, &addr, 1, 0, 10_000);
    let receipt = run(&mut state, &tx, &validator, 1, 0);

    assert!(!receipt.success, "last validator must not be able to unstake below the minimum");
    assert_eq!(state.get(&addr).unwrap().staked, min_stake, "stake must be untouched");
    assert_eq!(state.get(&addr).unwrap().unbonding_stake, 0);
}

#[test]
fn unstake_allows_dropping_below_minimum_when_another_validator_remains() {
    let kp1 = KeyPair::generate();
    let addr1 = Address::from_public_key(&kp1.public);
    let kp2 = KeyPair::generate();
    let addr2 = Address::from_public_key(&kp2.public);
    let validator = Address::from_public_key(&KeyPair::generate().public);
    let min_stake = MIN_VALIDATOR_STAKE;

    let mut state = ChainState::new(0);
    state.update_account(&addr1, |acc| {
        acc.balance = 1_000_000;
        acc.staked = min_stake;
    });
    state.update_account(&addr2, |acc| {
        acc.balance = 1_000_000;
        acc.staked = min_stake;
    });

    let tx = signed_unstake_tx(&kp1, &addr1, min_stake, 0, 10_000);
    let receipt = run(&mut state, &tx, &validator, 1, 0);

    assert!(receipt.success, "expected success, got: {:?}", receipt.error);
    assert_eq!(state.get(&addr1).unwrap().staked, 0);
    assert_eq!(state.get(&addr1).unwrap().unbonding_stake, min_stake);
}

#[test]
fn unstake_allows_partial_reduction_that_stays_above_minimum() {
    let kp = KeyPair::generate();
    let addr = Address::from_public_key(&kp.public);
    let validator = Address::from_public_key(&KeyPair::generate().public);
    let min_stake = MIN_VALIDATOR_STAKE;

    let mut state = ChainState::new(0);
    state.update_account(&addr, |acc| {
        acc.balance = 1_000_000;
        acc.staked = min_stake * 2;
    });

    let tx = signed_unstake_tx(&kp, &addr, min_stake, 0, 10_000);
    let receipt = run(&mut state, &tx, &validator, 1, 0);

    assert!(receipt.success, "expected success, got: {:?}", receipt.error);
    assert_eq!(state.get(&addr).unwrap().staked, min_stake);
}

#[test]
fn unstake_rejects_dropping_self_bond_ratio_below_minimum() {
    let kp = KeyPair::generate();
    let addr = Address::from_public_key(&kp.public);
    let other_validator = Address::from_public_key(&KeyPair::generate().public);
    let validator = Address::from_public_key(&KeyPair::generate().public);
    let min_stake = MIN_VALIDATOR_STAKE;

    let mut state = ChainState::new(0);
    state.update_account(&addr, |acc| {
        acc.balance = 1_000_000;
        acc.staked = 100_000;
    });
    state.update_account(&other_validator, |acc| acc.staked = min_stake);
    state.validator_pools.insert(
        addr.to_string(),
        DelegationPool { total_shares: 900_000, total_delegated_stake: 900_000, commission_bps: DEFAULT_COMMISSION_BPS },
    );

    let tx = signed_unstake_tx(&kp, &addr, 1, 0, 10_000);
    let receipt = run(&mut state, &tx, &validator, 1, 0);

    assert!(!receipt.success, "unstake must be rejected: self-bond ratio would drop below the minimum");
    assert_eq!(state.get(&addr).unwrap().staked, 100_000, "stake must be untouched");
}

#[test]
fn unstake_allows_dropping_self_bond_ratio_when_no_delegators() {
    let kp = KeyPair::generate();
    let addr = Address::from_public_key(&kp.public);
    let other_validator = Address::from_public_key(&KeyPair::generate().public);
    let validator = Address::from_public_key(&KeyPair::generate().public);
    let min_stake = MIN_VALIDATOR_STAKE;

    let mut state = ChainState::new(0);
    state.update_account(&addr, |acc| {
        acc.balance = 1_000_000;
        acc.staked = 100_000;
    });
    state.update_account(&other_validator, |acc| acc.staked = min_stake);

    let tx = signed_unstake_tx(&kp, &addr, 1, 0, 10_000);
    let receipt = run(&mut state, &tx, &validator, 1, 0);

    assert!(receipt.success, "expected success, got: {:?}", receipt.error);
}

#[test]
fn prove_personhood_succeeds_and_sets_verified_status() {
    let kp = KeyPair::generate();
    let addr = Address::from_public_key(&kp.public);
    let validator = Address::from_public_key(&KeyPair::generate().public);
    let authority_kp = KeyPair::generate();

    let mut state = ChainState::new(0);
    state.update_account(&addr, |acc| acc.balance = 1_000_000);
    state.personhood_authorities.push(authority_kp.public.clone());

    let commitment = [1u8; 16];
    let payload = personhood_payload(&authority_kp, commitment, &addr);
    let tx = signed_personhood_tx(&kp, &addr, &payload, 0, 10_000);
    let tx_found = personhood_findings(&payload, &addr);

    let receipt = run_with(&mut state, &tx, &tx_found, &validator, 0, 0);
    assert!(receipt.success, "expected success, got: {:?}", receipt.error);
    assert!(state.has_personhood(&addr));
}

#[test]
fn prove_personhood_succeeds_with_second_of_multiple_authorities() {
    let kp = KeyPair::generate();
    let addr = Address::from_public_key(&kp.public);
    let validator = Address::from_public_key(&KeyPair::generate().public);
    let other_authority_kp = KeyPair::generate();
    let authority_kp = KeyPair::generate();

    let mut state = ChainState::new(0);
    state.update_account(&addr, |acc| acc.balance = 1_000_000);
    state.personhood_authorities.push(other_authority_kp.public.clone());
    state.personhood_authorities.push(authority_kp.public.clone());

    let commitment = [1u8; 16];
    let payload = personhood_payload(&authority_kp, commitment, &addr);
    let tx = signed_personhood_tx(&kp, &addr, &payload, 0, 10_000);
    let tx_found = personhood_findings(&payload, &addr);

    let receipt = run_with(&mut state, &tx, &tx_found, &validator, 0, 0);
    assert!(receipt.success, "signature from any configured authority must be accepted, got: {:?}", receipt.error);
    assert!(state.has_personhood(&addr));
}

#[test]
fn prove_personhood_rejects_when_no_authority_configured() {
    let kp = KeyPair::generate();
    let addr = Address::from_public_key(&kp.public);
    let validator = Address::from_public_key(&KeyPair::generate().public);
    let authority_kp = KeyPair::generate(); // exists, but never registered with the chain

    let mut state = ChainState::new(0); // personhood_authorities left empty
    state.update_account(&addr, |acc| acc.balance = 1_000_000);

    let commitment = [1u8; 16];
    let payload = personhood_payload(&authority_kp, commitment, &addr);
    let tx = signed_personhood_tx(&kp, &addr, &payload, 0, 10_000);
    let tx_found = personhood_findings(&payload, &addr);

    let receipt = run_with(&mut state, &tx, &tx_found, &validator, 0, 0);
    assert!(!receipt.success, "must fail closed with no authority configured");
    assert!(!state.has_personhood(&addr));
}

#[test]
fn prove_personhood_rejects_self_issued_commitment_without_authority_signature() {
    let kp = KeyPair::generate();
    let addr = Address::from_public_key(&kp.public);
    let validator = Address::from_public_key(&KeyPair::generate().public);
    let real_authority_kp = KeyPair::generate();
    let attacker_pretending_to_be_authority = KeyPair::generate();

    let mut state = ChainState::new(0);
    state.update_account(&addr, |acc| acc.balance = 1_000_000);
    state.personhood_authorities.push(real_authority_kp.public.clone());

    let commitment = [1u8; 16];
    let payload = personhood_payload(&attacker_pretending_to_be_authority, commitment, &addr);
    let tx = signed_personhood_tx(&kp, &addr, &payload, 0, 10_000);
    let tx_found = personhood_findings(&payload, &addr);

    let receipt = run_with(&mut state, &tx, &tx_found, &validator, 0, 0);
    assert!(!receipt.success, "self-issued commitment without the real authority's signature must be rejected");
    assert!(!state.has_personhood(&addr));
}

#[test]
fn prove_personhood_rejects_reused_commitment_even_with_a_valid_second_binding() {
    let kp1 = KeyPair::generate();
    let addr1 = Address::from_public_key(&kp1.public);
    let kp2 = KeyPair::generate();
    let addr2 = Address::from_public_key(&kp2.public);
    let validator = Address::from_public_key(&KeyPair::generate().public);
    let authority_kp = KeyPair::generate();

    let mut state = ChainState::new(0);
    state.update_account(&addr1, |acc| acc.balance = 1_000_000);
    state.update_account(&addr2, |acc| acc.balance = 1_000_000);
    state.personhood_authorities.push(authority_kp.public.clone());

    let commitment = [9u8; 16];
    let payload1 = personhood_payload(&authority_kp, commitment, &addr1);
    let payload2 = personhood_payload(&authority_kp, commitment, &addr2);

    let tx1 = signed_personhood_tx(&kp1, &addr1, &payload1, 0, 10_000);
    let tx1_found = personhood_findings(&payload1, &addr1);
    assert!(run_with(&mut state, &tx1, &tx1_found, &validator, 0, 0).success);
    assert!(state.has_personhood(&addr1));

    let tx2 = signed_personhood_tx(&kp2, &addr2, &payload2, 0, 10_000);
    let tx2_found = personhood_findings(&payload2, &addr2);
    let receipt = run_with(&mut state, &tx2, &tx2_found, &validator, 1, 0);

    assert!(!receipt.success, "a commitment claimed once must never be claimed again");
    assert!(!state.has_personhood(&addr2), "reusing a spent commitment must not gain personhood");
    assert!(state.has_personhood(&addr1));
}

#[test]
fn prove_personhood_rejects_front_run_payload_bound_to_another_address() {
    let victim_kp = KeyPair::generate();
    let victim = Address::from_public_key(&victim_kp.public);
    let attacker_kp = KeyPair::generate();
    let attacker = Address::from_public_key(&attacker_kp.public);
    let validator = Address::from_public_key(&KeyPair::generate().public);
    let authority_kp = KeyPair::generate();

    let mut state = ChainState::new(0);
    state.update_account(&victim, |acc| acc.balance = 1_000_000);
    state.update_account(&attacker, |acc| acc.balance = 1_000_000);
    state.personhood_authorities.push(authority_kp.public.clone());

    let commitment = [7u8; 16];
    let victim_payload = personhood_payload(&authority_kp, commitment, &victim);

    let attack_tx = signed_personhood_tx(&attacker_kp, &attacker, &victim_payload, 0, 10_000);
    let attack_tx_found = personhood_findings(&victim_payload, &attacker);
    let attack_receipt = run_with(&mut state, &attack_tx, &attack_tx_found, &validator, 0, 0);
    assert!(!attack_receipt.success, "a payload bound to another address must be rejected");
    assert!(!state.has_personhood(&attacker), "front-runner must not gain personhood");

    let victim_tx = signed_personhood_tx(&victim_kp, &victim, &victim_payload, 0, 10_000);
    let victim_tx_found = personhood_findings(&victim_payload, &victim);
    let victim_receipt = run_with(&mut state, &victim_tx, &victim_tx_found, &validator, 1, 0);
    assert!(victim_receipt.success, "victim's own claim must still succeed, got: {:?}", victim_receipt.error);
    assert!(state.has_personhood(&victim));
}

#[test]
fn submit_double_sign_evidence_slashes_the_validator() {
    let validator_kp = KeyPair::generate();
    let validator_addr = Address::from_public_key(&validator_kp.public);
    let reporter_kp = KeyPair::generate();
    let reporter = Address::from_public_key(&reporter_kp.public);
    let block_validator = Address::from_public_key(&KeyPair::generate().public);

    let mut state = ChainState::new(0);
    state.update_account(&validator_addr, |acc| acc.staked = 1_000_000);
    state.update_account(&reporter, |acc| acc.balance = 1_000_000);

    let vote_a = signed_vote(
        &validator_kp,
        &validator_addr,
        VoteType::Precommit,
        10,
        0,
        Digest::digest(b"block-a"),
    );
    let vote_b = signed_vote(
        &validator_kp,
        &validator_addr,
        VoteType::Precommit,
        10,
        0,
        Digest::digest(b"block-b"),
    );
    let found = evidence_findings(DoubleSignEvidence {
        validator: validator_addr.clone(),
        height: 10,
        round: 0,
        vote_a,
        vote_b,
    });

    let tx = signed_evidence_tx(&reporter_kp, &reporter, 0);
    let receipt = run_with(&mut state, &tx, &found, &block_validator, 0, 0);

    assert!(receipt.success, "expected success, got: {:?}", receipt.error);
    let expected_slash = 1_000_000 * SLASH_FRACTION_BPS / 10_000;
    assert_eq!(state.get(&validator_addr).unwrap().staked, 1_000_000 - expected_slash);
    assert_eq!(state.total_burned, expected_slash);
}

#[test]
fn submit_double_sign_evidence_rejects_duplicate_incident() {
    let validator_kp = KeyPair::generate();
    let validator_addr = Address::from_public_key(&validator_kp.public);
    let reporter_kp = KeyPair::generate();
    let reporter = Address::from_public_key(&reporter_kp.public);
    let block_validator = Address::from_public_key(&KeyPair::generate().public);

    let mut state = ChainState::new(0);
    state.update_account(&validator_addr, |acc| acc.staked = 1_000_000);
    state.update_account(&reporter, |acc| acc.balance = 1_000_000);

    let vote_a = signed_vote(
        &validator_kp,
        &validator_addr,
        VoteType::Precommit,
        10,
        0,
        Digest::digest(b"block-a"),
    );
    let vote_b = signed_vote(
        &validator_kp,
        &validator_addr,
        VoteType::Precommit,
        10,
        0,
        Digest::digest(b"block-b"),
    );
    let found = evidence_findings(DoubleSignEvidence {
        validator: validator_addr.clone(),
        height: 10,
        round: 0,
        vote_a,
        vote_b,
    });

    let tx1 = signed_evidence_tx(&reporter_kp, &reporter, 0);
    assert!(run_with(&mut state, &tx1, &found, &block_validator, 0, 0).success);
    let staked_after_first_slash = state.get(&validator_addr).unwrap().staked;

    let tx2 = signed_evidence_tx(&reporter_kp, &reporter, 1);
    let receipt = run_with(&mut state, &tx2, &found, &block_validator, 1, 0);
    assert!(!receipt.success);
    assert_eq!(state.get(&validator_addr).unwrap().staked, staked_after_first_slash);
}

#[test]
fn submit_double_sign_evidence_rejects_non_conflicting_votes() {
    let validator_kp = KeyPair::generate();
    let validator_addr = Address::from_public_key(&validator_kp.public);
    let reporter_kp = KeyPair::generate();
    let reporter = Address::from_public_key(&reporter_kp.public);
    let block_validator = Address::from_public_key(&KeyPair::generate().public);

    let mut state = ChainState::new(0);
    state.update_account(&validator_addr, |acc| acc.staked = 1_000_000);
    state.update_account(&reporter, |acc| acc.balance = 1_000_000);

    let same_hash = Digest::digest(b"block-a");
    let vote_a = signed_vote(&validator_kp, &validator_addr, VoteType::Precommit, 10, 0, same_hash);
    let vote_b = signed_vote(&validator_kp, &validator_addr, VoteType::Precommit, 10, 0, same_hash);
    let found = evidence_findings(DoubleSignEvidence {
        validator: validator_addr.clone(),
        height: 10,
        round: 0,
        vote_a,
        vote_b,
    });

    let tx = signed_evidence_tx(&reporter_kp, &reporter, 0);
    let receipt = run_with(&mut state, &tx, &found, &block_validator, 0, 0);
    assert!(!receipt.success);
    assert_eq!(state.get(&validator_addr).unwrap().staked, 1_000_000);
}

#[test]
fn submit_double_sign_evidence_rejects_forged_vote_signature() {
    let validator_kp = KeyPair::generate();
    let validator_addr = Address::from_public_key(&validator_kp.public);
    let attacker_kp = KeyPair::generate(); // does NOT hold validator_kp's key
    let reporter = Address::from_public_key(&attacker_kp.public);
    let block_validator = Address::from_public_key(&KeyPair::generate().public);

    let mut state = ChainState::new(0);
    state.update_account(&validator_addr, |acc| acc.staked = 1_000_000);
    state.update_account(&reporter, |acc| acc.balance = 1_000_000);

    let vote_a = signed_vote(
        &validator_kp,
        &validator_addr,
        VoteType::Precommit,
        10,
        0,
        Digest::digest(b"block-a"),
    );
    let mut vote_b = signed_vote(
        &attacker_kp,
        &validator_addr, // claimed validator (doesn't match attacker_kp's real address)
        VoteType::Precommit,
        10,
        0,
        Digest::digest(b"block-b"),
    );
    vote_b.public_key = validator_kp.public.clone(); // impersonate the pubkey too
    let found = evidence_findings(DoubleSignEvidence {
        validator: validator_addr.clone(),
        height: 10,
        round: 0,
        vote_a,
        vote_b,
    });

    let tx = signed_evidence_tx(&attacker_kp, &reporter, 0);
    let receipt = run_with(&mut state, &tx, &found, &block_validator, 0, 0);
    assert!(!receipt.success, "forged vote signature must be rejected");
    assert_eq!(state.get(&validator_addr).unwrap().staked, 1_000_000);
}

#[test]
fn execute_block_mints_the_scheduled_block_reward_to_the_validator() {
    let validator = Address::from_public_key(&KeyPair::generate().public);
    let mut state = ChainState::new(TOTAL_SUPPLY_HLX * NANO_PER_HLX);

    let block = empty_block(&validator, 1);
    let receipt = execute_block(&mut state, &block, &vec![], None);

    let expected = scheduled_block_reward(1);
    assert_eq!(receipt.block_reward_minted, expected);
    assert_eq!(state.get(&validator).unwrap().balance, expected);
    assert_eq!(state.total_issued, expected);
}

#[test]
fn execute_block_mints_to_reward_address_override_not_the_block_validator() {
    let validator = Address::from_public_key(&KeyPair::generate().public);
    let reward_addr = Address::from_public_key(&KeyPair::generate().public);
    let mut state = ChainState::new(TOTAL_SUPPLY_HLX * NANO_PER_HLX);

    let block = empty_block(&validator, 1);
    execute_block(&mut state, &block, &vec![], Some(&reward_addr));

    assert!(state.get(&validator).is_none(), "reward must not land on the block validator when an override is set");
    assert!(state.get(&reward_addr).unwrap().balance > 0);
}

#[test]
fn execute_block_never_mints_past_the_total_supply_cap() {
    let validator = Address::from_public_key(&KeyPair::generate().public);
    let cap = TOTAL_SUPPLY_HLX * NANO_PER_HLX;
    let mut state = ChainState::new(cap);
    let sliver = 100u64;
    state.total_issued = cap - sliver;

    let block = empty_block(&validator, 1);
    let receipt = execute_block(&mut state, &block, &vec![], None);

    assert_eq!(receipt.block_reward_minted, sliver, "must clamp to remaining headroom, not mint the full schedule");
    assert_eq!(state.total_issued, cap);
    assert_eq!(state.mintable_headroom(), 0);

    let block2 = empty_block(&validator, 2);
    let receipt2 = execute_block(&mut state, &block2, &vec![], None);
    assert_eq!(receipt2.block_reward_minted, 0);
    assert_eq!(state.total_issued, cap);
}

#[test]
fn execute_block_reward_decays_across_halving_eras() {
    let validator = Address::from_public_key(&KeyPair::generate().public);
    let mut state = ChainState::new(TOTAL_SUPPLY_HLX * NANO_PER_HLX);

    let first_era_block = empty_block(&validator, 1);
    let r1 = execute_block(&mut state, &first_era_block, &vec![], None).block_reward_minted;

    let second_era_block = empty_block(&validator, HALVING_INTERVAL_BLOCKS);
    let r2 = execute_block(&mut state, &second_era_block, &vec![], None).block_reward_minted;

    assert_eq!(r1, INITIAL_BLOCK_REWARD_HLX * NANO_PER_HLX);
    assert_eq!(r2, r1 / 2, "reward must halve once height crosses a halving interval boundary");
}

#[test]
fn delegate_rejects_target_that_never_self_staked() {
    let delegator_kp = KeyPair::generate();
    let delegator = Address::from_public_key(&delegator_kp.public);
    let target = Address::from_public_key(&KeyPair::generate().public);
    let validator = Address::from_public_key(&KeyPair::generate().public);

    let mut state = ChainState::new(0);
    state.update_account(&delegator, |acc| acc.balance = 1_000_000_000);

    let tx = signed_tx(&delegator_kp, &delegator, TxType::Delegate, Some(target), 500_000_000, vec![], 0, 10_000);
    let receipt = run(&mut state, &tx, &validator, 0, 0);

    assert!(!receipt.success);
    assert!(state.validator_pools.is_empty());
}

#[test]
fn delegate_mints_shares_1to1_for_a_fresh_pool() {
    let delegator_kp = KeyPair::generate();
    let delegator = Address::from_public_key(&delegator_kp.public);
    let target_kp = KeyPair::generate();
    let target = Address::from_public_key(&target_kp.public);
    let validator = Address::from_public_key(&KeyPair::generate().public);

    let mut state = ChainState::new(0);
    state.update_account(&delegator, |acc| acc.balance = 1_000_000_000);
    state.update_account(&target, |acc| acc.staked = 100_000 * 1_000_000_000);

    let tx = signed_tx(&delegator_kp, &delegator, TxType::Delegate, Some(target.clone()), 500_000_000, vec![], 0, 10_000);
    let receipt = run(&mut state, &tx, &validator, 0, 0);

    assert!(receipt.success, "{:?}", receipt);
    let pool = state.validator_pools.get(&target.to_string()).unwrap();
    assert_eq!(pool.total_shares, 500_000_000);
    assert_eq!(pool.total_delegated_stake, 500_000_000);
    assert_eq!(pool.commission_bps, DEFAULT_COMMISSION_BPS);
    assert_eq!(
        state.delegator_shares.get(&target.to_string()).unwrap().get(&delegator.to_string()).copied(),
        Some(500_000_000)
    );
    assert_eq!(state.effective_stake(&target), 100_000 * 1_000_000_000 + 500_000_000);
}

#[test]
fn delegate_second_delegator_gets_fewer_shares_after_pool_appreciates() {
    let d1_kp = KeyPair::generate();
    let d1 = Address::from_public_key(&d1_kp.public);
    let d2_kp = KeyPair::generate();
    let d2 = Address::from_public_key(&d2_kp.public);
    let target = Address::from_public_key(&KeyPair::generate().public);
    let validator = Address::from_public_key(&KeyPair::generate().public);

    let mut state = ChainState::new(0);
    state.update_account(&d1, |acc| acc.balance = 1_000_000_000_000);
    state.update_account(&d2, |acc| acc.balance = 1_000_000_000_000);
    state.update_account(&target, |acc| acc.staked = 100_000 * 1_000_000_000);

    let tx1 = signed_tx(&d1_kp, &d1, TxType::Delegate, Some(target.clone()), 1_000_000_000, vec![], 0, 10_000);
    assert!(run(&mut state, &tx1, &validator, 0, 0).success);

    set_pool_value(&mut state, &target, 10_000_000_000);

    let tx2 = signed_tx(&d2_kp, &d2, TxType::Delegate, Some(target.clone()), 1_000_000_000, vec![], 0, 10_000);
    assert!(run(&mut state, &tx2, &validator, 0, 0).success);

    let d2_shares = *state.delegator_shares.get(&target.to_string()).unwrap().get(&d2.to_string()).unwrap();
    assert_eq!(d2_shares, 100_000_000, "buying into an appreciated pool must mint proportionally fewer shares");
}

#[test]
fn delegate_rejects_amount_too_small_to_mint_a_share() {
    let d1_kp = KeyPair::generate();
    let d1 = Address::from_public_key(&d1_kp.public);
    let victim_kp = KeyPair::generate();
    let victim = Address::from_public_key(&victim_kp.public);
    let target = Address::from_public_key(&KeyPair::generate().public);
    let validator = Address::from_public_key(&KeyPair::generate().public);

    let mut state = ChainState::new(0);
    state.update_account(&d1, |acc| acc.balance = 1_000_000_000_000);
    state.update_account(&victim, |acc| acc.balance = 1_000_000_000_000);
    state.update_account(&target, |acc| acc.staked = 100_000 * 1_000_000_000);

    let tx1 = signed_tx(&d1_kp, &d1, TxType::Delegate, Some(target.clone()), 1_000_000_000, vec![], 0, 10_000);
    assert!(run(&mut state, &tx1, &validator, 0, 0).success);
    set_pool_value(&mut state, &target, 10_000_000_000);

    let victim_balance_before = state.get(&victim).unwrap().balance;
    let tx2 = signed_tx(&victim_kp, &victim, TxType::Delegate, Some(target.clone()), 5, vec![], 0, 10_000);
    let receipt = run(&mut state, &tx2, &validator, 0, 0);

    assert!(!receipt.success, "a delegation that would mint zero shares must be rejected");
    assert_eq!(
        state.get(&victim).unwrap().balance,
        victim_balance_before - 10_000,
        "only the fee may leave — the delegated amount must not be absorbed"
    );
    assert_eq!(state.get(&victim).unwrap().nonce, 1, "a charged failure consumes its nonce");
    let pool = state.validator_pools.get(&target.to_string()).unwrap();
    assert_eq!(pool.total_delegated_stake, 10_000_000_000, "pool value must be untouched");
    assert_eq!(pool.total_shares, 1_000_000_000, "pool shares must be untouched");
    assert!(
        state.delegator_shares.get(&target.to_string()).and_then(|m| m.get(&victim.to_string())).is_none(),
        "no zero-share position may be recorded for the victim"
    );
}

#[test]
fn transfer_without_recipient_is_rejected_without_destroying_the_amount() {
    let kp = KeyPair::generate();
    let addr = Address::from_public_key(&kp.public);
    let validator = Address::from_public_key(&KeyPair::generate().public);

    let mut state = ChainState::new(0);
    state.update_account(&addr, |acc| acc.balance = 1_000_000);

    let tx = signed_tx(&kp, &addr, TxType::Transfer, None, 100_000, vec![], 0, 10_000);
    let receipt = run(&mut state, &tx, &validator, 0, 0);

    assert!(!receipt.success, "a recipient-less transfer must be rejected");
    assert_eq!(
        state.get(&addr).unwrap().balance,
        1_000_000 - 10_000,
        "only the fee may leave — the 100_000 must not be destroyed"
    );
    assert_eq!(state.get(&addr).unwrap().nonce, 1, "a charged failure consumes its nonce");
}

#[test]
fn a_failed_transaction_pays_its_fee_and_cannot_be_replayed() {
    let kp = KeyPair::generate();
    let addr = Address::from_public_key(&kp.public);
    let recipient = Address::from_public_key(&KeyPair::generate().public);
    let validator = Address::from_public_key(&KeyPair::generate().public);

    let mut state = ChainState::new(0);
    state.update_account(&addr, |acc| acc.balance = 50_000);

    let tx = signed_tx(&kp, &addr, TxType::Transfer, Some(recipient.clone()), 1_000_000, vec![], 0, 10_000);
    let receipt = run(&mut state, &tx, &validator, 0, 0);

    assert!(!receipt.success, "the transfer is unaffordable and must fail");
    assert_eq!(state.get(&addr).unwrap().balance, 40_000, "the fee must be charged");
    assert_eq!(state.get(&addr).unwrap().nonce, 1, "the nonce must be consumed");
    assert_eq!(receipt.fee_to_validator, 10_000, "the receipt must report where the fee went");
    assert_eq!(state.get(&validator).unwrap().balance, 10_000, "the validator must be paid for the work");
    assert!(state.get(&recipient).is_none(), "the recipient must receive nothing");

    let again = run(&mut state, &tx, &validator, 0, 0);
    assert!(!again.success);
    assert!(again.error.unwrap().contains("nonce mismatch"), "a replay must be refused on nonce");
    assert_eq!(state.get(&addr).unwrap().balance, 40_000, "a refused replay must not charge twice");
}

#[test]
fn a_sender_who_cannot_cover_the_fee_is_not_charged_and_keeps_its_nonce() {
    let kp = KeyPair::generate();
    let addr = Address::from_public_key(&kp.public);
    let validator = Address::from_public_key(&KeyPair::generate().public);

    let mut state = ChainState::new(0);
    let tx = signed_tx(&kp, &addr, TxType::Transfer, Some(validator.clone()), 1_000, vec![], 0, 10_000);
    let receipt = run(&mut state, &tx, &validator, 0, 0);

    assert!(!receipt.success);
    assert!(receipt.error.unwrap().contains("cannot pay the fee"));
    assert_eq!(receipt.fee_burned, 0);
    assert_eq!(receipt.fee_to_validator, 0);
    assert_eq!(state.get_or_default(&addr).balance, 0);
    assert_eq!(state.get_or_default(&addr).nonce, 0);
}

#[test]
fn stake_zero_amount_is_rejected() {
    let kp = KeyPair::generate();
    let addr = Address::from_public_key(&kp.public);
    let validator = Address::from_public_key(&KeyPair::generate().public);

    let mut state = ChainState::new(0);
    state.update_account(&addr, |acc| acc.balance = 1_000_000);

    let tx = signed_tx(&kp, &addr, TxType::Stake, None, 0, vec![], 0, 10_000);
    let receipt = run(&mut state, &tx, &validator, 0, 0);

    assert!(!receipt.success, "a zero-amount stake must be rejected");
    assert_eq!(state.get(&addr).unwrap().staked, 0, "nothing may be staked");
    assert_eq!(
        state.get(&addr).unwrap().balance,
        1_000_000 - 10_000,
        "the fee is still charged: the transaction was payable and took a block slot"
    );
}

#[test]
fn delegate_rejects_when_it_would_breach_self_bond_ratio() {
    let delegator_kp = KeyPair::generate();
    let delegator = Address::from_public_key(&delegator_kp.public);
    let target = Address::from_public_key(&KeyPair::generate().public);
    let validator = Address::from_public_key(&KeyPair::generate().public);

    let mut state = ChainState::new(0);
    state.update_account(&delegator, |acc| acc.balance = 1_000_000_000);
    state.update_account(&target, |acc| acc.staked = 100_000);
    state.validator_pools.insert(
        target.to_string(),
        DelegationPool { total_shares: 900_000, total_delegated_stake: 900_000, commission_bps: DEFAULT_COMMISSION_BPS },
    );

    let tx = signed_tx(&delegator_kp, &delegator, TxType::Delegate, Some(target.clone()), 1, vec![], 0, 10_000);
    let receipt = run(&mut state, &tx, &validator, 0, 0);

    assert!(!receipt.success, "delegation must be rejected: would push self-bond ratio below the minimum");
    assert_eq!(state.validator_pools.get(&target.to_string()).unwrap().total_delegated_stake, 900_000, "pool must be untouched");
}

#[test]
fn delegate_allows_up_to_exactly_the_self_bond_ratio_floor() {
    let delegator_kp = KeyPair::generate();
    let delegator = Address::from_public_key(&delegator_kp.public);
    let target = Address::from_public_key(&KeyPair::generate().public);
    let validator = Address::from_public_key(&KeyPair::generate().public);

    let mut state = ChainState::new(0);
    state.update_account(&delegator, |acc| acc.balance = 1_000_000_000);
    state.update_account(&target, |acc| acc.staked = 100_000);

    let tx = signed_tx(&delegator_kp, &delegator, TxType::Delegate, Some(target.clone()), 900_000, vec![], 0, 10_000);
    let receipt = run(&mut state, &tx, &validator, 0, 0);

    assert!(receipt.success, "expected success, got: {:?}", receipt.error);
    assert_eq!(state.validator_pools.get(&target.to_string()).unwrap().total_delegated_stake, 900_000);
}

#[test]
fn delegate_does_not_count_the_targets_unbonding_stake_as_self_bond() {
    let delegator_kp = KeyPair::generate();
    let delegator = Address::from_public_key(&delegator_kp.public);
    let target = Address::from_public_key(&KeyPair::generate().public);
    let validator = Address::from_public_key(&KeyPair::generate().public);

    let mut state = ChainState::new(0);
    state.update_account(&delegator, |acc| acc.balance = 1_000_000_000);
    state.update_account(&target, |acc| {
        acc.staked = 100_000;
        acc.unbonding_stake = 100_000;
        acc.unbonding_unlock_height = UNBONDING_PERIOD;
    });
    state.validator_pools.insert(
        target.to_string(),
        DelegationPool { total_shares: 900_000, total_delegated_stake: 900_000, commission_bps: DEFAULT_COMMISSION_BPS },
    );

    let tx = signed_tx(&delegator_kp, &delegator, TxType::Delegate, Some(target.clone()), 100_000, vec![], 0, 10_000);
    let receipt = run(&mut state, &tx, &validator, 0, 0);

    assert!(!receipt.success, "unbonding stake must not count toward the self-bond ratio");
    assert_eq!(state.validator_pools.get(&target.to_string()).unwrap().total_delegated_stake, 900_000, "pool must be untouched");
}

#[test]
fn unstake_ratio_check_never_sees_an_active_unbonding_queue() {
    let kp = KeyPair::generate();
    let staker = Address::from_public_key(&kp.public);
    let validator = Address::from_public_key(&KeyPair::generate().public);

    let mut state = ChainState::new(0);
    state.update_account(&staker, |acc| {
        acc.balance = 1_000_000_000;
        acc.staked = 500_000;
        acc.unbonding_stake = 100_000;
        acc.unbonding_unlock_height = UNBONDING_PERIOD;
    });

    let tx = signed_tx(&kp, &staker, TxType::Unstake, None, 50_000, vec![], 0, 10_000);
    let receipt = run(&mut state, &tx, &validator, 0, 0);

    assert!(!receipt.success, "a second unstake while unbonding must be rejected");
    assert!(
        receipt.error.as_deref().unwrap_or_default().contains("unbonding is already in progress"),
        "expected the single-slot unbonding rejection, got: {:?}",
        receipt.error
    );
    assert_eq!(state.get(&staker).unwrap().staked, 500_000, "stake must be untouched");
}

#[test]
fn undelegate_redeems_value_and_moves_to_own_unbonding_queue() {
    let delegator_kp = KeyPair::generate();
    let delegator = Address::from_public_key(&delegator_kp.public);
    let target = Address::from_public_key(&KeyPair::generate().public);
    let validator = Address::from_public_key(&KeyPair::generate().public);

    let mut state = ChainState::new(0);
    state.update_account(&delegator, |acc| acc.balance = 1_000_000_000);
    state.update_account(&target, |acc| acc.staked = 100_000 * 1_000_000_000);

    let delegate_tx = signed_tx(&delegator_kp, &delegator, TxType::Delegate, Some(target.clone()), 500_000_000, vec![], 0, 10_000);
    assert!(run(&mut state, &delegate_tx, &validator, 0, 0).success);

    let undelegate_tx = signed_tx(&delegator_kp, &delegator, TxType::Undelegate, Some(target.clone()), 200_000_000, vec![], 1, 10_000);
    let receipt = run(&mut state, &undelegate_tx, &validator, 10, 0);
    assert!(receipt.success, "{:?}", receipt);

    let acc = state.get(&delegator).unwrap();
    assert_eq!(acc.unbonding_stake, 200_000_000);
    assert_eq!(acc.unbonding_unlock_height, 10 + UNBONDING_PERIOD);

    let pool = state.validator_pools.get(&target.to_string()).unwrap();
    assert_eq!(pool.total_delegated_stake, 300_000_000);
    let remaining_shares = *state.delegator_shares.get(&target.to_string()).unwrap().get(&delegator.to_string()).unwrap();
    assert_eq!(remaining_shares, 300_000_000);
}

#[test]
fn undelegate_rejects_amount_above_owned_value() {
    let delegator_kp = KeyPair::generate();
    let delegator = Address::from_public_key(&delegator_kp.public);
    let target = Address::from_public_key(&KeyPair::generate().public);
    let validator = Address::from_public_key(&KeyPair::generate().public);

    let mut state = ChainState::new(0);
    state.update_account(&delegator, |acc| acc.balance = 1_000_000_000);
    state.update_account(&target, |acc| acc.staked = 100_000 * 1_000_000_000);

    let delegate_tx = signed_tx(&delegator_kp, &delegator, TxType::Delegate, Some(target.clone()), 500_000_000, vec![], 0, 10_000);
    assert!(run(&mut state, &delegate_tx, &validator, 0, 0).success);

    let undelegate_tx = signed_tx(&delegator_kp, &delegator, TxType::Undelegate, Some(target.clone()), 999_999_999, vec![], 1, 10_000);
    let receipt = run(&mut state, &undelegate_tx, &validator, 10, 0);
    assert!(!receipt.success);
}

#[test]
fn undelegate_rejects_while_unbonding_already_in_progress() {
    let delegator_kp = KeyPair::generate();
    let delegator = Address::from_public_key(&delegator_kp.public);
    let target = Address::from_public_key(&KeyPair::generate().public);
    let validator = Address::from_public_key(&KeyPair::generate().public);

    let mut state = ChainState::new(0);
    state.update_account(&delegator, |acc| acc.balance = 1_000_000_000);
    state.update_account(&target, |acc| acc.staked = 100_000 * 1_000_000_000);

    let delegate_tx = signed_tx(&delegator_kp, &delegator, TxType::Delegate, Some(target.clone()), 500_000_000, vec![], 0, 10_000);
    assert!(run(&mut state, &delegate_tx, &validator, 0, 0).success);

    let u1 = signed_tx(&delegator_kp, &delegator, TxType::Undelegate, Some(target.clone()), 100_000_000, vec![], 1, 10_000);
    assert!(run(&mut state, &u1, &validator, 10, 0).success);

    let u2 = signed_tx(&delegator_kp, &delegator, TxType::Undelegate, Some(target.clone()), 100_000_000, vec![], 2, 10_000);
    let receipt = run(&mut state, &u2, &validator, 11, 0);
    assert!(!receipt.success, "a second concurrent unbonding must be rejected, same as self-unstake");
}

#[test]
fn set_commission_rejects_above_max() {
    let kp = KeyPair::generate();
    let from = Address::from_public_key(&kp.public);
    let validator = Address::from_public_key(&KeyPair::generate().public);

    let mut state = ChainState::new(0);
    state.update_account(&from, |acc| acc.balance = 1_000_000);

    let over_max = MAX_COMMISSION_BPS + 1;
    let tx = signed_tx(&kp, &from, TxType::SetCommission, None, 0, over_max.to_le_bytes().to_vec(), 0, 10_000);
    let receipt = run(&mut state, &tx, &validator, 0, 0);
    assert!(!receipt.success);
}

#[test]
fn set_commission_applies_before_any_delegation_and_is_read_back() {
    let kp = KeyPair::generate();
    let from = Address::from_public_key(&kp.public);
    let validator = Address::from_public_key(&KeyPair::generate().public);

    let mut state = ChainState::new(0);
    state.update_account(&from, |acc| acc.balance = 1_000_000);

    let tx = signed_tx(&kp, &from, TxType::SetCommission, None, 0, 2_500u16.to_le_bytes().to_vec(), 0, 10_000);
    assert!(run(&mut state, &tx, &validator, 0, 0).success);

    let delegator_kp = KeyPair::generate();
    let delegator = Address::from_public_key(&delegator_kp.public);
    state.update_account(&delegator, |acc| acc.balance = 1_000_000_000);
    state.update_account(&from, |acc| acc.staked += 100_000 * 1_000_000_000);

    let delegate_tx = signed_tx(&delegator_kp, &delegator, TxType::Delegate, Some(from.clone()), 500_000_000, vec![], 0, 10_000);
    assert!(run(&mut state, &delegate_tx, &validator, 0, 0).success);

    assert_eq!(state.validator_pools.get(&from.to_string()).unwrap().commission_bps, 2_500);
}

#[test]
fn credit_validator_reward_splits_by_stake_ratio_and_commission() {
    let target_kp = KeyPair::generate();
    let target = Address::from_public_key(&target_kp.public);
    let delegator_kp = KeyPair::generate();
    let delegator = Address::from_public_key(&delegator_kp.public);

    let fee_validator = Address::from_public_key(&KeyPair::generate().public);
    let mut state = ChainState::new(TOTAL_SUPPLY_HLX * NANO_PER_HLX);
    state.update_account(&target, |acc| acc.staked = 100 * 1_000_000_000);
    state.update_account(&delegator, |acc| acc.balance = 1_000_000_000_000);
    let delegate_tx = signed_tx(&delegator_kp, &delegator, TxType::Delegate, Some(target.clone()), 300 * 1_000_000_000, vec![], 0, 10_000);
    assert!(run(&mut state, &delegate_tx, &fee_validator, 0, 0).success);
    let pool_before = state.validator_pools.get(&target.to_string()).unwrap().total_delegated_stake;
    let validator_balance_before = state.get(&target).unwrap().balance;

    credit_validator_reward(&mut state, &target, 1_000_000_000);

    let self_share = 250_000_000u64; // 25% of 1e9
    let delegated_share = 750_000_000u64; // 75%
    let commission = delegated_share / 10; // 10% default commission
    let pool_gain = delegated_share - commission;

    assert_eq!(
        state.get(&target).unwrap().balance,
        validator_balance_before + self_share + commission
    );
    assert_eq!(
        state.validator_pools.get(&target.to_string()).unwrap().total_delegated_stake,
        pool_before + pool_gain
    );
}

#[test]
fn credit_validator_reward_is_unchanged_when_no_pool_exists() {
    let validator = Address::from_public_key(&KeyPair::generate().public);
    let mut state = ChainState::new(TOTAL_SUPPLY_HLX * NANO_PER_HLX);
    state.update_account(&validator, |acc| acc.staked = 100_000 * 1_000_000_000);

    credit_validator_reward(&mut state, &validator, 1_000_000_000);

    assert_eq!(state.get(&validator).unwrap().balance, 1_000_000_000, "100% must go to the validator when it has no delegators");
}

#[test]
fn slash_reduces_delegation_pool_proportionally() {
    let target_kp = KeyPair::generate();
    let target = Address::from_public_key(&target_kp.public);
    let delegator_kp = KeyPair::generate();
    let delegator = Address::from_public_key(&delegator_kp.public);

    let fee_validator = Address::from_public_key(&KeyPair::generate().public);
    let mut state = ChainState::new(0);
    state.update_account(&target, |acc| acc.staked = 100_000 * 1_000_000_000);
    state.update_account(&delegator, |acc| acc.balance = 1_000_000_000_000);
    let delegate_tx = signed_tx(&delegator_kp, &delegator, TxType::Delegate, Some(target.clone()), 100_000_000_000, vec![], 0, 10_000);
    assert!(run(&mut state, &delegate_tx, &fee_validator, 0, 0).success);

    let shares_before = *state.delegator_shares.get(&target.to_string()).unwrap().get(&delegator.to_string()).unwrap();

    state.slash(&target, 500); // 5%, same fraction as real double-sign slashing

    let pool = state.validator_pools.get(&target.to_string()).unwrap();
    assert_eq!(pool.total_delegated_stake, 95_000_000_000, "pool value must drop by exactly 5%");
    let shares_after = *state.delegator_shares.get(&target.to_string()).unwrap().get(&delegator.to_string()).unwrap();
    assert_eq!(shares_after, shares_before, "shares outstanding must not change — only the pool's value per share does");
    assert_eq!(state.get(&target).unwrap().staked, 100_000 * 1_000_000_000 * 95 / 100);
}

#[test]
fn undelegating_before_the_slash_lands_does_not_escape_it() {
    let target = Address::from_public_key(&KeyPair::generate().public);
    let delegator_kp = KeyPair::generate();
    let delegator = Address::from_public_key(&delegator_kp.public);
    let fee_validator = Address::from_public_key(&KeyPair::generate().public);

    let mut state = ChainState::new(0);
    state.update_account(&target, |acc| acc.staked = 100_000 * 1_000_000_000);
    state.update_account(&delegator, |acc| acc.balance = 1_000_000_000_000);

    let delegate_tx = signed_tx(&delegator_kp, &delegator, TxType::Delegate, Some(target.clone()), 100_000_000_000, vec![], 0, 10_000);
    assert!(run(&mut state, &delegate_tx, &fee_validator, 0, 0).success);

    let undelegate_tx = signed_tx(&delegator_kp, &delegator, TxType::Undelegate, Some(target.clone()), 100_000_000_000, vec![], 1, 10_000);
    assert!(run(&mut state, &undelegate_tx, &fee_validator, 0, 0).success);
    assert_eq!(
        state.get(&delegator).unwrap().unbonding_source.as_deref(),
        Some(target.to_string().as_str()),
        "the unbonding must remember the pool it came out of"
    );

    let burned = state.slash(&target, 500);

    assert_eq!(
        state.get(&delegator).unwrap().unbonding_stake,
        95_000_000_000,
        "the escaped delegation must still take the full 5% slash"
    );
    assert_eq!(
        burned,
        5_000_000_000 + 100_000 * 1_000_000_000 * 5 / 100,
        "burn must cover the delegator's 5% plus the validator's own 5%"
    );
}

#[test]
fn slash_does_not_reach_stake_unbonding_out_of_a_different_validators_pool() {
    let slashed_kp = KeyPair::generate();
    let slashed = Address::from_public_key(&slashed_kp.public);
    let other = Address::from_public_key(&KeyPair::generate().public);
    let fee_validator = Address::from_public_key(&KeyPair::generate().public);

    let mut state = ChainState::new(0);
    state.update_account(&other, |acc| acc.staked = 100_000 * 1_000_000_000);
    state.update_account(&slashed, |acc| {
        acc.staked = 100_000 * 1_000_000_000;
        acc.balance = 1_000_000_000_000;
    });

    let delegate_tx = signed_tx(&slashed_kp, &slashed, TxType::Delegate, Some(other.clone()), 100_000_000_000, vec![], 0, 10_000);
    assert!(run(&mut state, &delegate_tx, &fee_validator, 0, 0).success);
    let undelegate_tx = signed_tx(&slashed_kp, &slashed, TxType::Undelegate, Some(other.clone()), 100_000_000_000, vec![], 1, 10_000);
    assert!(run(&mut state, &undelegate_tx, &fee_validator, 0, 0).success);

    state.slash(&slashed, 500);

    assert_eq!(
        state.get(&slashed).unwrap().unbonding_stake,
        100_000_000_000,
        "capital unbonding out of another validator's pool must not be slashed here"
    );
    assert_eq!(
        state.get(&slashed).unwrap().staked,
        100_000 * 1_000_000_000 * 95 / 100,
        "its own self-bond must still take the 5%"
    );
}

#[test]
fn claiming_unbonded_delegation_clears_its_source_validator() {
    let delegator_kp = KeyPair::generate();
    let delegator = Address::from_public_key(&delegator_kp.public);
    let target = Address::from_public_key(&KeyPair::generate().public);
    let fee_validator = Address::from_public_key(&KeyPair::generate().public);

    let mut state = ChainState::new(0);
    state.update_account(&target, |acc| acc.staked = 100_000 * 1_000_000_000);
    state.update_account(&delegator, |acc| acc.balance = 1_000_000_000_000);

    let delegate_tx = signed_tx(&delegator_kp, &delegator, TxType::Delegate, Some(target.clone()), 100_000_000_000, vec![], 0, 10_000);
    assert!(run(&mut state, &delegate_tx, &fee_validator, 0, 0).success);
    let undelegate_tx = signed_tx(&delegator_kp, &delegator, TxType::Undelegate, Some(target.clone()), 100_000_000_000, vec![], 1, 10_000);
    assert!(run(&mut state, &undelegate_tx, &fee_validator, 0, 0).success);

    let claim_tx = signed_tx(&delegator_kp, &delegator, TxType::ClaimUnbonded, None, 0, vec![], 2, 10_000);
    let receipt = run(&mut state, &claim_tx, &fee_validator, UNBONDING_PERIOD, 0);
    assert!(receipt.success, "expected success, got: {:?}", receipt.error);

    let acc = state.get(&delegator).unwrap();
    assert_eq!(acc.unbonding_stake, 0);
    assert_eq!(acc.unbonding_source, None, "an empty queue must not still name a validator");

    let balance_before = acc.balance;
    state.slash(&target, 500);
    assert_eq!(
        state.get(&delegator).unwrap().balance,
        balance_before,
        "claimed funds are out of reach of the source validator's slash"
    );
}

fn redelegation_fixture(amount: u64) -> (Address, Address, KeyPair, Address, Address, ChainState) {
    let src = Address::from_public_key(&KeyPair::generate().public);
    let dst = Address::from_public_key(&KeyPair::generate().public);
    let delegator_kp = KeyPair::generate();
    let delegator = Address::from_public_key(&delegator_kp.public);
    let fee_validator = Address::from_public_key(&KeyPair::generate().public);

    let mut state = ChainState::new(0);
    state.update_account(&src, |acc| acc.staked = 100_000 * 1_000_000_000);
    state.update_account(&dst, |acc| acc.staked = 100_000 * 1_000_000_000);
    state.update_account(&delegator, |acc| acc.balance = 1_000_000_000_000);

    let delegate_tx = signed_tx(&delegator_kp, &delegator, TxType::Delegate, Some(src.clone()), amount, vec![], 0, 10_000);
    assert!(run(&mut state, &delegate_tx, &fee_validator, 0, 0).success);

    (src, dst, delegator_kp, delegator, fee_validator, state)
}

fn redelegate_tx(kp: &KeyPair, from: &Address, src: &Address, dst: &Address, amount: u64, nonce: u64) -> Transaction {
    signed_tx(kp, from, TxType::Redelegate, Some(dst.clone()), amount, src.to_string().into_bytes(), nonce, 10_000)
}

#[test]
fn redelegate_moves_stake_between_pools_without_unbonding() {
    let amount = 100_000_000_000;
    let (src, dst, kp, delegator, fee_validator, mut state) = redelegation_fixture(amount);

    let tx = redelegate_tx(&kp, &delegator, &src, &dst, amount, 1);
    let receipt = run(&mut state, &tx, &fee_validator, 0, 0);
    assert!(receipt.success, "expected success, got: {:?}", receipt.error);

    assert_eq!(state.validator_pools.get(&src.to_string()).unwrap().total_delegated_stake, 0, "source pool must be drained");
    assert_eq!(state.validator_pools.get(&dst.to_string()).unwrap().total_delegated_stake, amount, "destination pool must hold it");
    assert_eq!(
        state.get(&delegator).unwrap().unbonding_stake,
        0,
        "redelegation must not route through the unbonding queue at all"
    );
    assert!(
        state.delegator_shares.get(&dst.to_string()).unwrap().contains_key(&delegator.to_string()),
        "delegator must hold shares in the destination pool"
    );
}

#[test]
fn redelegating_before_the_slash_lands_does_not_escape_it() {
    let amount = 100_000_000_000;
    let (src, dst, kp, delegator, fee_validator, mut state) = redelegation_fixture(amount);

    let tx = redelegate_tx(&kp, &delegator, &src, &dst, amount, 1);
    assert!(run(&mut state, &tx, &fee_validator, 0, 0).success);

    state.slash(&src, 500);

    let shares = *state.delegator_shares.get(&dst.to_string()).unwrap().get(&delegator.to_string()).unwrap();
    let dst_pool = state.validator_pools.get(&dst.to_string()).unwrap();
    let my_value = (shares as u128 * dst_pool.total_delegated_stake as u128 / dst_pool.total_shares as u128) as u64;
    assert_eq!(my_value, amount * 95 / 100, "the redelegated stake must still take src's 5% slash");
}

#[test]
fn slashing_a_redelegation_source_spares_the_destinations_other_delegators() {
    let amount = 100_000_000_000;
    let (src, dst, kp, delegator, fee_validator, mut state) = redelegation_fixture(amount);

    let bystander_kp = KeyPair::generate();
    let bystander = Address::from_public_key(&bystander_kp.public);
    state.update_account(&bystander, |acc| acc.balance = 1_000_000_000_000);
    let bystander_delegate = signed_tx(&bystander_kp, &bystander, TxType::Delegate, Some(dst.clone()), amount, vec![], 0, 10_000);
    assert!(run(&mut state, &bystander_delegate, &fee_validator, 0, 0).success);

    let tx = redelegate_tx(&kp, &delegator, &src, &dst, amount, 1);
    assert!(run(&mut state, &tx, &fee_validator, 0, 0).success);

    state.slash(&src, 500);

    let pool = state.validator_pools.get(&dst.to_string()).unwrap();
    let value_of = |addr: &Address| {
        let shares = *state.delegator_shares.get(&dst.to_string()).unwrap().get(&addr.to_string()).unwrap();
        (shares as u128 * pool.total_delegated_stake as u128 / pool.total_shares as u128) as u64
    };
    assert_eq!(value_of(&bystander), amount, "the bystander never backed src and must lose nothing");
    assert_eq!(value_of(&delegator), amount * 95 / 100, "the redelegator takes the full loss");
}

#[test]
fn slashing_the_redelegation_destination_does_not_reach_the_source() {
    let amount = 100_000_000_000;
    let (src, dst, kp, delegator, fee_validator, mut state) = redelegation_fixture(amount);

    let tx = redelegate_tx(&kp, &delegator, &src, &dst, amount, 1);
    assert!(run(&mut state, &tx, &fee_validator, 0, 0).success);

    state.slash(&dst, 500);

    assert_eq!(
        state.validator_pools.get(&dst.to_string()).unwrap().total_delegated_stake,
        amount * 95 / 100,
        "dst's own pool slash applies normally to stake now backing it"
    );
    assert_eq!(
        state.redelegations.get(&src.to_string()).unwrap().entries[0].amount,
        amount,
        "src's outstanding claim is unaffected by dst's misbehavior"
    );
}

#[test]
fn redelegate_rejects_hopping_while_a_window_is_still_open() {
    let amount = 100_000_000_000;
    let (src, dst, kp, delegator, fee_validator, mut state) = redelegation_fixture(amount);
    let third = Address::from_public_key(&KeyPair::generate().public);
    state.update_account(&third, |acc| acc.staked = 100_000 * 1_000_000_000);

    let hop1 = redelegate_tx(&kp, &delegator, &src, &dst, amount, 1);
    assert!(run(&mut state, &hop1, &fee_validator, 0, 0).success);

    let hop2 = redelegate_tx(&kp, &delegator, &dst, &third, amount, 2);
    let receipt = run(&mut state, &hop2, &fee_validator, 0, 0);
    assert!(!receipt.success, "A->B->C hopping inside the window must be rejected");
    assert!(
        receipt.error.as_deref().unwrap_or_default().contains("still inside a redelegation window"),
        "expected the hop rejection, got: {:?}",
        receipt.error
    );
}

#[test]
fn redelegate_is_allowed_again_once_the_window_has_expired() {
    let amount = 100_000_000_000;
    let (src, dst, kp, delegator, fee_validator, mut state) = redelegation_fixture(amount);
    let third = Address::from_public_key(&KeyPair::generate().public);
    state.update_account(&third, |acc| acc.staked = 100_000 * 1_000_000_000);

    let hop1 = redelegate_tx(&kp, &delegator, &src, &dst, amount, 1);
    assert!(run(&mut state, &hop1, &fee_validator, 0, 0).success);

    state.prune_expired_redelegations(UNBONDING_PERIOD);
    assert!(state.redelegations.is_empty(), "the expired entry must be pruned");

    let hop2 = redelegate_tx(&kp, &delegator, &dst, &third, amount, 2);
    let receipt = run(&mut state, &hop2, &fee_validator, UNBONDING_PERIOD, 0);
    assert!(receipt.success, "expected success once the window closed, got: {:?}", receipt.error);
}

#[test]
fn pruned_redelegation_is_beyond_the_sources_reach() {
    let amount = 100_000_000_000;
    let (src, dst, kp, delegator, fee_validator, mut state) = redelegation_fixture(amount);

    let tx = redelegate_tx(&kp, &delegator, &src, &dst, amount, 1);
    assert!(run(&mut state, &tx, &fee_validator, 0, 0).success);
    state.prune_expired_redelegations(UNBONDING_PERIOD);

    state.slash(&src, 500);

    assert_eq!(
        state.validator_pools.get(&dst.to_string()).unwrap().total_delegated_stake,
        amount,
        "once the window closes, src's slash can no longer reach the moved stake"
    );
}

#[test]
fn redelegate_rejects_same_source_and_destination() {
    let amount = 100_000_000_000;
    let (src, _dst, kp, delegator, fee_validator, mut state) = redelegation_fixture(amount);

    let tx = redelegate_tx(&kp, &delegator, &src, &src, amount, 1);
    let receipt = run(&mut state, &tx, &fee_validator, 0, 0);
    assert!(!receipt.success, "redelegating to the same validator must be rejected");
}

#[test]
fn redelegate_rejects_amount_above_owned_value() {
    let amount = 100_000_000_000;
    let (src, dst, kp, delegator, fee_validator, mut state) = redelegation_fixture(amount);

    let tx = redelegate_tx(&kp, &delegator, &src, &dst, amount * 2, 1);
    let receipt = run(&mut state, &tx, &fee_validator, 0, 0);
    assert!(!receipt.success, "cannot redelegate more than is delegated");
    assert!(state.redelegations.is_empty(), "a rejected redelegation must leave no claim behind");
}

#[test]
fn redelegate_rejects_destination_that_never_self_staked() {
    let amount = 100_000_000_000;
    let (src, _dst, kp, delegator, fee_validator, mut state) = redelegation_fixture(amount);
    let stranger = Address::from_public_key(&KeyPair::generate().public);

    let tx = redelegate_tx(&kp, &delegator, &src, &stranger, amount, 1);
    let receipt = run(&mut state, &tx, &fee_validator, 0, 0);
    assert!(!receipt.success, "destination must be a real validator identity");
}

#[test]
fn redelegate_rejects_breaching_the_destinations_self_bond_ratio() {
    let amount = 100_000_000_000;
    let (src, dst, kp, delegator, fee_validator, mut state) = redelegation_fixture(amount);
    state.update_account(&dst, |acc| acc.staked = 1_000_000);

    let tx = redelegate_tx(&kp, &delegator, &src, &dst, amount, 1);
    let receipt = run(&mut state, &tx, &fee_validator, 0, 0);
    assert!(!receipt.success, "destination's self-bond ratio must gate redelegation in too");
    assert_eq!(
        state.validator_pools.get(&src.to_string()).unwrap().total_delegated_stake,
        amount,
        "a rejected redelegation must leave the source pool untouched"
    );
}

#[test]
fn stakers_counts_delegated_stake_toward_validator_set_eligibility() {
    let target_kp = KeyPair::generate();
    let target = Address::from_public_key(&target_kp.public);
    let delegator_kp = KeyPair::generate();
    let delegator = Address::from_public_key(&delegator_kp.public);

    let fee_validator = Address::from_public_key(&KeyPair::generate().public);
    let mut state = ChainState::new(0);
    state.governance_params.min_validator_stake = 100_000 * 1_000_000_000;
    state.update_account(&target, |acc| acc.staked = 15_000 * 1_000_000_000);
    state.update_account(&delegator, |acc| acc.balance = 200_000 * 1_000_000_000_000);

    assert!(state.stakers().is_empty(), "self-stake alone is below the minimum");

    let delegate_tx = signed_tx(
        &delegator_kp, &delegator, TxType::Delegate, Some(target.clone()),
        90_000 * 1_000_000_000, vec![], 0, 10_000,
    );
    assert!(run(&mut state, &delegate_tx, &fee_validator, 0, 0).success);

    let stakers = state.stakers();
    assert_eq!(stakers.len(), 1, "effective (self + delegated) stake now clears the minimum");
    assert_eq!(stakers[0].0, target);
}
