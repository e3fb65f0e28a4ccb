use helix::crypto::{Address, CryptoScheme, Digest, KeyPair, PublicKey, Signature};
use helix::executor::account::{DelegationPool, Redelegation, RedelegationList, MIN_JAIL_BLOCKS};
use helix::executor::block::{
    block_has_room, close_block, execute_block, execute_block_with_room, BlockRun,
};
use helix::executor::contracts::{
    commit_has_room, saturating_product, ContractHostContext, TransferOutcome,
};
use helix::executor::delegation::{delegate_has_room, redelegate_has_room};
use helix::executor::engine::{
    can_pay_fee, execute_transaction, transaction_has_room, verify_tx_signature, ExecutionError,
};
use helix::executor::fees::distribute_fee;
use helix::executor::governance::{encode_proposal, encode_vote, GovernanceParam};
use helix::executor::payments::cost_has_room;
use helix::executor::receipt::Receipt;
use helix::executor::state::{unset_chain_id, ChainState, QUORUM_LIMIT};
use helix::executor::votes::{vote_has_room, SLASH_FRACTION_BPS};
use helix::identity::recovery::{GuardianSet, MAX_GUARDIANS};
use helix::mempool::{Mempool, MempoolError};
use helix::table::{KeySet, Table};
use helix::transaction::{Block, BlockHeader, ContractCommitData, Findings, Transaction, TxType};

struct Actor {
    kp: KeyPair,
    addr: Address,
}

fn actor(seed: u8) -> Actor {
    let kp = KeyPair::from_mldsa_seed(&[seed; 32]).unwrap();
    let addr = Address::from_public_key(&kp.public);
    Actor { kp, addr }
}

fn sign(tx: &mut Transaction, kp: &KeyPair) {
    let mut b = format!("{:?}{:?}", tx.tx_type, tx.to).into_bytes();
    b.extend_from_slice(tx.from.as_str().as_bytes());
    for n in [tx.amount, tx.fee, tx.nonce] {
        b.extend_from_slice(&n.to_le_bytes());
    }
    b.extend_from_slice(&tx.data);
    b.extend_from_slice(tx.chain_id.as_bytes());
    tx.signing_hash = Digest::digest(&b);
    tx.signature = kp.sign(tx.signing_hash.as_bytes()).unwrap();
    b.extend_from_slice(tx.signature.as_bytes());
    tx.hash = Digest::digest(&b);
    tx.size_bytes = b.len() as u64;
}

fn tx(
    a: &Actor,
    tx_type: TxType,
    to: Option<&Address>,
    amount: u64,
    data: Vec<u8>,
    nonce: u64,
    fee: u64,
) -> Transaction {
    let mut t = Transaction {
        version: 1,
        tx_type,
        from: a.addr.clone(),
        to: to.cloned(),
        amount,
        fee,
        nonce,
        data,
        crypto_version: a.kp.scheme,
        chain_id: unset_chain_id(),
        signature: Signature::from_bytes(vec![]),
        public_key: a.kp.public.clone(),
        hash: Digest::zero(),
        signing_hash: Digest::zero(),
        size_bytes: 0,
    };
    sign(&mut t, &a.kp);
    t
}

fn run(state: &mut ChainState, t: &Transaction, validator: &Address) -> Receipt {
    execute_transaction(state, t, &Findings::none(), validator, 10, 0)
}

fn rich(list: &[&Actor]) -> ChainState {
    let mut s = ChainState::new(1_000_000_000);
    s.total_issued = 100_000_000;
    for a in list {
        s.update_account(&a.addr, |acc| acc.balance = 1_000_000);
    }
    s
}

fn block(validator: &Address, height: u64, transactions: Vec<Transaction>) -> Block {
    Block {
        header: BlockHeader {
            version: 1,
            height,
            timestamp: 0,
            prev_hash: Digest::zero(),
            merkle_root: Digest::zero(),
            validator: validator.clone(),
            public_key: PublicKey::from_bytes(vec![]),
            crypto_version: CryptoScheme::MlDsa,
            base_fee_per_byte: 0,
            signature: Signature::from_bytes(vec![]),
            last_commit: vec![],
            ends_epoch: false,
        },
        transactions,
        hash: Digest::digest(b"block"),
    }
}

#[test]
fn what_cannot_be_taken_into_a_block_changes_nothing() {
    let (a, b, v) = (actor(1), actor(2), actor(3));
    let mut s = rich(&[&a, &b]);
    let before = s.state_hash();

    let mut foreign = tx(&a, TxType::Transfer, Some(&b.addr), 5, vec![], 0, 10);
    foreign.chain_id = Digest::digest(b"elsewhere");
    sign(&mut foreign, &a.kp);
    let r = run(&mut s, &foreign, &v.addr);
    assert_eq!(r.error.as_deref(), Some("transaction is signed for a different chain"));
    assert_eq!((r.success, r.fee_burned, r.fee_to_validator), (false, 0, 0));

    let mut forged = tx(&a, TxType::Transfer, Some(&b.addr), 5, vec![], 0, 10);
    forged.amount = 500_000;
    forged.signing_hash = Digest::digest(b"something else");
    let r = run(&mut s, &forged, &v.addr);
    assert_eq!(r.error.as_deref(), Some("invalid signature"));
    assert!(!verify_tx_signature(&s, &forged));

    let mut stolen = tx(&a, TxType::Transfer, Some(&b.addr), 5, vec![], 0, 10);
    stolen.public_key = b.kp.public.clone();
    sign(&mut stolen, &b.kp);
    assert_eq!(run(&mut s, &stolen, &v.addr).error.as_deref(), Some("invalid signature"));

    let early = tx(&a, TxType::Transfer, Some(&b.addr), 5, vec![], 3, 10);
    let r = run(&mut s, &early, &v.addr);
    assert_eq!(r.error.as_deref(), Some("nonce mismatch: expected 0, got 3"));

    let poor = tx(&v, TxType::Transfer, Some(&b.addr), 5, vec![], 0, 10);
    let r = run(&mut s, &poor, &v.addr);
    assert_eq!(r.error.as_deref(), Some("cannot pay the fee: needs 10, has 0"));
    assert!(!can_pay_fee(&s, &poor));
    assert!(can_pay_fee(&s, &early));

    assert_eq!(s.state_hash(), before);
}

#[test]
fn a_transfer_works_once() {
    let (a, b, v) = (actor(1), actor(2), actor(3));
    let mut s = rich(&[&a, &b]);
    let t = tx(&a, TxType::Transfer, Some(&b.addr), 5_000, vec![], 0, 10);
    assert!(run(&mut s, &t, &v.addr).success);
    assert_eq!(s.get(&a.addr).unwrap().balance, 994_990);
    assert_eq!(s.get(&b.addr).unwrap().balance, 1_005_000);
    assert_eq!(s.get(&v.addr).unwrap().balance, 10);
    assert_eq!(s.get(&a.addr).unwrap().nonce, 1);
    assert_eq!(s.get(&b.addr).unwrap().nonce, 0);
    let after = s.state_hash();
    assert!(!run(&mut s, &t, &v.addr).success);
    assert_eq!(s.state_hash(), after);
}

#[test]
fn a_name_stays_with_its_owner() {
    let (a, b, v) = (actor(1), actor(2), actor(3));
    let mut s = rich(&[&a, &b]);
    assert!(run(&mut s, &tx(&a, TxType::RegisterName, None, 0, b"alice".to_vec(), 0, 1), &v.addr).success);
    let r = run(&mut s, &tx(&b, TxType::RegisterName, None, 0, b"alice.hlx".to_vec(), 0, 1), &v.addr);
    assert_eq!(r.error.as_deref(), Some("name already registered"));
    assert_eq!(s.resolve_name("alice"), Some(a.addr.as_str()));
    let r = run(&mut s, &tx(&b, TxType::RegisterName, None, 0, vec![0xFF], 1, 1), &v.addr);
    assert_eq!(r.error.as_deref(), Some("name payload is not valid UTF-8"));
}

#[test]
fn the_fee_is_split_between_the_burn_and_the_validator() {
    let v = actor(3);
    let mut s = ChainState::new(0);
    assert_eq!(distribute_fee(&mut s, &v.addr, 100, 30), (30, 70));
    assert_eq!(s.get(&v.addr).unwrap().balance, 70);
    assert_eq!(distribute_fee(&mut s, &v.addr, 100, 130), (100, 0));
    assert_eq!(s.get(&v.addr).unwrap().balance, 70);
}

#[test]
fn a_bystander_loses_nothing_to_others_rounding() {
    let (a, b, v, val) = (actor(1), actor(2), actor(3), actor(4));
    let mut s = rich(&[&a, &b]);
    s.update_account(&val.addr, |acc| acc.staked = 1_000_000);
    assert!(run(&mut s, &tx(&a, TxType::Delegate, Some(&val.addr), 10, vec![], 0, 0), &v.addr).success);
    // Three shares for every ten units, so that nothing divides evenly.
    s.validator_pools.insert(
        val.addr.to_string(),
        DelegationPool { total_shares: 10, total_delegated_stake: 33, commission_bps: 0 },
    );
    let before = s.delegation_value(&val.addr, &a.addr).unwrap();
    assert_eq!(before, 33);
    assert!(run(&mut s, &tx(&b, TxType::Delegate, Some(&val.addr), 7, vec![], 0, 0), &v.addr).success);
    // 7 * 10 / 33 rounds down to two shares.
    assert_eq!(s.validator_pools.get(&val.addr.to_string()).unwrap().total_shares, 12);
    assert!(s.delegation_value(&val.addr, &a.addr).unwrap() >= before);
    assert_eq!(s.delegation_value(&val.addr, &b.addr), Some(6));
    assert!(run(&mut s, &tx(&b, TxType::Undelegate, Some(&val.addr), 4, vec![], 1, 0), &v.addr).success);
    // 4 * 12 / 40 rounds up to two shares.
    assert_eq!(s.delegation_value(&val.addr, &b.addr), None);
    assert_eq!(s.delegation_value(&val.addr, &a.addr), Some(36));
    assert_eq!(s.get(&b.addr).unwrap().unbonding_stake, 4);
}

#[test]
fn a_deposit_beyond_64_bits_of_shares_has_no_room() {
    let (a, v, val) = (actor(1), actor(3), actor(4));
    let mut s = rich(&[&a]);
    s.update_account(&val.addr, |acc| acc.staked = 1_000_000);
    s.validator_pools.insert(
        val.addr.to_string(),
        DelegationPool { total_shares: u64::MAX, total_delegated_stake: 1, commission_bps: 0 },
    );
    let t = tx(&a, TxType::Delegate, Some(&val.addr), 1, vec![], 0, 0);
    assert!(!s.deposit_has_room(&val.addr, 1));
    assert!(!transaction_has_room(&s, &t, &Findings::none(), 10));
    assert!(s.deposit_has_room(&v.addr, 1));
    let t = tx(&a, TxType::Transfer, Some(&val.addr), 1, vec![], 0, 0);
    assert!(transaction_has_room(&s, &t, &Findings::none(), 10));
    assert!(transaction_has_room(&s, &t, &Findings::none(), u64::MAX));
    let t = tx(&a, TxType::Unstake, None, 1, vec![], 0, 0);
    assert!(transaction_has_room(&s, &t, &Findings::none(), 10));
    assert!(!transaction_has_room(&s, &t, &Findings::none(), u64::MAX));
}

#[test]
fn only_arithmetic_that_is_done_needs_room() {
    let (a, v, val) = (actor(1), actor(3), actor(4));
    let mut s = rich(&[&a]);
    s.update_account(&val.addr, |acc| acc.staked = 1_000_000);
    s.validator_pools.insert(
        val.addr.to_string(),
        DelegationPool { total_shares: 5, total_delegated_stake: 5, commission_bps: 0 },
    );
    // More than the sender has: refused before any shares are counted.
    let t = tx(&a, TxType::Delegate, Some(&val.addr), u64::MAX, vec![], 0, 0);
    assert!(!s.deposit_has_room(&val.addr, u64::MAX));
    assert!(delegate_has_room(&s, &t));
    assert!(transaction_has_room(&s, &t, &Findings::none(), 10));
    assert!(!run(&mut s, &t, &v.addr).success);
    // Nothing held at the source, so nothing that could be moved.
    let data = v.addr.as_str().as_bytes().to_vec();
    let t = tx(&a, TxType::Redelegate, Some(&val.addr), u64::MAX, data, 1, 0);
    assert!(redelegate_has_room(&s, &t));
    assert!(transaction_has_room(&s, &t, &Findings::none(), 10));
    // A nonce that is not the sender's is no obstacle, however large.
    let t = tx(&a, TxType::Transfer, Some(&v.addr), 1, vec![], u64::MAX, 0);
    assert!(transaction_has_room(&s, &t, &Findings::none(), 10));
    s.update_account(&a.addr, |acc| acc.nonce = u64::MAX);
    assert!(!transaction_has_room(&s, &t, &Findings::none(), 10));
}

#[test]
fn a_cost_that_is_no_number_needs_a_sender_without_it() {
    let (a, v) = (actor(1), actor(3));
    let mut s = rich(&[&a]);
    let t = tx(&a, TxType::Transfer, Some(&v.addr), u64::MAX, vec![], 0, 1);
    assert!(cost_has_room(&s, &t));
    s.update_account(&a.addr, |acc| acc.balance = u64::MAX);
    assert!(!cost_has_room(&s, &t));
    assert!(cost_has_room(&s, &tx(&a, TxType::Transfer, Some(&v.addr), u64::MAX, vec![], 0, 0)));
}

#[test]
fn a_vote_needs_a_quorum_that_is_a_number() {
    let (a, v) = (actor(1), actor(3));
    let mut s = rich(&[&a]);
    s.update_account(&a.addr, |acc| acc.staked = 1_000);
    let data = encode_proposal(GovernanceParam::FuelPerFeeUnit, 7);
    assert!(run(&mut s, &tx(&a, TxType::CreateProposal, None, 0, data, 0, 0), &v.addr).success);
    let vote = tx(&a, TxType::VoteProposal, None, 0, encode_vote(0), 1, 0);
    assert!(vote_has_room(&s, &vote, 10));
    let mut p = s.proposal(0).unwrap().clone();
    assert_eq!(p.total_staked_at_creation, 1_000);
    p.total_staked_at_creation = QUORUM_LIMIT + 1;
    s.set_proposal(p);
    assert!(!vote_has_room(&s, &vote, 10));
    assert!(!transaction_has_room(&s, &vote, &Findings::none(), 10));
    let other = tx(&a, TxType::VoteProposal, None, 0, encode_vote(1), 1, 0);
    assert!(vote_has_room(&s, &other, 10));
}

/// A block that pays a contract and then has it pay out of what it was paid.
fn funding_block(paid: u64) -> (ChainState, Block, Vec<Findings>) {
    let (a, c, d, v) = (actor(1), actor(2), actor(3), actor(4));
    let mut s = rich(&[&a]);
    s.update_account(&c.addr, |acc| acc.code = Some(vec![1]));
    let fund = tx(&a, TxType::Transfer, Some(&c.addr), 500, vec![], 0, 10);
    let call = tx(&a, TxType::CallContract, Some(&c.addr), 0, vec![], 1, 10);
    let mut found = Findings::none();
    found.call = Ok(ContractCommitData {
        contract: c.addr.clone(),
        storage_writes: Table::new(),
        transfers: vec![(d.addr.clone(), paid)],
        return_data: vec![],
    });
    let blk = block(&v.addr, 5, vec![fund, call]);
    (s, blk, vec![Findings::none(), found])
}

#[test]
fn a_contract_can_spend_what_its_block_brought_it() {
    let (mut s, blk, found) = funding_block(400);
    assert!(block_has_room(&s, &blk, &found, None));
    let mut twin = s.clone();
    assert_eq!(twin.state_hash(), s.state_hash());
    let r = execute_block(&mut s, &blk, &found, None);
    assert_eq!((r.successful_txs(), r.failed_txs()), (2, 0));
    assert_eq!(r.validator_reward, 20);
    assert_eq!(s.get(&actor(2).addr).unwrap().balance, 100);
    assert_eq!(s.get(&actor(3).addr).unwrap().balance, 400);
    assert_ne!(twin.state_hash(), s.state_hash());
    let again = execute_block_with_room(&mut twin, &blk, &found, None).unwrap();
    assert_eq!(again.block_reward_minted, r.block_reward_minted);
    assert_eq!(twin.state_hash(), s.state_hash());
}

#[test]
fn a_block_without_room_changes_nothing() {
    let (mut s, blk, found) = funding_block(501);
    assert!(!block_has_room(&s, &blk, &found, None));
    let before = s.state_hash();
    assert!(execute_block_with_room(&mut s, &blk, &found, None).is_none());
    assert_eq!(s.state_hash(), before);
    assert!(execute_block_with_room(&mut s, &blk, &vec![Findings::none()], None).is_none());
    let (a, v) = (actor(1), actor(4));
    let dear = |n| tx(&a, TxType::Transfer, Some(&v.addr), 1, vec![], n, u64::MAX);
    let blk = block(&v.addr, 5, vec![dear(0), dear(1)]);
    let found = vec![Findings::none(), Findings::none()];
    assert!(execute_block_with_room(&mut s, &blk, &found, None).is_none());
    assert_eq!(s.state_hash(), before);
}

#[test]
fn a_state_out_of_bounds_is_noticed() {
    let (a, b, val) = (actor(1), actor(2), actor(4));
    let good = || {
        let mut s = rich(&[&a, &b]);
        s.update_account(&val.addr, |acc| acc.staked = 10);
        s.validator_pools.insert(
            val.addr.to_string(),
            DelegationPool { total_shares: 7, total_delegated_stake: 5, commission_bps: 10_000 },
        );
        let mut positions: Table<String, u64> = Table::new();
        positions.insert(a.addr.to_string(), 3);
        positions.insert(b.addr.to_string(), 4);
        s.delegator_shares.insert(val.addr.to_string(), positions);
        s.active_validators.insert(val.addr.clone());
        s
    };
    assert!(good().is_well_formed());
    assert!(good().closing_has_room(5));
    assert_eq!(good().total_value(), Some(2_000_015));

    let mut s = good();
    s.update_account(&a.addr, |acc| acc.unbonding_stake = u64::MAX);
    assert_eq!(s.total_value(), None);
    assert!(!s.is_well_formed());

    let mut s = good();
    s.update_account(&a.addr, |acc| acc.address = "elsewhere".to_string());
    assert!(!s.is_well_formed());

    let mut s = good();
    let mut pool = *s.validator_pools.get(&val.addr.to_string()).unwrap();
    pool.total_shares = 6;
    s.validator_pools.insert(val.addr.to_string(), pool);
    assert!(!s.is_well_formed());
    pool.total_shares = 7;
    pool.commission_bps = 10_001;
    s.validator_pools.insert(val.addr.to_string(), pool);
    assert!(!s.is_well_formed());
    s.validator_pools.remove(&val.addr.to_string());
    assert!(!s.is_well_formed());

    let mut s = good();
    s.guardians.insert(
        a.addr.to_string(),
        GuardianSet { guardians: vec![b.addr.clone(); MAX_GUARDIANS + 1] },
    );
    assert!(!s.is_well_formed());

    let mut s = good();
    s.update_account(&a.addr, |acc| acc.staked = 100);
    let data = encode_proposal(GovernanceParam::FuelPerFeeUnit, 7);
    assert!(run(&mut s, &tx(&a, TxType::CreateProposal, None, 0, data, 0, 0), &b.addr).success);
    assert!(s.is_well_formed());
    let mut p = s.proposal(0).unwrap().clone();
    p.created_at_height = u64::MAX;
    s.set_proposal(p);
    assert!(!s.is_well_formed());
}

#[test]
fn closing_a_block_needs_room_for_its_numbers() {
    let val = actor(4);
    let mut s = rich(&[]);
    s.update_account(&val.addr, |acc| acc.staked = QUORUM_LIMIT);
    s.active_validators.insert(val.addr.clone());
    assert!(s.closing_has_room(5));
    assert!(!s.closing_has_room(u64::MAX));
    s.missed_blocks.insert(val.addr.to_string(), u32::MAX - 1);
    assert!(s.closing_has_room(5));
    s.missed_blocks.insert(val.addr.to_string(), u32::MAX);
    assert!(!s.closing_has_room(5));
    s.missed_blocks.remove(&val.addr.to_string());
    s.update_account(&val.addr, |acc| acc.staked = QUORUM_LIMIT + 1);
    assert!(!s.closing_has_room(5));
    s.active_validators.remove(&val.addr);
    assert!(s.closing_has_room(5));
    // Nine hundred million are left to mint.
    s.update_account(&val.addr, |acc| acc.staked = u64::MAX - 900_000_000);
    assert!(s.closing_has_room(5));
    s.update_account(&val.addr, |acc| acc.balance = 1);
    assert!(!s.closing_has_room(5));
    s.total_issued = s.total_supply;
    assert!(s.closing_has_room(5));
}

#[test]
fn a_slash_that_cannot_be_booked_has_no_room() {
    let (a, val) = (actor(1), actor(4));
    let mut s = rich(&[&a]);
    s.update_account(&val.addr, |acc| acc.staked = 1_000);
    s.total_burned = u64::MAX - 50;
    assert!(s.slash_has_room(&val.addr, 500));
    assert!(!s.slash_has_room(&val.addr, 510));
    assert!(s.slash_has_room(&actor(9).addr, 10_000));
    assert_eq!(s.get(&val.addr).unwrap().staked, 1_000);
}

#[test]
fn a_slash_burns_what_stake_loses() {
    let (a, b, val) = (actor(1), actor(2), actor(4));
    let mut s = rich(&[&a, &val]);
    s.update_account(&val.addr, |acc| {
        acc.staked = 1_999;
        acc.nonce = 7;
    });
    s.update_account(&a.addr, |acc| {
        acc.unbonding_stake = 333;
        acc.unbonding_source = Some(val.addr.to_string());
    });
    s.validator_pools.insert(
        val.addr.to_string(),
        DelegationPool { total_shares: 1_000, total_delegated_stake: 1_000, commission_bps: 70 },
    );
    assert_eq!(s.slash(&val.addr, 500), 99 + 16 + 50);
    assert_eq!(s.total_burned, 165);
    let left = s.get(&val.addr).unwrap();
    assert_eq!((left.staked, left.balance, left.nonce), (1_900, 1_000_000, 7));
    assert_eq!(s.get(&a.addr).unwrap().unbonding_stake, 317);
    let pool = s.validator_pools.get(&val.addr.to_string()).unwrap();
    assert_eq!((pool.total_delegated_stake, pool.commission_bps), (950, 70));
    let before = s.state_hash();
    assert_eq!(s.slash(&b.addr, 10_000), 0);
    assert_eq!(s.state_hash(), before);
    // Only what is taken has to be booked.
    s.total_burned = u64::MAX - 157;
    assert_eq!(s.slash(&val.addr, 500), 95 + 15 + 47);
    assert_eq!(s.total_burned, u64::MAX);
}

#[test]
fn stake_that_moved_on_is_slashed_without_bystanders() {
    let (a, b, src, dst) = (actor(1), actor(2), actor(4), actor(5));
    let mut s = ChainState::new(0);
    s.update_account(&src.addr, |acc| acc.staked = 1_000);
    let mut positions: Table<String, u64> = Table::new();
    positions.insert(a.addr.to_string(), 100);
    positions.insert(b.addr.to_string(), 50);
    s.validator_pools.insert(
        dst.addr.to_string(),
        DelegationPool { total_shares: 150, total_delegated_stake: 451, commission_bps: 0 },
    );
    s.delegator_shares.insert(dst.addr.to_string(), positions);
    s.redelegations.insert(
        src.addr.to_string(),
        RedelegationList {
            entries: vec![Redelegation {
                delegator: a.addr.to_string(),
                dst: dst.addr.to_string(),
                amount: 300,
                unlock_height: 999,
            }],
        },
    );
    let mine = s.delegation_value(&dst.addr, &b.addr).unwrap();
    let burned = s.slash(&src.addr, 500);
    // Fifteen of the three hundred, at five shares, are worth fifteen.
    assert_eq!(burned, 50 + 15);
    assert_eq!(s.total_burned, 65);
    let left = s.delegator_shares.get(&dst.addr.to_string()).unwrap();
    assert_eq!(left.get(&a.addr.to_string()).copied(), Some(95));
    assert_eq!(left.get(&b.addr.to_string()).copied(), Some(50));
    assert!(s.delegation_value(&dst.addr, &b.addr).unwrap() >= mine);
    let entry = &s.redelegations.get(&src.addr.to_string()).unwrap().entries[0];
    assert_eq!(entry.amount, 285);
    assert_eq!(SLASH_FRACTION_BPS, 500);
}

#[test]
fn a_validator_leaves_jail_only_after_its_term_and_on_request() {
    let (a, v) = (actor(1), actor(3));
    let mut s = rich(&[&a]);
    s.governance_params.min_validator_stake = 100;
    s.update_account(&a.addr, |acc| acc.staked = 1_000);
    let unjail = |nonce| tx(&a, TxType::Unjail, None, 0, vec![], nonce, 1);
    let r = run(&mut s, &unjail(0), &v.addr);
    assert_eq!(r.error.as_deref(), Some("sender is not jailed"));
    s.jailed_until.insert(a.addr.to_string(), 11);
    assert!(s.stakers().is_empty());
    let r = run(&mut s, &unjail(1), &v.addr);
    assert_eq!(
        r.error.as_deref(),
        Some("jail period not over: ends at height 11, current 10")
    );
    let r = execute_transaction(&mut s, &unjail(2), &Findings::none(), &v.addr, 11, 0);
    assert!(r.success, "{:?}", r.error);
    assert_eq!(s.stakers(), vec![(a.addr.clone(), 1_000)]);
}

#[test]
fn a_heartbeat_is_free_exactly_while_it_is_owed() {
    let (a, v) = (actor(1), actor(3));
    let mut s = ChainState::new(0);
    s.probationary_validators.insert(a.addr.clone());
    assert!(s.probation_proof_outstanding(&a.addr));
    let beat = |nonce, fee| tx(&a, TxType::ProbationHeartbeat, None, 0, vec![], nonce, fee);
    let r = execute_transaction(&mut s, &beat(0, 0), &Findings::none(), &v.addr, 10, 7);
    assert!(r.success, "{:?}", r.error);
    assert!(s.probation_seen.contains(&a.addr));
    assert!(!s.probation_proof_outstanding(&a.addr));
    let r = execute_transaction(&mut s, &beat(1, 0), &Findings::none(), &v.addr, 10, 7);
    assert_eq!(r.error.as_deref(), Some("fee below block base fee"));
    let r = execute_transaction(&mut s, &beat(1, 0), &Findings::none(), &v.addr, 10, 0);
    assert_eq!(r.error.as_deref(), Some("sender has no probation proof outstanding"));
}

#[test]
fn a_block_books_everything_it_does() {
    let (a, b, v) = (actor(1), actor(2), actor(3));
    let mut s = rich(&[&a, &b]);
    let supply_before = s.total_issued;
    let good = tx(&a, TxType::Transfer, Some(&b.addr), 5, vec![], 0, 10);
    let refused = tx(&b, TxType::Transfer, Some(&a.addr), 0, vec![], 0, 20);
    let excluded = tx(&b, TxType::Transfer, Some(&a.addr), 1, vec![], 9, 40);
    let blk = block(&v.addr, 5, vec![good, refused, excluded]);
    let found = vec![Findings::none(), Findings::none(), Findings::none()];
    let r = execute_block(&mut s, &blk, &found, None);
    assert_eq!(r.height, 5);
    assert_eq!(r.block_hash, Digest::digest(b"block").to_hex());
    assert_eq!((r.successful_txs(), r.failed_txs()), (1, 2));
    assert_eq!(r.total_burned, 0);
    assert_eq!(r.validator_reward, 30);
    assert_eq!(r.block_reward_minted, 900_000_000);
    assert_eq!(s.total_issued, supply_before + 900_000_000);
    assert_eq!(s.total_issued, s.total_supply);
    assert_eq!(s.get(&v.addr).unwrap().balance, 900_000_030);
    assert!(r.newly_jailed.is_empty());
}

#[test]
fn a_block_can_be_executed_step_by_step() {
    let (a, b, v) = (actor(1), actor(2), actor(3));
    let txs = || {
        vec![
            tx(&a, TxType::Transfer, Some(&b.addr), 5, vec![], 0, 10),
            tx(&a, TxType::Stake, None, 50, vec![], 1, 10),
        ]
    };
    let mut at_once = rich(&[&a, &b]);
    let blk = block(&v.addr, 5, txs());
    execute_block(&mut at_once, &blk, &vec![Findings::none(), Findings::none()], None);
    let mut stepwise = rich(&[&a, &b]);
    let mut steps = BlockRun::start();
    while steps.done() < blk.transactions.len() {
        steps.step(&mut stepwise, &blk, &Findings::none(), &v.addr);
    }
    let receipt = steps.finish(&mut stepwise, &blk, &v.addr);
    assert_eq!(receipt.tx_receipts.len(), 2);
    assert_eq!(at_once.state_hash(), stepwise.state_hash());
    let mut bare = rich(&[&a, &b]);
    assert_eq!(close_block(&mut bare, &block(&v.addr, 5, vec![]), &v.addr, 3).0, 900_000_000);
    assert_eq!(bare.total_burned, 3);
}

#[test]
fn an_epoch_ends_with_the_block_that_says_so() {
    let (a, b) = (actor(1), actor(2));
    let mut s = ChainState::new(0);
    s.governance_params.min_validator_stake = 100;
    for x in [&a, &b] {
        s.update_account(&x.addr, |acc| acc.staked = 1_000);
    }
    s.active_validators.insert(a.addr.clone());
    s.probationary_validators.insert(b.addr.clone());
    // The proposer of a committed block is running, by that very fact.
    let blk = block(&b.addr, 1, vec![]);
    execute_block(&mut s, &blk, &vec![], None);
    assert!(s.probation_seen.contains(&b.addr));
    assert!(!s.active_validators.contains(&b.addr));
    let mut last = block(&a.addr, 2, vec![]);
    last.header.ends_epoch = true;
    execute_block(&mut s, &last, &vec![], None);
    assert!(s.active_validators.contains(&b.addr));
    assert!(s.probation_seen.is_empty());
}

#[test]
fn a_block_jails_who_is_missing_from_its_certificate() {
    let all: Vec<Actor> = (1..=4).map(actor).collect();
    let mut s = ChainState::new(0);
    s.governance_params.min_validator_stake = 100;
    for x in &all {
        s.update_account(&x.addr, |acc| acc.staked = 1_000);
        s.active_validators.insert(x.addr.clone());
    }
    s.missed_blocks.insert(all[3].addr.to_string(), 149);
    s.missed_blocks.insert(all[0].addr.to_string(), 149);
    let mut blk = block(&all[0].addr, 7, vec![]);
    blk.header.last_commit = all[..3].iter().map(|x| x.addr.clone()).collect();
    let r = execute_block(&mut s, &blk, &vec![], None);
    assert_eq!(r.newly_jailed, vec![all[3].addr.clone()]);
    assert_eq!(
        s.jailed_until.get(&all[3].addr.to_string()).copied(),
        Some(7 + MIN_JAIL_BLOCKS)
    );
    assert!(!s.active_validators.contains(&all[3].addr));
    assert!(!s.missed_blocks.contains_key(&all[0].addr.to_string()));
}

#[test]
fn the_last_validator_may_go_if_only_delegations_carried_it() {
    let (a, v) = (actor(1), actor(3));
    let mut s = rich(&[&a]);
    s.governance_params.min_validator_stake = 1_000;
    s.update_account(&a.addr, |acc| acc.staked = 600);
    s.validator_pools.insert(
        a.addr.to_string(),
        DelegationPool { total_shares: 500, total_delegated_stake: 500, commission_bps: 0 },
    );
    assert_eq!(s.stakers().len(), 1);
    assert!(run(&mut s, &tx(&a, TxType::Unstake, None, 200, vec![], 0, 0), &v.addr).success);
    assert!(s.stakers().is_empty());
}

#[test]
fn a_vote_counts_once_toward_the_stake_of_the_start() {
    let (a, b, v) = (actor(1), actor(2), actor(3));
    let mut s = rich(&[&a, &b]);
    s.update_account(&a.addr, |acc| acc.staked = 70);
    s.update_account(&b.addr, |acc| acc.staked = 30);
    let data = encode_proposal(GovernanceParam::FuelPerFeeUnit, 9);
    assert!(run(&mut s, &tx(&b, TxType::CreateProposal, None, 0, data, 0, 0), &v.addr).success);
    assert_eq!(s.next_proposal_id, 1);
    assert!(run(&mut s, &tx(&b, TxType::VoteProposal, None, 0, encode_vote(0), 1, 0), &v.addr).success);
    let r = run(&mut s, &tx(&b, TxType::VoteProposal, None, 0, encode_vote(0), 2, 0), &v.addr);
    assert_eq!(r.error.as_deref(), Some("address already voted on this proposal"));
    let r = run(&mut s, &tx(&b, TxType::VoteProposal, None, 0, encode_vote(5), 3, 0), &v.addr);
    assert_eq!(r.error.as_deref(), Some("proposal not found"));
    s.update_account(&a.addr, |acc| acc.staked = 37);
    assert!(run(&mut s, &tx(&a, TxType::VoteProposal, None, 0, encode_vote(0), 0, 0), &v.addr).success);
    let p = s.proposal(0).unwrap();
    assert_eq!((p.yes_stake, p.total_staked_at_creation, p.executed), (67, 100, true));
    assert_eq!(s.governance_params.fuel_per_fee_unit, 9);
}

#[test]
fn a_contract_spends_no_more_than_it_has() {
    let (a, c, d) = (actor(1), actor(2), actor(3));
    let mut s = rich(&[&a]);
    s.update_account(&c.addr, |acc| {
        acc.balance = 100;
        acc.code = Some(vec![1]);
    });
    s.contract_storage_write(&c.addr, vec![9], vec![1]);
    let t = tx(&a, TxType::CallContract, Some(&c.addr), 50, vec![], 0, 10);
    let mut host = ContractHostContext::new(&s, c.addr.clone(), a.addr.clone(), 50, 3, vec![]);
    assert_eq!(host.available_balance(), 150);
    assert_eq!(host.storage_read(&[9]), Some(vec![1]));
    host.storage_write(&[9], vec![2]);
    assert_eq!(host.storage_read(&[9]), Some(vec![2]));
    assert_eq!(host.transfer("nobody", 1), TransferOutcome::InvalidAddress);
    assert_eq!(host.transfer(d.addr.as_str(), 151), TransferOutcome::InsufficientBalance);
    assert_eq!(host.transfer(d.addr.as_str(), 120), TransferOutcome::Paid);
    assert_eq!(host.available_balance(), 30);
    assert_eq!(host.transfer(d.addr.as_str(), 31), TransferOutcome::InsufficientBalance);
    host.set_return_data(vec![7]);
    let mut found = Findings::none();
    let commit = host.into_commit_data();
    assert_eq!(commit.return_data, vec![7]);
    found.call = Ok(commit);
    assert!(commit_has_room(&s, &t, &found));
    let r = execute_transaction(&mut s, &t, &found, &d.addr, 3, 0);
    assert!(r.success, "{:?}", r.error);
    assert_eq!(s.get(&c.addr).unwrap().balance, 30);
    assert_eq!(s.get(&d.addr).unwrap().balance, 130);
    assert_eq!(s.contract_storage_read(&c.addr, &[9]), Some(vec![2]));
}

#[test]
fn a_contract_that_calls_itself_can_promise_too_much() {
    let c = actor(2);
    let mut s = rich(&[&c]);
    s.update_account(&c.addr, |acc| {
        acc.balance = 100;
        acc.code = Some(vec![1]);
    });
    let t = tx(&c, TxType::CallContract, Some(&c.addr), 50, vec![], 0, 10);
    let mut host = ContractHostContext::new(&s, c.addr.clone(), c.addr.clone(), 50, 3, vec![]);
    assert_eq!(host.transfer(actor(3).addr.as_str(), 140), TransferOutcome::Paid);
    let mut found = Findings::none();
    found.call = Ok(host.into_commit_data());
    assert!(!commit_has_room(&s, &t, &found));
    assert!(!transaction_has_room(&s, &t, &found, 3));
}

#[test]
fn products_stop_at_the_largest_number() {
    assert_eq!(saturating_product(3, 4), 12);
    assert_eq!(saturating_product(u64::MAX, 2), u64::MAX);
    assert_eq!(saturating_product(0, u64::MAX), 0);
}

#[test]
fn the_best_payers_are_offered_first() {
    let mut pool = Mempool::default();
    let fees = [9_000u64, 12_000, 7_000, 11_000];
    for (i, fee) in fees.iter().enumerate() {
        let a = actor(10 + i as u8);
        pool.add(tx(&a, TxType::Transfer, Some(&a.addr), 1, vec![], 0, *fee), Digest::zero(), None, 0)
            .unwrap();
    }
    let mut taken: Vec<u64> = pool.take(2, &Table::new(), 1).iter().map(|t| t.fee).collect();
    taken.sort();
    assert_eq!(taken, vec![11_000, 12_000]);
    assert_eq!(pool.len(), 4);
    assert_eq!(pool.senders().len(), 4);
    pool.evict_expired(1_800_000);
    assert!(pool.is_empty());
}

#[test]
fn a_recovery_key_is_the_only_one_the_pool_takes() {
    let (a, b) = (actor(1), actor(2));
    let mut pool = Mempool::new();
    let own = tx(&a, TxType::Transfer, Some(&b.addr), 1, vec![], 0, 9_000);
    let refused = pool.add_with_recovery_key(own, Some(&b.kp.public), Digest::zero(), None, 0);
    assert!(matches!(refused, Err(MempoolError::Invalid(_))));
    let mut recovered = tx(&a, TxType::Transfer, Some(&b.addr), 1, vec![], 0, 9_000);
    recovered.public_key = b.kp.public.clone();
    sign(&mut recovered, &b.kp);
    pool.add_with_recovery_key(recovered, Some(&b.kp.public), Digest::zero(), None, 0).unwrap();
}

#[test]
fn errors_say_what_is_wrong() {
    let words = |e: MempoolError| e.message();
    assert_eq!(
        words(MempoolError::AlreadyExists("ab".into())),
        "Transaction ab already in mempool"
    );
    assert_eq!(
        words(MempoolError::NoncePending { from: "x".into(), nonce: 7 }),
        "Nonce already pending: a transaction from x with nonce 7 is already in the mempool"
    );
    assert_eq!(words(MempoolError::Full(2)), "Mempool full (max 2 transactions)");
    assert_eq!(
        words(MempoolError::FeeTooLow { got: 1, min: 20 }),
        "Fee too low: got 1, minimum 20"
    );
    assert_eq!(
        words(MempoolError::BelowBaseFee {
            got: 5,
            need: 60,
            size_bytes: 30,
            base_fee_per_byte: 2
        }),
        "Fee below the block base fee: got 5, need at least 60 (30 bytes × 2 nano-HLX/byte)"
    );
    assert_eq!(words(MempoolError::Invalid("bad".into())), "Invalid transaction: bad");
    assert_eq!(
        words(MempoolError::ForeignChain { theirs: "a".into(), ours: "b".into() }),
        "Signed for a different chain: transaction a, this chain b"
    );
    assert_eq!(
        words(MempoolError::NonceSpent { from: "x".into(), nonce: 1, account_nonce: 2 }),
        "Nonce already spent: x is on nonce 2, this transaction signs nonce 1 — it can never be applied"
    );
    assert_eq!(
        ExecutionError::InsufficientBalance { need: 10, have: 9 }.message(),
        "Insufficient balance: need 10, have 9"
    );
    assert_eq!(
        ExecutionError::InvalidNonce { expected: 1, got: 2 }.message(),
        "Invalid nonce: expected 1, got 2"
    );
    assert_eq!(ExecutionError::AccountNotFound("x".into()).message(), "Account not found: x");
    assert_eq!(ExecutionError::InvalidSignature.message(), "Signature verification failed");
    assert_eq!(ExecutionError::Invalid("y".into()).message(), "Invalid transaction: y");
}

#[test]
fn tables_and_sets_keep_their_keys_in_order() {
    let mut t: Table<String, u64> = Table::new();
    for k in ["b", "a", "c"] {
        assert_eq!(t.insert(k.to_string(), 1), None);
    }
    assert_eq!(t.insert("a".to_string(), 2), Some(1));
    let keys: Vec<&str> = (0..t.len()).map(|i| t.key_at(i).as_str()).collect();
    assert_eq!(keys, ["a", "b", "c"]);
    t.set_value_at(1, 9);
    assert_eq!(t.get(&"b".to_string()), Some(&9));
    assert_eq!(t.remove(&"b".to_string()), Some(9));
    assert_eq!(t.remove(&"b".to_string()), None);
    let (mut x, mut y): (KeySet<u64>, KeySet<u64>) = (KeySet::new(), KeySet::new());
    for i in [3, 1, 2] {
        assert!(x.insert(i));
    }
    assert!(!x.insert(1));
    y.insert(2);
    y.insert(5);
    let listed = |s: &KeySet<u64>| (0..s.len()).map(|i| *s.item_at(i)).collect::<Vec<_>>();
    assert_eq!(listed(&x.intersection(&y)), [2]);
    assert_eq!(listed(&x.difference(&y)), [1, 3]);
    x.insert_all(&y);
    assert_eq!(listed(&x), [1, 2, 3, 5]);
    assert!(x.remove(&5) && !x.remove(&5));
    assert_eq!(listed(&x.copy_set()), [1, 2, 3]);
}
