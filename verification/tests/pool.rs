use helix::crypto::{Address, Digest, KeyPair, Signature};
use helix::mempool::{Mempool, MempoolError, EXPIRED_MEMORY};
use helix::table::{KeySet, Table};
use helix::transaction::{Transaction, TxType};

/// Signs a transaction and settles what depends on its bytes.
fn sign(tx: &mut Transaction, kp: &KeyPair) {
    let mut b = format!("{:?}", tx.tx_type).into_bytes();
    b.extend_from_slice(tx.from.as_str().as_bytes());
    for n in [tx.amount, tx.fee, tx.nonce] {
        b.extend_from_slice(&n.to_le_bytes());
    }
    b.extend_from_slice(&tx.data);
    b.extend_from_slice(tx.chain_id.as_bytes());
    b.extend_from_slice(tx.public_key.as_bytes());
    tx.signing_hash = Digest::digest(&b);
    tx.signature = kp.sign(tx.signing_hash().as_bytes()).unwrap();
    b.extend_from_slice(tx.signature.as_bytes());
    tx.hash = Digest::digest(&b);
    tx.size_bytes = b.len() as u64;
}

fn unsigned(kp: &KeyPair, tx_type: TxType, fee: u64, nonce: u64, data_len: usize) -> Transaction {
    let addr = Address::from_public_key(&kp.public);
    Transaction {
        version: 1,
        tx_type,
        from: addr.clone(),
        to: Some(addr),
        amount: 1_000_000,
        fee,
        nonce,
        data: vec![0u8; data_len],
        crypto_version: kp.scheme,
        chain_id: Digest::zero(),
        signature: Signature::from_bytes(vec![0u8; 32]),
        public_key: kp.public.clone(),
        hash: Digest::zero(),
        signing_hash: Digest::zero(),
        size_bytes: 0,
    }
}

fn make_tx_with_data(keypair: &KeyPair, fee: u64, nonce: u64, data_len: usize) -> Transaction {
    let mut tx = unsigned(keypair, TxType::Transfer, fee, nonce, data_len);
    sign(&mut tx, keypair);
    tx
}

fn make_heartbeat(keypair: &KeyPair, fee: u64, nonce: u64) -> Transaction {
    let mut tx = unsigned(keypair, TxType::ProbationHeartbeat, fee, nonce, 0);
    tx.to = None;
    tx.amount = 0;
    sign(&mut tx, keypair);
    tx
}

fn nonces(sender: &str, nonce: u64) -> Table<String, u64> {
    let mut t = Table::new();
    t.insert(sender.to_string(), nonce);
    t
}

fn set_of(a: Address) -> KeySet<Address> {
    let mut s = KeySet::new();
    s.insert(a);
    s
}

fn make_tx(keypair: &KeyPair, fee: u64, nonce: u64) -> Transaction {
    make_tx_with_data(keypair, fee, nonce, 0)
}

#[test]
fn a_transaction_whose_nonce_the_sender_has_since_spent_is_not_packed_again() {
    let kp = KeyPair::generate();
    let mut pool = Mempool::new();

    let tx = make_tx(&kp, 10_000, 0);
    let sender = tx.from.to_string();
    let hash = tx.hash();
    pool.add(tx, Digest::zero(), Some(0), 0).expect("premise: the pool accepts it while the nonce is live");
    assert!(pool.contains(&hash));

    let taken = pool.take(10, &nonces(&sender, 1), 0);

    assert!(
        taken.is_empty(),
        "a transaction whose nonce the chain has already consumed must not be offered for \
         inclusion again: it burns no fee when the executor rejects it, so the round trip is \
         free and endlessly repeatable"
    );
    assert!(
        !pool.contains(&hash),
        "and it must be dropped, not merely skipped — it can never become valid again, and \
         holding it keeps its (sender, nonce) slot against a real replacement"
    );
}

#[test]
fn a_transaction_queued_ahead_of_its_predecessors_survives_the_sweep() {
    let kp = KeyPair::generate();
    let mut pool = Mempool::new();

    let tx = make_tx(&kp, 10_000, 5);
    let sender = tx.from.to_string();
    let hash = tx.hash();
    pool.add(tx, Digest::zero(), Some(3), 0).expect("a future nonce is a normal queued transaction");

    let taken = pool.take(10, &nonces(&sender, 3), 0);

    assert_eq!(taken.len(), 1, "a transaction waiting for its predecessors must still be offered");
    assert!(pool.contains(&hash), "and must stay in the pool");
}

#[test]
fn without_an_account_nonce_the_sweep_drops_nothing() {
    let kp = KeyPair::generate();
    let mut pool = Mempool::new();

    let hash = {
        let tx = make_tx(&kp, 10_000, 0);
        let h = tx.hash();
        pool.add(tx, Digest::zero(), None, 0).unwrap();
        h
    };

    assert_eq!(pool.take(10, &Table::new(), 0).len(), 1);
    assert!(pool.contains(&hash));
}

#[test]
fn a_transaction_for_another_chain_never_enters_the_pool() {
    let kp = KeyPair::generate();
    let ours = Digest::digest(b"this chain");
    let mut pool = Mempool::new();

    let mut tx = make_tx(&kp, 10_000, 0);
    tx.chain_id = Digest::digest(b"some other chain");
    sign(&mut tx, &kp);

    let err = pool.add(tx, ours, None, 0).expect_err("a foreign chain's tx must not be admitted");
    assert!(
        matches!(err, MempoolError::ForeignChain { .. }),
        "and it must say so rather than blaming the signature: {}",
        err.message(),
    );
    assert_eq!(pool.len(), 0, "nothing may be held");
}

#[test]
fn a_transaction_for_this_chain_still_enters_the_pool() {
    let kp = KeyPair::generate();
    let ours = Digest::digest(b"this chain");
    let mut pool = Mempool::new();

    let mut tx = make_tx(&kp, 10_000, 0);
    tx.chain_id = ours;
    sign(&mut tx, &kp);

    pool.add(tx, ours, None, 0).expect("our own chain's transaction belongs in the pool");
    assert_eq!(pool.len(), 1);
}

#[test]
fn packing_stops_at_the_byte_budget_not_just_the_count() {
    let kp = KeyPair::generate();
    let mut pool = Mempool::with_limits(1_000, 1_000);
    for nonce in 0..20 {
        pool.add(make_tx(&kp, 10_000 + nonce, nonce), Digest::zero(), None, 0).unwrap();
    }

    let one = make_tx(&kp, 10_000, 0).size_bytes();
    let taken = pool.take_within(1_000, one * 5 + one / 2, &Table::new(), 0);

    assert_eq!(taken.len(), 5, "the budget, not the count, has to decide");
    let packed: u64 = taken.iter().map(|t| t.size_bytes()).sum();
    assert!(packed <= one * 5 + one / 2, "packed {packed} bytes over budget");
}

#[test]
fn a_transaction_larger_than_the_whole_budget_is_still_taken() {
    let kp = KeyPair::generate();
    let mut pool = Mempool::with_limits(1_000, 1_000);
    pool.add(make_tx(&kp, 10_000, 0), Digest::zero(), None, 0).unwrap();

    let taken = pool.take_within(1_000, 1, &Table::new(), 0);
    assert_eq!(taken.len(), 1, "the first transaction always goes in, budget or not");
}

#[test]
fn the_count_limit_still_applies_under_a_generous_budget() {
    let kp = KeyPair::generate();
    let mut pool = Mempool::with_limits(1_000, 1_000);
    for nonce in 0..20 {
        pool.add(make_tx(&kp, 10_000 + nonce, nonce), Digest::zero(), None, 0).unwrap();
    }

    assert_eq!(pool.take_within(7, u64::MAX, &Table::new(), 0).len(), 7);
}

#[test]
fn take_is_take_within_without_a_byte_budget() {
    let kp = KeyPair::generate();
    let mut pool = Mempool::with_limits(1_000, 1_000);
    for nonce in 0..6 {
        pool.add(make_tx(&kp, 10_000 + nonce, nonce), Digest::zero(), None, 0).unwrap();
    }
    let plain: Vec<_> = pool.take(4, &Table::new(), 0).iter().map(|t| t.hash()).collect();
    let budgeted: Vec<_> = pool.take_within(4, u64::MAX, &Table::new(), 0).iter().map(|t| t.hash()).collect();
    assert_eq!(plain, budgeted);
}

#[test]
fn a_transaction_dropped_for_age_is_remembered_as_expired() {
    let kp = KeyPair::generate();
    let mut pool = Mempool::with_ttl(1);
    let tx = make_tx(&kp, 10_000, 0);
    let hash = tx.hash();
    pool.add(tx, Digest::zero(), None, 0).unwrap();

    let _ = pool.take(10, &Table::new(), 5);

    assert!(!pool.contains(&hash), "precondition: it really was dropped");
    assert!(pool.expired_recently(&hash), "and the sender must be able to learn why");
}

#[test]
fn a_pending_transaction_is_not_reported_as_expired() {
    let kp = KeyPair::generate();
    let mut pool = Mempool::new();
    let tx = make_tx(&kp, 10_000, 0);
    let hash = tx.hash();
    pool.add(tx, Digest::zero(), None, 0).unwrap();

    assert!(pool.contains(&hash));
    assert!(!pool.expired_recently(&hash));
}

#[test]
fn an_unknown_transaction_is_not_reported_as_expired() {
    let kp = KeyPair::generate();
    let pool = Mempool::new();
    assert!(!pool.expired_recently(&make_tx(&kp, 10_000, 0).hash()));
}

#[test]
fn the_expiry_memory_stays_bounded() {
    let mut pool = Mempool::new();
    for i in 0..(EXPIRED_MEMORY + 100) {
        pool.remember_expired(format!("{i:064x}"));
    }
    assert_eq!(pool.expired_count(), EXPIRED_MEMORY, "the ring must not grow without bound");
    let hash = |i: usize| Digest::from_hex(&format!("{i:064x}")).unwrap();
    assert!(!pool.expired_recently(&hash(0)), "oldest entries fall out");
    assert!(!pool.expired_recently(&hash(99)));
    assert!(pool.expired_recently(&hash(100)));
    assert!(pool.expired_recently(&hash(EXPIRED_MEMORY + 99)));
}

#[test]
fn a_probationers_free_heartbeat_is_admitted_and_a_strangers_is_not() {
    let probationer = KeyPair::generate();
    let stranger = KeyPair::generate();
    let mut pool = Mempool::new();
    pool.set_fee_exempt_probationers(
        set_of(Address::from_public_key(&probationer.public)),
    );

    assert!(
        pool.add(make_heartbeat(&probationer, 0, 0), Digest::zero(), None, 0).is_ok(),
        "a probationer with nothing liquid must still get its proof into the pool",
    );

    assert!(
        pool.add(make_heartbeat(&stranger, 0, 0), Digest::zero(), None, 0).is_err(),
        "but the exemption must not be a free lane for everyone else",
    );
}

#[test]
fn an_exempt_heartbeat_is_not_ranked_as_if_it_paid_a_base_fee() {
    let probationer = KeyPair::generate();
    let addr = Address::from_public_key(&probationer.public);
    let mut pool = Mempool::new();
    pool.set_fee_exempt_probationers(set_of(addr));

    let hb = make_heartbeat(&probationer, 0, 0);
    assert_eq!(pool.tip(&hb), 0, "a fee-0 heartbeat tips nothing — but must not underflow");

    let paying = make_heartbeat(&probationer, 7_000, 1);
    assert_eq!(
        pool.tip(&paying),
        7_000,
        "and none of an exempt transaction's fee is burned, so all of it tips",
    );
}

fn make_zero_tip_tx(keypair: &KeyPair, nonce: u64, data_len: usize) -> Transaction {
    let size = make_tx_with_data(keypair, 0, nonce, data_len).size_bytes();
    let tx = make_tx_with_data(keypair, size, nonce, data_len);
    assert_eq!(tx.size_bytes(), size, "fee is fixed-width, so pricing must not resize the tx");
    tx
}

fn make_tipping_tx(keypair: &KeyPair, nonce: u64, tip: u64) -> Transaction {
    let size = make_tx(keypair, 0, nonce).size_bytes();
    make_tx(keypair, size + tip, nonce)
}

#[test]
fn test_add_and_take() {
    let kp1 = KeyPair::generate();
    let kp2 = KeyPair::generate();
    let mut pool = Mempool::new();

    let tx_lo = make_tx(&kp1, 10_000, 0);
    let tx_hi = make_tx(&kp1, 20_000, 1);
    pool.add(tx_lo, Digest::zero(), None, 0).unwrap();
    pool.add(tx_hi, Digest::zero(), None, 0).unwrap();

    let tx_other = make_tx(&kp2, 40_000, 0);
    pool.add(tx_other, Digest::zero(), None, 0).unwrap();

    assert_eq!(pool.len(), 3);

    let taken = pool.take(10, &Table::new(), 0);
    assert_eq!(taken.len(), 3);

    let kp1_addr = Address::from_public_key(&kp1.public).to_string();
    let kp1_taken: Vec<_> = taken.iter().filter(|t| t.from.to_string() == kp1_addr).collect();
    assert_eq!(kp1_taken[0].nonce, 0);
    assert_eq!(kp1_taken[1].nonce, 1);
}

#[test]
fn test_fee_too_low_rejected() {
    let kp = KeyPair::generate();
    let mut pool = Mempool::new();
    let tx = make_tx(&kp, 500, 0); // below 1000 min
    assert!(matches!(pool.add(tx, Digest::zero(), None, 0), Err(MempoolError::FeeTooLow { .. })));
}

#[test]
fn a_fee_over_the_flat_minimum_but_under_the_base_fee_is_rejected_up_front() {
    let kp = KeyPair::generate();
    let mut pool = Mempool::new();
    let tx = make_tx(&kp, 5_000, 0);
    let size = tx.size_bytes();
    assert!(5_000 < size, "premise: the floor alone outprices this fee");

    let err = pool.add(tx, Digest::zero(), None, 0).unwrap_err();
    assert!(
        matches!(err, MempoolError::BelowBaseFee { need, .. } if need == size),
        "{err:?}"
    );
}

#[test]
fn double_sign_evidence_is_exempt_from_the_base_fee_like_it_is_at_execution() {
    let kp = KeyPair::generate();
    let mut pool = Mempool::new();

    let mut tx = make_tx(&kp, 10_000, 0);
    tx.tx_type = TxType::SubmitDoubleSignEvidence;
    tx.data = vec![0u8; 16_000];
    sign(&mut tx, &kp);

    assert!(
        tx.fee < tx.size_bytes(),
        "premise: the reporter fee is below what the base fee would charge for this size"
    );
    assert!(pool.add(tx, Digest::zero(), None, 0).is_ok(), "a slashing report must never be priced out of the pool");
}

#[test]
fn raising_the_base_fee_tightens_what_the_pool_accepts() {
    let kp = KeyPair::generate();
    let mut pool = Mempool::new();
    let tx = make_tx(&kp, 10_000, 0);
    let size = tx.size_bytes();

    assert!(pool.add(tx.clone(), Digest::zero(), None, 0).is_ok(), "affordable at the floor");

    pool.remove_committed(&[tx.hash()]);
    pool.set_base_fee_per_byte(2);
    let err = pool.add(tx, Digest::zero(), None, 0).unwrap_err();
    assert!(
        matches!(err, MempoolError::BelowBaseFee { need, .. } if need == size * 2),
        "the same fee must stop clearing once the byte price doubles: {err:?}"
    );
}

#[test]
fn a_big_transaction_paying_only_its_base_fee_ranks_below_a_small_one_that_tips() {
    let big_kp = KeyPair::generate();
    let small_kp = KeyPair::generate();
    let mut pool = Mempool::new();

    let big = make_zero_tip_tx(&big_kp, 0, 20_000);
    let small = make_tipping_tx(&small_kp, 0, 5_000);
    assert!(
        big.fee > small.fee,
        "premise: the zero-tip tx pays the higher TOTAL fee — that's what used to win"
    );
    let small_hash = small.hash();

    pool.add(big, Digest::zero(), None, 0).unwrap();
    pool.add(small, Digest::zero(), None, 0).unwrap();

    let taken = pool.take(1, &Table::new(), 0);
    assert_eq!(taken.len(), 1);
    assert_eq!(
        taken[0].hash(),
        small_hash,
        "the block slot must go to the tx that actually pays the validator"
    );
}

#[test]
fn a_full_pool_evicts_by_tip_not_by_total_fee() {
    let big_kp = KeyPair::generate();
    let small_kp = KeyPair::generate();
    let mut pool = Mempool::with_limits(1, 1_000);

    let big = make_zero_tip_tx(&big_kp, 0, 20_000);
    let big_hash = big.hash();
    pool.add(big, Digest::zero(), None, 0).unwrap();

    let small = make_tipping_tx(&small_kp, 0, 5_000);
    let small_hash = small.hash();
    pool.add(small, Digest::zero(), None, 0).expect("a real tip must outbid a zero tip, whatever the totals say");

    assert!(!pool.contains(&big_hash), "the zero-tip tx should have been evicted");
    assert!(pool.contains(&small_hash));
}

#[test]
fn slashing_evidence_tips_its_whole_fee_and_is_not_sunk_by_its_size() {
    let reporter = KeyPair::generate();
    let other = KeyPair::generate();
    let mut pool = Mempool::new();

    let mut evidence = make_tx_with_data(&reporter, 10_000, 0, 16_000);
    evidence.tx_type = TxType::SubmitDoubleSignEvidence;
    sign(&mut evidence, &reporter);
    assert!(
        evidence.fee < evidence.size_bytes(),
        "premise: a base fee on this size would wipe out the whole reporter fee"
    );
    let evidence_hash = evidence.hash();

    pool.add(evidence, Digest::zero(), None, 0).unwrap();
    pool.add(make_tipping_tx(&other, 0, 5_000), Digest::zero(), None, 0).unwrap();

    let taken = pool.take(1, &Table::new(), 0);
    assert_eq!(
        taken[0].hash(),
        evidence_hash,
        "a slashing report tipping 10k must outrank a transfer tipping 5k"
    );
}

#[test]
fn a_tx_is_fully_removed_even_after_the_base_fee_moved_under_it() {
    let kp = KeyPair::generate();
    let mut pool = Mempool::new();

    let tx = make_tx(&kp, 20_000, 0);
    let hash = tx.hash();
    pool.add(tx, Digest::zero(), None, 0).unwrap();

    pool.set_base_fee_per_byte(2);
    pool.remove_committed(&[hash]);

    assert_eq!(pool.len(), 0);
    assert!(pool.is_empty());
    assert!(!pool.contains(&hash), "a stale entry survived the removal");
    assert!(pool.senders().is_empty());
    assert!(pool.take(10, &Table::new(), 0).is_empty());
    pool.add(make_tx(&kp, 30_000, 0), Digest::zero(), None, 0)
        .expect("the slot is free again");
}

#[test]
fn a_transaction_signing_an_already_spent_nonce_is_refused_at_the_pool() {
    let kp = KeyPair::generate();
    let mut pool = Mempool::new();

    let result = pool.add(make_tx(&kp, 10_000, 3), Digest::zero(), Some(5), 0);

    assert!(
        matches!(result, Err(MempoolError::NonceSpent { nonce: 3, account_nonce: 5, .. })),
        "a nonce below the account's own can never be applied, so it must not take a pool \
         slot: got {result:?}"
    );
    assert_eq!(pool.len(), 0);
}

#[test]
fn a_nonce_ahead_of_the_account_is_still_admitted() {
    let kp = KeyPair::generate();
    let mut pool = Mempool::new();

    pool.add(make_tx(&kp, 10_000, 5), Digest::zero(), Some(5), 0).expect("the account's own nonce");
    pool.add(make_tx(&kp, 10_000, 6), Digest::zero(), Some(5), 0).expect("the one queued behind it");

    assert_eq!(pool.len(), 2);
}

#[test]
fn without_an_account_nonce_the_check_does_not_fire() {
    let kp = KeyPair::generate();
    let mut pool = Mempool::new();

    pool.add(make_tx(&kp, 10_000, 3), Digest::zero(), None, 0).expect("no state, no verdict");

    assert_eq!(pool.len(), 1);
}

#[test]
fn test_nonce_ordering_preserved() {
    let kp = KeyPair::generate();
    let mut pool = Mempool::new();

    for nonce in [2u64, 0, 1] {
        pool.add(make_tx(&kp, 10_000, nonce), Digest::zero(), None, 0).unwrap();
    }
    let taken = pool.take(10, &Table::new(), 0);
    assert_eq!(taken.iter().map(|t| t.nonce).collect::<Vec<_>>(), vec![0, 1, 2]);
}

#[test]
fn test_remove_committed() {
    let kp = KeyPair::generate();
    let mut pool = Mempool::new();
    let tx = make_tx(&kp, 10_000, 0);
    let hash = tx.hash();
    pool.add(tx, Digest::zero(), None, 0).unwrap();
    assert_eq!(pool.len(), 1);
    pool.remove_committed(&[hash]);
    assert_eq!(pool.len(), 0);
}

#[test]
fn test_double_nonce_rejected() {
    let kp = KeyPair::generate();
    let mut pool = Mempool::new();

    let tx1 = make_tx(&kp, 10_000, 0);
    let tx2 = make_tx(&kp, 12_000, 0); // same sender, same nonce, higher fee

    pool.add(tx1, Digest::zero(), None, 0).unwrap();
    assert!(matches!(
        pool.add(tx2, Digest::zero(), None, 0),
        Err(MempoolError::NoncePending { .. })
    ));
    assert_eq!(pool.len(), 1);
}

#[test]
fn test_double_nonce_slot_freed_after_commit() {
    let kp = KeyPair::generate();
    let mut pool = Mempool::new();

    let tx = make_tx(&kp, 10_000, 0);
    let hash = tx.hash();
    pool.add(tx, Digest::zero(), None, 0).unwrap();
    pool.remove_committed(&[hash]);

    let tx2 = make_tx(&kp, 12_000, 0);
    assert!(pool.add(tx2, Digest::zero(), None, 0).is_ok(), "slot should be free after commit");
}

#[test]
fn test_full_pool_evicts_cheapest_tx_for_higher_fee() {
    let kp1 = KeyPair::generate();
    let kp2 = KeyPair::generate();
    let kp3 = KeyPair::generate();
    let mut pool = Mempool::with_limits(2, 1_000);

    let cheap = make_tx(&kp1, 10_000, 0);
    let cheap_hash = cheap.hash();
    let mid = make_tx(&kp2, 12_000, 0);
    pool.add(cheap, Digest::zero(), None, 0).unwrap();
    pool.add(mid, Digest::zero(), None, 0).unwrap();
    assert_eq!(pool.len(), 2);

    let expensive = make_tx(&kp3, 14_000, 0);
    pool.add(expensive, Digest::zero(), None, 0).unwrap();

    assert_eq!(pool.len(), 2);
    assert!(!pool.contains(&cheap_hash), "cheapest tx should have been evicted");

    let resubmit = make_tx(&kp1, 16_000, 0);
    assert!(pool.add(resubmit, Digest::zero(), None, 0).is_ok());
}

#[test]
fn test_full_pool_rejects_tx_that_does_not_outbid_cheapest() {
    let kp1 = KeyPair::generate();
    let kp2 = KeyPair::generate();
    let kp3 = KeyPair::generate();
    let mut pool = Mempool::with_limits(2, 1_000);

    pool.add(make_tx(&kp1, 10_000, 0), Digest::zero(), None, 0).unwrap();
    pool.add(make_tx(&kp2, 12_000, 0), Digest::zero(), None, 0).unwrap();

    let tx = make_tx(&kp3, 10_000, 0);
    assert!(matches!(pool.add(tx, Digest::zero(), None, 0), Err(MempoolError::Full(2))));
    assert_eq!(pool.len(), 2);
}

#[test]
fn test_full_pool_invalid_signature_does_not_evict_existing_tx() {
    let kp1 = KeyPair::generate();
    let kp2 = KeyPair::generate();
    let attacker_kp = KeyPair::generate();
    let mut pool = Mempool::with_limits(2, 1_000);

    let cheap = make_tx(&kp1, 10_000, 0);
    let cheap_hash = cheap.hash();
    pool.add(cheap, Digest::zero(), None, 0).unwrap();
    pool.add(make_tx(&kp2, 12_000, 0), Digest::zero(), None, 0).unwrap();
    assert_eq!(pool.len(), 2);

    let mut forged = make_tx(&attacker_kp, 100_000, 0);
    forged.signature = Signature::from_bytes(vec![0u8; 32]);
    assert!(matches!(pool.add(forged, Digest::zero(), None, 0), Err(MempoolError::Invalid(_))));

    assert_eq!(pool.len(), 2);
    assert!(pool.contains(&cheap_hash), "cheapest tx must survive a forged eviction attempt");
}

#[test]
fn test_expired_tx_evicted_and_nonce_slot_freed() {
    let kp = KeyPair::generate();
    let mut pool = Mempool::with_limits_and_ttl(100, 1_000, 1);

    let stuck = make_tx(&kp, 10_000, 0);
    pool.add(stuck, Digest::zero(), None, 0).unwrap();
    assert_eq!(pool.len(), 1);

    let resubmit = make_tx(&kp, 12_000, 0);
    pool.add(resubmit, Digest::zero(), None, 10).unwrap();
    assert_eq!(pool.len(), 1);
}

#[test]
fn test_take_also_evicts_expired() {
    let kp = KeyPair::generate();
    let mut pool = Mempool::with_limits_and_ttl(100, 1_000, 1);
    pool.add(make_tx(&kp, 10_000, 0), Digest::zero(), None, 0).unwrap();

    let taken = pool.take(10, &Table::new(), 10);
    assert!(taken.is_empty(), "expired tx must not be included in take()");
    assert_eq!(pool.len(), 0);
}
