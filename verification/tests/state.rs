use helix::crypto::{Address, Digest, KeyPair, PublicKey};
use helix::executor::account::{AccountState, DelegationPool, Redelegation, RedelegationList};
use helix::executor::account::{DOWNTIME_JAIL_THRESHOLD_BLOCKS, MIN_JAIL_BLOCKS};
use helix::executor::genesis::{NANO_PER_HLX, TOTAL_SUPPLY_HLX};
use helix::executor::governance::{GovernanceParam, GovernanceProposal};
use helix::executor::quorum::{Validator, ValidatorSet};
use helix::executor::state::ChainState;
use helix::identity::{GuardianSet, PersonhoodStatus, RecoveryRequest};
use helix::table::{KeySet, Table};

fn set_of(list: &[Address]) -> KeySet<Address> {
    let mut s = KeySet::new();
    for a in list {
        s.insert(a.clone());
    }
    s
}

fn items(set: &KeySet<Address>) -> Vec<Address> {
    (0..set.len()).map(|i| set.item_at(i).clone()).collect()
}

fn addr(seed: u8) -> Address {
    Address::from_public_key(&PublicKey::from_bytes(vec![seed; 8]))
}

#[test]
fn the_state_hash_does_not_depend_on_insertion_order() {
    let mut forwards = ChainState::new(1_000_000);
    for i in 1..=8u8 {
        stake(&mut forwards, i, 1_000 + u64::from(i));
        forwards.names.insert(format!("name{i}"), addr(i).to_string());
        forwards.jailed_until.insert(addr(i).to_string(), u64::from(i) * 10);
        forwards.contract_storage_write(&addr(1), vec![i], vec![i, i]);
    }

    let mut backwards = ChainState::new(1_000_000);
    for i in (1..=8u8).rev() {
        stake(&mut backwards, i, 1_000 + u64::from(i));
        backwards.names.insert(format!("name{i}"), addr(i).to_string());
        backwards.jailed_until.insert(addr(i).to_string(), u64::from(i) * 10);
        backwards.contract_storage_write(&addr(1), vec![i], vec![i, i]);
    }

    assert_eq!(
        forwards.state_hash(),
        backwards.state_hash(),
        "same state, opposite insertion order — the hash must not be able to tell them apart",
    );
}

#[test]
fn every_value_bearing_field_changes_the_state_hash() {
    let base = || {
        let mut s = ChainState::new(1_000_000_000);
        stake(&mut s, 1, 5_000);
        s
    };

    let reference = base().state_hash();

    let mut issued = base();
    issued.total_issued += 1;
    assert_ne!(issued.state_hash(), reference, "total_issued must be hashed (#142)");

    let mut burned = base();
    burned.total_burned += 1;
    assert_ne!(burned.state_hash(), reference, "total_burned must be hashed");

    let mut balance = base();
    balance.update_account(&addr(1), |a| a.balance += 1);
    assert_ne!(balance.state_hash(), reference, "balances must be hashed");

    let mut staked = base();
    staked.update_account(&addr(1), |a| a.staked += 1);
    assert_ne!(staked.state_hash(), reference, "stake must be hashed");

    let mut unbonding = base();
    unbonding.update_account(&addr(1), |a| a.unbonding_stake += 1);
    assert_ne!(unbonding.state_hash(), reference, "unbonding capital must be hashed");

    let mut nonce = base();
    nonce.update_account(&addr(1), |a| a.nonce += 1);
    assert_ne!(nonce.state_hash(), reference, "nonces must be hashed — replay protection");

    let mut jailed = base();
    jailed.jailed_until.insert(addr(1).to_string(), 999);
    assert_ne!(jailed.state_hash(), reference, "jailing must be hashed — it gates the set");

    let mut missed = base();
    missed.missed_blocks.insert(addr(1).to_string(), 7);
    assert_ne!(missed.state_hash(), reference, "downtime counters must be hashed");

    let mut params = base();
    params.governance_params.min_validator_stake += 1;
    assert_ne!(
        params.state_hash(),
        reference,
        "governance parameters must be hashed — they decide who is a validator",
    );

    let mut pending = base();
    pending.pending_validators.insert(addr(2));
    assert_ne!(pending.state_hash(), reference, "the activation queue must be hashed");

    let mut probation = base();
    probation.probationary_validators.insert(addr(2));
    assert_ne!(probation.state_hash(), reference, "probation must be hashed");
}

#[test]
fn active_validators_stays_out_of_the_state_hash() {
    let mut state = ChainState::new(1_000_000);
    stake(&mut state, 1, 1_000);
    let before = state.state_hash();

    state.active_validators.insert(addr(1));
    assert_eq!(
        state.state_hash(),
        before,
        "hashing active_validators would change genesis reconstruction and shut every \
         running chain out of the upgrade — see the field's doc comment"
    );

    state.missed_blocks.insert(addr(1).to_string(), 1);
    assert_ne!(
        state.state_hash(),
        before,
        "missed_blocks must stay in the hash — that is what makes the exclusion detectable"
    );
}

#[test]
fn applied_height_stays_out_of_the_state_hash() {
    let mut state = ChainState::new(1_000_000);
    stake(&mut state, 1, 1_000);
    let before = state.state_hash();

    state.applied_height = 72_769;
    assert_eq!(
        state.state_hash(),
        before,
        "a label for the state must not alter the state's hash — see the field's doc comment"
    );

    assert_eq!(state.applied_height, 72_769);
}

#[test]
fn state_hash_is_stable_regardless_of_account_insertion_order() {
    let mut forward = ChainState::new(1_000_000);
    for i in 0..20u8 {
        forward.update_account(&addr(i), |acc| {
            acc.balance = i as u64 * 1000;
            acc.staked = i as u64;
        });
    }

    let mut backward = ChainState::new(1_000_000);
    for i in (0..20u8).rev() {
        backward.update_account(&addr(i), |acc| {
            acc.balance = i as u64 * 1000;
            acc.staked = i as u64;
        });
    }

    assert_eq!(
        forward.state_hash(),
        backward.state_hash(),
        "identical accounts inserted in different order must hash the same"
    );
}

#[test]
fn a_min_stake_above_everyones_balance_empties_the_validator_set() {
    let mut state = ChainState::new(TOTAL_SUPPLY_HLX * NANO_PER_HLX);
    let v = addr(1);
    state.update_account(&v, |a| a.staked = 100_000 * NANO_PER_HLX);
    assert_eq!(state.stakers().len(), 1, "precondition: a normal validator qualifies");

    state.governance_params.min_validator_stake =
        TOTAL_SUPPLY_HLX * NANO_PER_HLX;

    assert!(
        state.stakers().is_empty(),
        "documents the failure mode: no validator can qualify, so no block can be finalized \
         and no vote can be counted to undo it",
    );
}

#[test]
fn stakers_is_stable_regardless_of_account_insertion_order() {
    let mut forward = ChainState::new(1_000_000);
    forward.governance_params.min_validator_stake = 1;
    for i in 0..20u8 {
        forward.update_account(&addr(i), |acc| acc.staked = (i as u64) + 1);
    }

    let mut backward = ChainState::new(1_000_000);
    backward.governance_params.min_validator_stake = 1;
    for i in (0..20u8).rev() {
        backward.update_account(&addr(i), |acc| acc.staked = (i as u64) + 1);
    }

    assert_eq!(
        forward.stakers(),
        backward.stakers(),
        "identical stakers inserted in different order must come back in the same order"
    );
}

#[test]
fn state_hash_changes_when_a_balance_changes() {
    let mut state = ChainState::new(0);
    state.set_balance(&addr(1), 100);
    let before = state.state_hash();

    state.set_balance(&addr(1), 101);
    let after = state.state_hash();

    assert_ne!(before, after, "a real state change must change the hash");
}

#[test]
fn state_hash_is_stable_regardless_of_proposal_voter_order() {
    let voters = |names: &[&str]| {
        let mut s: KeySet<String> = KeySet::new();
        for n in names {
            s.insert(n.to_string());
        }
        s
    };
    let voters_a = voters(&["alice", "bob", "carol", "dave"]);
    let voters_b = voters(&["dave", "carol", "bob", "alice"]);

    let base_proposal = GovernanceProposal {
        id: 0,
        proposer: "alice".to_string(),
        param: GovernanceParam::FuelPerFeeUnit,
        new_value: 42,
        created_at_height: 10,
        voters: voters_a,
        yes_stake: 400,
        total_staked_at_creation: 1000,
        executed: false,
    };

    let mut state_a = ChainState::new(0);
    state_a.set_proposal(base_proposal.clone());

    let mut state_b = ChainState::new(0);
    state_b.set_proposal(GovernanceProposal { voters: voters_b, ..base_proposal });

    assert_eq!(
        state_a.state_hash(),
        state_b.state_hash(),
        "same voters inserted in different order must hash the same"
    );
}

#[test]
fn state_hash_is_stable_regardless_of_set_insertion_order() {
    let mut forward = ChainState::new(0);
    forward.used_personhood_commitments.insert([1u8; 16]);
    forward.used_personhood_commitments.insert([2u8; 16]);
    forward.slashed_double_sign_incidents.insert("v1:10:0".to_string());
    forward.slashed_double_sign_incidents.insert("v2:20:1".to_string());

    let mut backward = ChainState::new(0);
    backward.slashed_double_sign_incidents.insert("v2:20:1".to_string());
    backward.slashed_double_sign_incidents.insert("v1:10:0".to_string());
    backward.used_personhood_commitments.insert([2u8; 16]);
    backward.used_personhood_commitments.insert([1u8; 16]);

    assert_eq!(forward.state_hash(), backward.state_hash());
}

#[test]
fn state_hash_reflects_personhood_authority() {
    let mut state = ChainState::new(0);
    let before = state.state_hash();

    state.personhood_authorities.push(KeyPair::generate().public);
    let after = state.state_hash();

    assert_ne!(before, after);
}

fn stake(state: &mut ChainState, seed: u8, amount: u64) {
    state.update_account(&addr(seed), |acc| acc.staked = amount);
}

#[test]
fn engine_validator_set_mirrors_active_validators_not_raw_stakers() {
    let mut state = ChainState::new(0);
    state.governance_params.min_validator_stake = 100;
    stake(&mut state, 3, 100);
    stake(&mut state, 1, 100);
    stake(&mut state, 2, 100); // qualifies but will be held out of the active set

    let stakers_as_full: Vec<(Address, u64, bool)> =
        state.stakers().into_iter().map(|(a, s)| (a, s, false)).collect();
    assert_eq!(
        state.engine_validator_set(),
        stakers_as_full,
        "with no rotation yet, the engine set is the genesis staker set, all full members"
    );

    state.active_validators = set_of(&[addr(1), addr(3)]);

    let mut expected = vec![(addr(1), 100u64, false), (addr(3), 100u64, false)];
    expected.sort_by(|(a, _, _), (b, _, _)| a.as_str().cmp(b.as_str()));
    assert_eq!(
        state.engine_validator_set(),
        expected,
        "engine set must be exactly the active validators, address-sorted, and must NOT \
         include the still-pending staker that stakers() would"
    );

    assert!(
        state.stakers().iter().any(|(a, _)| a == &addr(2)),
        "precondition: stakers() includes the pending staker"
    );
    assert!(
        !state.engine_validator_set().iter().any(|(a, _, _)| a == &addr(2)),
        "the pending staker must never reach the live engine set"
    );
}

#[test]
fn consensus_validator_set_caps_power_and_reports_quorum() {
    let mut state = ChainState::new(0);
    state.governance_params.min_validator_stake = 100;
    stake(&mut state, 1, 100_000);
    stake(&mut state, 2, 2_000_000); // 20x the stake of validator 1
    state.active_validators = set_of(&[addr(1), addr(2)]);

    let set = state.consensus_validator_set();
    let power = |a: Address| {
        set.validators.iter().find(|v| v.address == a).unwrap().voting_power
    };

    assert_eq!(power(addr(1)), 21_000);
    assert_eq!(power(addr(2)), 21_000);
    assert_eq!(
        power(addr(1)),
        power(addr(2)),
        "above the cap, twenty times the stake buys exactly no extra say"
    );

    assert_eq!(set.total_voting_power(), 42_000);
    assert_eq!(set.quorum_threshold(), 42_000 * 2 / 3 + 1);

    assert!(
        power(addr(1)) < set.quorum_threshold(),
        "a two-validator set has no tolerance for one going quiet"
    );
}

#[test]
fn routing_the_engine_set_through_the_shared_builder_changes_nothing() {
    let mut state = ChainState::new(0);
    state.governance_params.min_validator_stake = 100;
    stake(&mut state, 1, 100_000);
    stake(&mut state, 2, 2_000_000);
    stake(&mut state, 3, 150_000);
    state.active_validators = set_of(&[addr(1), addr(2)]);
    state.probationary_validators = set_of(&[addr(3)]);

    let the_old_way: Vec<Validator> = state
        .engine_validator_set()
        .into_iter()
        .map(|(a, s, probationary)| {
            let hp = state.has_personhood(&a);
            if probationary {
                Validator::new_probationary(a, s, hp)
            } else {
                Validator::new(a, s, hp)
            }
        })
        .collect();
    let the_new_way = state.consensus_validator_set().validators;

    let epoch: u64 = 7;
    let old = ValidatorSet::new(the_old_way, epoch);
    let new = ValidatorSet::new(the_new_way, epoch);

    assert_eq!(
        old.validators.len(),
        new.validators.len(),
        "membership must be identical"
    );
    for (o, n) in old.validators.iter().zip(new.validators.iter()) {
        assert_eq!(o.address, n.address, "order and membership must match");
        assert_eq!(o.stake, n.stake);
        assert_eq!(o.voting_power, n.voting_power);
        assert_eq!(o.probationary, n.probationary);
        assert_eq!(o.has_personhood, n.has_personhood);
    }
    assert_eq!(old.total_voting_power(), new.total_voting_power());
    assert_eq!(old.quorum_threshold(), new.quorum_threshold());

    assert!(new.total_voting_power() > 0, "precondition: the set carries real power");
    assert!(
        new.validators.iter().any(|v| v.probationary),
        "precondition: a probationer is present, since that is the branch most likely to differ"
    );
}

#[test]
fn consensus_validator_set_gives_probationers_zero_power() {
    let mut state = ChainState::new(0);
    state.governance_params.min_validator_stake = 100;
    stake(&mut state, 1, 100_000);
    stake(&mut state, 2, 100_000);
    state.active_validators = set_of(&[addr(1)]);
    state.probationary_validators = set_of(&[addr(2)]);

    let set = state.consensus_validator_set();
    let prob = set.validators.iter().find(|v| v.address == addr(2)).unwrap();
    assert!(prob.probationary, "still in the set, so its signatures are collected");
    assert_eq!(prob.voting_power, 0, "but it carries no weight toward quorum");

    let full = set.validators.iter().find(|v| v.address == addr(1)).unwrap();
    assert_eq!(set.total_voting_power(), full.voting_power);
}

#[test]
fn engine_set_tags_probationary_validators() {
    let mut state = ChainState::new(0);
    state.governance_params.min_validator_stake = 100;
    stake(&mut state, 1, 100);
    stake(&mut state, 2, 100);
    state.active_validators = set_of(&[addr(1)]);
    state.probationary_validators = set_of(&[addr(2)]);

    let set = state.engine_validator_set();
    assert_eq!(set.iter().find(|(a, _, _)| a == &addr(1)).unwrap().2, false, "active is full");
    assert_eq!(
        set.iter().find(|(a, _, _)| a == &addr(2)).unwrap().2,
        true,
        "the probationer must be tagged so it signs with no voting power",
    );
}

fn active_addrs(state: &ChainState) -> Vec<Address> {
    let mut v: Vec<Address> = items(&state.active_validators);
    v.sort_by(|a, b| a.as_str().cmp(b.as_str()));
    v
}
fn prob_addrs(state: &ChainState) -> Vec<Address> {
    let mut v: Vec<Address> = items(&state.probationary_validators);
    v.sort_by(|a, b| a.as_str().cmp(b.as_str()));
    v
}

#[test]
fn a_new_staker_walks_pending_then_probation_then_active() {
    let mut state = ChainState::new(0);
    state.governance_params.min_validator_stake = 100;
    stake(&mut state, 1, 100);
    stake(&mut state, 2, 100);
    state.active_validators = set_of(&[addr(1)]); // 1 already active

    state.rotate_active_validators();
    assert_eq!(active_addrs(&state), vec![addr(1)]);
    assert!(state.pending_validators.contains(&addr(2)), "newcomer waits one epoch in pending");
    assert!(prob_addrs(&state).is_empty());

    state.rotate_active_validators();
    assert_eq!(active_addrs(&state), vec![addr(1)], "a probationer is not yet quorum-critical");
    assert_eq!(prob_addrs(&state), vec![addr(2)]);
    assert!(state.pending_validators.is_empty());

    state.record_probation_liveness(&set_of(&[addr(2)]), &addr(1));

    state.rotate_active_validators();
    assert_eq!(active_addrs(&state), vec![addr(1), addr(2)], "the probationer activates");
    assert!(prob_addrs(&state).is_empty());
}

#[test]
fn a_probationer_that_proved_liveness_is_promoted() {
    let mut state = ChainState::new(0);
    state.governance_params.min_validator_stake = 100;
    stake(&mut state, 1, 100);
    stake(&mut state, 2, 100);
    state.active_validators = set_of(&[addr(1)]);
    state.probationary_validators = set_of(&[addr(2)]);
    state.probation_seen = set_of(&[addr(2)]);

    state.rotate_active_validators();

    let mut got = active_addrs(&state);
    got.sort_by(|a, b| a.as_str().cmp(b.as_str()));
    let mut expected = vec![addr(1), addr(2)];
    expected.sort_by(|a, b| a.as_str().cmp(b.as_str()));
    assert_eq!(got, expected, "a probationer that proved it is running activates");
    assert!(prob_addrs(&state).is_empty(), "the probation cohort is consumed by promotion");
    assert!(state.probation_seen.is_empty(), "and the window resets for the next cohort");
}

#[test]
fn a_phantom_is_not_promoted_and_stays_powerless() {
    let mut state = ChainState::new(0);
    state.governance_params.min_validator_stake = 100;
    stake(&mut state, 1, 100);
    stake(&mut state, 2, 100);
    state.active_validators = set_of(&[addr(1)]);
    state.probationary_validators = set_of(&[addr(2)]);

    state.rotate_active_validators();

    assert_eq!(
        active_addrs(&state),
        vec![addr(1)],
        "a validator whose node never sent a heartbeat must not join the quorum",
    );
    assert!(
        state.pending_validators.contains(&addr(2)),
        "it goes back to pending and may try again — this is a delay, not an eviction",
    );
    assert!(
        !state.tagged_engine_set().iter().any(|(a, _, probationary)| a == &addr(2) && !probationary),
        "and it must never appear as a full member",
    );
}

#[test]
fn proposing_a_block_records_a_probationer_as_live() {
    let mut state = ChainState::new(0);
    state.governance_params.min_validator_stake = 100;
    stake(&mut state, 1, 100);
    stake(&mut state, 2, 100);
    state.active_validators = set_of(&[addr(1)]);
    state.probationary_validators = set_of(&[addr(2)]);

    state.record_probation_liveness(&KeySet::new(), &addr(2));
    assert!(
        state.probation_seen.contains(&addr(2)),
        "the proposer of a committed block has demonstrably got a node running"
    );

    state.probation_seen = KeySet::new();
    state.record_probation_liveness(&KeySet::new(), &addr(1));
    assert!(state.probation_seen.is_empty(), "scoped to the probation cohort");
}

#[test]
fn dropping_below_the_threshold_before_promotion_forfeits_the_wait() {
    let mut state = ChainState::new(0);
    state.governance_params.min_validator_stake = 100;
    stake(&mut state, 1, 100);
    stake(&mut state, 2, 100);
    state.active_validators = set_of(&[addr(1)]);

    state.rotate_active_validators();
    assert!(state.pending_validators.contains(&addr(2)));

    stake(&mut state, 2, 0);
    state.rotate_active_validators();
    assert!(!state.pending_validators.contains(&addr(2)), "no longer qualifying — forgotten");
    assert!(prob_addrs(&state).is_empty());

    stake(&mut state, 2, 100);
    state.rotate_active_validators();
    assert!(state.pending_validators.contains(&addr(2)), "re-crossing restarts the delay");
}

#[test]
fn an_already_active_validator_stays_active() {
    let mut state = ChainState::new(0);
    state.governance_params.min_validator_stake = 100;
    stake(&mut state, 1, 250);
    state.active_validators = set_of(&[addr(1)]);

    state.rotate_active_validators();
    assert_eq!(active_addrs(&state), vec![addr(1)]);
    assert!(state.pending_validators.is_empty());
    assert!(prob_addrs(&state).is_empty());
}

#[test]
fn sustained_absence_jails_and_removes_from_stakers() {
    let mut state = ChainState::new(0);
    state.governance_params.min_validator_stake = 100;
    for n in 1..=4 {
        stake(&mut state, n, 1_000);
    }
    let validators = vec![addr(1), addr(2), addr(3), addr(4)];
    let signers_without_2: KeySet<Address> =
        set_of(&[addr(1), addr(3), addr(4)]);

    let mut newly_jailed = Vec::new();
    for height in 0..DOWNTIME_JAIL_THRESHOLD_BLOCKS as u64 {
        newly_jailed = state.record_block_participation(&validators, &signers_without_2, height);
    }

    assert_eq!(newly_jailed, vec![addr(2)], "exactly the silent validator must be jailed");
    assert!(state.jailed_until.contains_key(&addr(2).to_string()));
    let staker_addrs: Vec<Address> = state.stakers().into_iter().map(|(a, _)| a).collect();
    let mut expected = vec![addr(1), addr(3), addr(4)];
    expected.sort_by(|a, b| a.as_str().cmp(b.as_str())); // `stakers()` orders by address
    assert_eq!(
        staker_addrs, expected,
        "jailed validator must vanish from stakers() despite its stake"
    );
}

#[test]
fn a_certificate_without_quorum_power_convicts_nobody() {
    let mut state = ChainState::new(0);
    state.governance_params.min_validator_stake = 100;
    for n in 1..=4 {
        stake(&mut state, n, 1_000);
    }
    let validators = vec![addr(1), addr(2), addr(3), addr(4)];
    let half: KeySet<Address> = set_of(&[addr(1), addr(2)]);
    let empty = KeySet::new();

    for height in 0..(DOWNTIME_JAIL_THRESHOLD_BLOCKS as u64 * 2) {
        assert!(
            state.record_block_participation(&validators, &half, height).is_empty(),
            "an under-quorum certificate must never jail anyone — height {height}"
        );
        assert!(
            state.record_block_participation(&validators, &empty, height).is_empty(),
            "an empty certificate must never jail anyone — height {height}"
        );
    }

    assert!(
        state.jailed_until.is_empty(),
        "no validator may be jailed on evidence that proves nothing"
    );
    assert!(
        state.missed_blocks.is_empty(),
        "an unproven certificate must not even accumulate misses — otherwise a proposer \
         could still drive a rival most of the way to the threshold and finish the job \
         with one honest block"
    );
}

#[test]
fn a_signature_partway_through_resets_the_miss_counter() {
    let mut state = ChainState::new(0);
    state.governance_params.min_validator_stake = 100;
    for n in 1..=4 {
        stake(&mut state, n, 1_000);
    }
    let validators = vec![addr(1), addr(2), addr(3), addr(4)];
    let silent: KeySet<Address> =
        set_of(&[addr(1), addr(3), addr(4)]);
    let both_sign: KeySet<Address> =
        set_of(&[addr(1), addr(2), addr(3), addr(4)]);

    for height in 0..DOWNTIME_JAIL_THRESHOLD_BLOCKS as u64 - 1 {
        state.record_block_participation(&validators, &silent, height);
    }
    assert!(!state.jailed_until.contains_key(&addr(2).to_string()), "not jailed yet");
    assert_eq!(
        state.missed_blocks.get(&addr(2).to_string()).copied(),
        Some(DOWNTIME_JAIL_THRESHOLD_BLOCKS - 1),
        "the misses must actually have been counted — otherwise the reset below proves nothing"
    );

    state.record_block_participation(&validators, &both_sign, DOWNTIME_JAIL_THRESHOLD_BLOCKS as u64 - 1);
    assert!(!state.missed_blocks.contains_key(&addr(2).to_string()));

    let newly_jailed = state.record_block_participation(
        &validators,
        &silent,
        DOWNTIME_JAIL_THRESHOLD_BLOCKS as u64,
    );
    assert!(newly_jailed.is_empty(), "a single miss right after a reset must not jail");
}

type Bytes = Vec<u8>;

/// The byte form is the one that a serializer with fixed-width little-endian
/// integers and 64-bit lengths gives the same values in the same order.
#[test]
fn the_canonical_bytes_are_those_of_a_fixed_width_serializer() {
    let mut s = ChainState::new(1_000);
    let (a, b) = (addr(1), addr(2));
    s.total_issued = 7;
    s.total_burned = 3;
    s.update_account(&a, |acc| {
        acc.balance = 1;
        acc.staked = 2;
        acc.unbonding_stake = 3;
        acc.unbonding_unlock_height = 4;
        acc.unbonding_source = Some("v".to_string());
        acc.nonce = 5;
        acc.code = Some(vec![9, 8]);
    });
    s.names.insert("n".to_string(), a.to_string());
    s.personhood.insert(
        a.to_string(),
        PersonhoodStatus::Pending { attestations: vec![b.clone()], threshold: 3 },
    );
    s.personhood.insert("x".to_string(), PersonhoodStatus::Revoked { reason: "r".to_string() });
    s.personhood.insert("y".to_string(), PersonhoodStatus::Verified { verified_at_height: 6 });
    s.personhood.insert("z".to_string(), PersonhoodStatus::Unverified);
    s.guardians.insert(a.to_string(), GuardianSet { guardians: vec![b.clone()] });
    s.recovery_requests.insert(
        a.to_string(),
        RecoveryRequest {
            new_public_key: PublicKey::from_bytes(vec![1, 2]),
            approvals: vec![b.clone()],
        },
    );
    s.recovery_keys.insert(a.to_string(), PublicKey::from_bytes(vec![3]));
    let mut voters: KeySet<String> = KeySet::new();
    voters.insert("w".to_string());
    s.set_proposal(GovernanceProposal {
        id: 4,
        proposer: "p".to_string(),
        param: GovernanceParam::FuelPerFeeUnit,
        new_value: 42,
        created_at_height: 10,
        voters,
        yes_stake: 400,
        total_staked_at_creation: 1000,
        executed: true,
    });
    s.next_proposal_id = 5;
    s.used_personhood_commitments.insert([7u8; 16]);
    s.slashed_double_sign_incidents.insert("i".to_string());
    s.personhood_authorities = vec![
        PublicKey::from_bytes(vec![9]),
        PublicKey::from_bytes(vec![4]),
        PublicKey::from_bytes(vec![9]),
    ];
    s.validator_pools.insert(
        a.to_string(),
        DelegationPool { total_shares: 1, total_delegated_stake: 2, commission_bps: 3 },
    );
    let mut shares: Table<String, u64> = Table::new();
    shares.insert("d".to_string(), 11);
    s.delegator_shares.insert(a.to_string(), shares);
    s.redelegations.insert(
        a.to_string(),
        RedelegationList {
            entries: vec![Redelegation {
                delegator: "d".to_string(),
                dst: "e".to_string(),
                amount: 12,
                unlock_height: 13,
            }],
        },
    );
    s.contract_storage_write(&a, vec![1], vec![2, 3]);
    s.genesis_validator_stake = 14;
    s.genesis_allocations = vec![(a.clone(), 1), (a.clone(), 2)];
    s.pending_validators.insert(a.clone());
    s.probationary_validators.insert(b.clone());
    s.missed_blocks.insert(a.to_string(), 15);
    s.jailed_until.insert(a.to_string(), 16);

    let t = |x: &str| x.to_string();
    let (sa, sb) = (a.to_string(), b.to_string());
    let mut expected: Vec<u8> = Vec::new();
    let mut put = |bytes: bincode::Result<Vec<u8>>| expected.extend(bytes.unwrap());
    let account = (
        sa.clone(),
        1u64,
        2u64,
        3u64,
        4u64,
        Some(t("v")),
        5u64,
        Some::<Bytes>(vec![9, 8]),
    );
    put(bincode::serialize(&vec![(sa.clone(), account)]));
    put(bincode::serialize(&(1_000u64, 7u64, 3u64)));
    put(bincode::serialize(&vec![(t("n"), sa.clone())]));
    // An enum is a 32-bit variant number and its fields.
    put(bincode::serialize(&(4u64, sa.clone(), 1u32, vec![sb.clone()], 3u64)));
    put(bincode::serialize(&(t("x"), 3u32, t("r"))));
    put(bincode::serialize(&(t("y"), 2u32, 6u64)));
    put(bincode::serialize(&(t("z"), 0u32)));
    put(bincode::serialize(&vec![(sa.clone(), vec![sb.clone()])]));
    put(bincode::serialize(&vec![(sa.clone(), vec![1u8, 2], vec![sb.clone()])]));
    put(bincode::serialize(&vec![(sa.clone(), vec![3u8])]));
    let p = &s.governance_params;
    put(bincode::serialize(&(p.min_validator_stake, p.fuel_per_fee_unit)));
    let proposal = (4u64, t("p"), 1u32, 42u64, 10u64, vec![t("w")], 400u64, 1000u64, true);
    put(bincode::serialize(&vec![(4u64, proposal)]));
    put(bincode::serialize(&5u64));
    put(bincode::serialize(&vec![[7u8; 16]]));
    put(bincode::serialize(&vec![t("i")]));
    put(bincode::serialize(&vec![vec![4u8], vec![9u8]]));
    put(bincode::serialize(&vec![(sa.clone(), 1u64, 2u64, 3u16)]));
    put(bincode::serialize(&vec![(sa.clone(), vec![(t("d"), 11u64)])]));
    put(bincode::serialize(&vec![(sa.clone(), vec![(t("d"), t("e"), 12u64, 13u64)])]));
    put(bincode::serialize(&vec![(sa.clone(), vec![(vec![1u8], vec![2u8, 3])])]));
    put(bincode::serialize(&(14u64, vec![(sa.clone(), 2u64)])));
    put(bincode::serialize(&(vec![sa.clone()], vec![sb.clone()], Vec::<String>::new())));
    put(bincode::serialize(&vec![(sa.clone(), 15u32)]));
    put(bincode::serialize(&vec![(sa.clone(), 16u64)]));
    // In address order, whichever of the four keys that puts first.
    assert!(sa.as_str() < "x");
    assert_eq!(s.canonical_bytes(), expected);
    assert_eq!(s.state_hash(), Digest::digest(&expected));
}

#[test]
fn contracts_see_only_their_own_storage() {
    let mut s = ChainState::new(0);
    s.contract_storage_write(&addr(1), vec![1], vec![5]);
    assert_eq!(s.contract_storage_read(&addr(1), &[1]), Some(vec![5]));
    assert_eq!(s.contract_storage_read(&addr(2), &[1]), None);
    assert_eq!(s.contract_storage_read(&addr(1), &[2]), None);
    s.contract_storage_write(&addr(1), vec![1], vec![6]);
    assert_eq!(s.contract_storage_read(&addr(1), &[1]), Some(vec![6]));
}

#[test]
fn names_and_accounts_read_back() {
    let mut s = ChainState::new(0);
    assert_eq!(s.resolve_name("alice"), None);
    assert_eq!(s.name_of(&addr(1)), None);
    s.names.insert("alice".to_string(), addr(1).to_string());
    s.names.insert("adam".to_string(), addr(1).to_string());
    assert_eq!(s.resolve_name("alice"), Some(addr(1).as_str()));
    assert_eq!(s.name_of(&addr(1)), Some("adam"));
    assert_eq!(s.get_or_default(&addr(2)), AccountState::new(&addr(2)));
    s.set_validator_stake(&addr(2), 9);
    assert_eq!(s.get(&addr(2)).unwrap().staked, 9);
    assert_eq!(s.account_count(), 1);
    assert_eq!(s.max_single_stake(), 9);
    assert_eq!(s.total_staked(), 9);
    s.total_issued = 10;
    s.total_burned = 4;
    assert_eq!(s.circulating_supply(), 6);
    assert_eq!(s.mintable_headroom(), 0);
}

#[test]
fn a_jailed_validator_may_leave_after_the_least_term() {
    let mut state = ChainState::new(0);
    state.governance_params.min_validator_stake = 100;
    for n in 1..=4 {
        stake(&mut state, n, 1_000);
    }
    let validators = vec![addr(1), addr(2), addr(3), addr(4)];
    let silent = set_of(&[addr(1), addr(3), addr(4)]);
    for height in 0..DOWNTIME_JAIL_THRESHOLD_BLOCKS as u64 {
        state.record_block_participation(&validators, &silent, height);
    }
    assert_eq!(
        state.jailed_until.get(&addr(2).to_string()).copied(),
        Some(DOWNTIME_JAIL_THRESHOLD_BLOCKS as u64 - 1 + MIN_JAIL_BLOCKS)
    );
}
