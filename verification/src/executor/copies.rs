//! Copies of a state and of what its tables hold.
use crate::crypto::PublicKey;
use crate::executor::account::{AccountState, DelegationPool, RedelegationList};
use crate::executor::genesis::{copy_funded, copy_keys};
use crate::executor::governance::GovernanceProposal;
use crate::executor::state::ChainState;
use crate::identity::{GuardianSet, PersonhoodStatus, RecoveryRequest};
use crate::table::Copied;
use vstd::prelude::*;

verus! {

impl Copied for String {
    fn copied(&self) -> (r: Self) {
        self.clone()
    }
}

impl Copied for Vec<u8> {
    fn copied(&self) -> (r: Self) {
        vstd::slice::slice_to_vec(self.as_slice())
    }
}

impl Copied for u32 {
    fn copied(&self) -> (r: Self) {
        *self
    }
}

impl Copied for u64 {
    fn copied(&self) -> (r: Self) {
        *self
    }
}

impl Copied for AccountState {
    fn copied(&self) -> (r: Self) {
        self.clone()
    }
}

impl Copied for DelegationPool {
    fn copied(&self) -> (r: Self) {
        *self
    }
}

impl Copied for RedelegationList {
    fn copied(&self) -> (r: Self) {
        self.clone()
    }
}

impl Copied for GovernanceProposal {
    fn copied(&self) -> (r: Self) {
        self.clone()
    }
}

impl Copied for PersonhoodStatus {
    fn copied(&self) -> (r: Self) {
        self.clone()
    }
}

impl Copied for GuardianSet {
    fn copied(&self) -> (r: Self) {
        self.clone()
    }
}

impl Copied for RecoveryRequest {
    fn copied(&self) -> (r: Self) {
        self.clone()
    }
}

impl Copied for PublicKey {
    fn copied(&self) -> (r: Self) {
        self.clone()
    }
}

impl Clone for ChainState {
    fn clone(&self) -> (r: Self)
        ensures
            r@ == self@,
    {
        ChainState {
            chain_id: self.chain_id,
            accounts: self.accounts.copied(),
            total_supply: self.total_supply,
            total_issued: self.total_issued,
            total_burned: self.total_burned,
            names: self.names.copied(),
            personhood: self.personhood.copied(),
            guardians: self.guardians.copied(),
            recovery_requests: self.recovery_requests.copied(),
            recovery_keys: self.recovery_keys.copied(),
            governance_params: self.governance_params,
            proposals: self.proposals.copied(),
            next_proposal_id: self.next_proposal_id,
            used_personhood_commitments: self.used_personhood_commitments.copy_set(),
            slashed_double_sign_incidents: self.slashed_double_sign_incidents.copy_set(),
            personhood_authorities: copy_keys(&self.personhood_authorities),
            validator_pools: self.validator_pools.copied(),
            delegator_shares: self.delegator_shares.copied(),
            redelegations: self.redelegations.copied(),
            contract_storage: self.contract_storage.copied(),
            genesis_validator_stake: self.genesis_validator_stake,
            genesis_allocations: copy_funded(&self.genesis_allocations),
            genesis_extra_validators: copy_funded(&self.genesis_extra_validators),
            pending_validators: self.pending_validators.copy_set(),
            active_validators: self.active_validators.copy_set(),
            probationary_validators: self.probationary_validators.copy_set(),
            probation_seen: self.probation_seen.copy_set(),
            applied_height: self.applied_height,
            missed_blocks: self.missed_blocks.copied(),
            jailed_until: self.jailed_until.copied(),
        }
    }
}

} // verus!
