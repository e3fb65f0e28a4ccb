//! The chain's world state.
use crate::crypto::hash::{zero_hash, Digest};
use crate::crypto::{Address, PublicKey};
use crate::executor::account::{
    empty_pool, fresh_account, AccountModel, AccountState, DelegationPool, RedelegationList,
    RedelegationModel,
};
use crate::executor::genesis::MIN_VALIDATOR_STAKE;
use crate::executor::governance::{
    GovernanceParams, GovernanceProposal, ProposalModel, DEFAULT_FUEL_PER_FEE_UNIT,
    VOTING_PERIOD_BLOCKS,
};
use crate::identity::personhood::StatusModel;
use crate::identity::recovery::{RequestModel, MAX_GUARDIANS};
use crate::identity::{GuardianSet, PersonhoodStatus, RecoveryRequest};
use crate::sums::{total, total_of_empty};
use crate::table::{KeySet, Table};
use vstd::prelude::*;

verus! {

/// The most value that a state may hold in all.
pub const VALUE_LIMIT: u64 = 0xffff_ffff_ffff_ffff;

/// The most stake that a supermajority can be reckoned of: its double has to be a number.
pub const QUORUM_LIMIT: u64 = 0x7fff_ffff_ffff_ffff;

/// The chain that a state belongs to before anyone has set one.
pub fn unset_chain_id() -> (r: Digest)
    ensures
        r@ == zero_hash(),
{
    Digest::zero()
}

/// Everything the chain knows.
pub struct ChainState {
    /// Which chain this is: the hash of its genesis block.
    pub chain_id: Digest,
    pub accounts: Table<String, AccountState>,
    /// Never more than this is issued.
    pub total_supply: u64,
    pub total_issued: u64,
    pub total_burned: u64,
    /// Registered names and their owners.
    pub names: Table<String, String>,
    pub personhood: Table<String, PersonhoodStatus>,
    pub guardians: Table<String, GuardianSet>,
    pub recovery_requests: Table<String, RecoveryRequest>,
    /// Keys that guardians have put in place of an address's own.
    pub recovery_keys: Table<String, PublicKey>,
    pub governance_params: GovernanceParams,
    pub proposals: Table<u64, GovernanceProposal>,
    pub next_proposal_id: u64,
    pub used_personhood_commitments: KeySet<[u8; 16]>,
    pub slashed_double_sign_incidents: KeySet<String>,
    pub personhood_authorities: Vec<PublicKey>,
    pub validator_pools: Table<String, DelegationPool>,
    /// Shares by validator, then by delegator.
    pub delegator_shares: Table<String, Table<String, u64>>,
    /// Moves by the validator that was left.
    pub redelegations: Table<String, RedelegationList>,
    pub contract_storage: Table<String, Table<Vec<u8>, Vec<u8>>>,
    pub genesis_validator_stake: u64,
    pub genesis_allocations: Vec<(Address, u64)>,
    pub genesis_extra_validators: Vec<(Address, u64)>,
    /// Waiting out their first epoch.
    pub pending_validators: KeySet<Address>,
    /// Counted toward the quorum.
    pub active_validators: KeySet<Address>,
    /// Signing without voting power, to prove that a node is running.
    pub probationary_validators: KeySet<Address>,
    /// Probationers that have proved it in this epoch.
    pub probation_seen: KeySet<Address>,
    /// Height of the block that led to this state.
    pub applied_height: u64,
    /// Consecutive blocks that a validator has missed.
    pub missed_blocks: Table<String, u32>,
    /// Height from which a jailed validator may ask to be let out.
    pub jailed_until: Table<String, u64>,
}

/// A `ChainState` as mathematical maps, sets and sequences.
pub struct StateModel {
    pub chain_id: Seq<u8>,
    pub accounts: Map<Seq<char>, AccountModel>,
    pub total_supply: u64,
    pub total_issued: u64,
    pub total_burned: u64,
    pub names: Map<Seq<char>, Seq<char>>,
    pub personhood: Map<Seq<char>, StatusModel>,
    pub guardians: Map<Seq<char>, Seq<Seq<char>>>,
    pub recovery_requests: Map<Seq<char>, RequestModel>,
    pub recovery_keys: Map<Seq<char>, Seq<u8>>,
    pub governance_params: GovernanceParams,
    pub proposals: Map<u64, ProposalModel>,
    pub next_proposal_id: u64,
    pub used_personhood_commitments: Set<Seq<u8>>,
    pub slashed_double_sign_incidents: Set<Seq<char>>,
    pub personhood_authorities: Seq<Seq<u8>>,
    pub validator_pools: Map<Seq<char>, DelegationPool>,
    pub delegator_shares: Map<Seq<char>, Map<Seq<char>, u64>>,
    pub redelegations: Map<Seq<char>, Seq<RedelegationModel>>,
    pub contract_storage: Map<Seq<char>, Map<Seq<u8>, Seq<u8>>>,
    pub genesis_validator_stake: u64,
    pub genesis_allocations: Seq<(Seq<char>, u64)>,
    pub genesis_extra_validators: Seq<(Seq<char>, u64)>,
    pub pending_validators: Set<Seq<char>>,
    pub active_validators: Set<Seq<char>>,
    pub probationary_validators: Set<Seq<char>>,
    pub probation_seen: Set<Seq<char>>,
    pub applied_height: u64,
    pub missed_blocks: Map<Seq<char>, u32>,
    pub jailed_until: Map<Seq<char>, u64>,
}

pub open spec fn key_bytes(s: Seq<PublicKey>) -> Seq<Seq<u8>> {
    Seq::new(s.len(), |i: int| s[i]@)
}

pub open spec fn funded(s: Seq<(Address, u64)>) -> Seq<(Seq<char>, u64)> {
    Seq::new(s.len(), |i: int| (s[i].0@, s[i].1))
}

impl View for ChainState {
    type V = StateModel;

    open spec fn view(&self) -> StateModel {
        StateModel {
            chain_id: self.chain_id@,
            accounts: self.accounts@,
            total_supply: self.total_supply,
            total_issued: self.total_issued,
            total_burned: self.total_burned,
            names: self.names@,
            personhood: self.personhood@,
            guardians: self.guardians@,
            recovery_requests: self.recovery_requests@,
            recovery_keys: self.recovery_keys@,
            governance_params: self.governance_params,
            proposals: self.proposals@,
            next_proposal_id: self.next_proposal_id,
            used_personhood_commitments: self.used_personhood_commitments@,
            slashed_double_sign_incidents: self.slashed_double_sign_incidents@,
            personhood_authorities: key_bytes(self.personhood_authorities@),
            validator_pools: self.validator_pools@,
            delegator_shares: self.delegator_shares@,
            redelegations: self.redelegations@,
            contract_storage: self.contract_storage@,
            genesis_validator_stake: self.genesis_validator_stake,
            genesis_allocations: funded(self.genesis_allocations@),
            genesis_extra_validators: funded(self.genesis_extra_validators@),
            pending_validators: self.pending_validators@,
            active_validators: self.active_validators@,
            probationary_validators: self.probationary_validators@,
            probation_seen: self.probation_seen@,
            applied_height: self.applied_height,
            missed_blocks: self.missed_blocks@,
            jailed_until: self.jailed_until@,
        }
    }
}

/// Everything that an account owns.
pub open spec fn account_value(a: AccountModel) -> nat {
    a.balance as nat + a.staked as nat + a.unbonding_stake as nat
}

/// Accounts weighed by everything they own.
pub open spec fn by_account_value() -> spec_fn(AccountModel) -> nat {
    |a: AccountModel| account_value(a)
}

/// Accounts weighed by what they have at stake.
pub open spec fn by_bond() -> spec_fn(AccountModel) -> nat {
    |a: AccountModel| a.staked as nat + a.unbonding_stake as nat
}

/// Accounts weighed by what they can spend.
pub open spec fn by_balance() -> spec_fn(AccountModel) -> nat {
    |a: AccountModel| a.balance as nat
}

/// Pools weighed by the value in them.
pub open spec fn by_pool_value() -> spec_fn(DelegationPool) -> nat {
    |p: DelegationPool| p.total_delegated_stake as nat
}

/// Positions in a pool weighed by their shares.
pub open spec fn by_shares() -> spec_fn(u64) -> nat {
    |n: u64| n as nat
}

impl StateModel {
    /// An account as it stands, or fresh if it has never been written.
    pub open spec fn account(self, address: Seq<char>) -> AccountModel {
        if self.accounts.contains_key(address) {
            self.accounts[address]
        } else {
            fresh_account(address)
        }
    }

    pub open spec fn with_account(self, address: Seq<char>, a: AccountModel) -> StateModel {
        StateModel { accounts: self.accounts.insert(address, a), ..self }
    }

    /// A validator's pool as it stands, or empty if it has never had one.
    pub open spec fn pool(self, validator: Seq<char>) -> DelegationPool {
        if self.validator_pools.contains_key(validator) {
            self.validator_pools[validator]
        } else {
            empty_pool()
        }
    }

    pub open spec fn with_pool(self, validator: Seq<char>, p: DelegationPool) -> StateModel {
        StateModel { validator_pools: self.validator_pools.insert(validator, p), ..self }
    }

    /// The positions in a validator's pool.
    pub open spec fn positions(self, validator: Seq<char>) -> Map<Seq<char>, u64> {
        if self.delegator_shares.contains_key(validator) {
            self.delegator_shares[validator]
        } else {
            Map::empty()
        }
    }

    /// The shares that a delegator holds in a validator's pool.
    pub open spec fn shares_of(self, validator: Seq<char>, delegator: Seq<char>) -> Option<u64> {
        if self.positions(validator).contains_key(delegator) {
            Some(self.positions(validator)[delegator])
        } else {
            None
        }
    }

    pub open spec fn with_positions(
        self,
        validator: Seq<char>,
        positions: Map<Seq<char>, u64>,
    ) -> StateModel {
        StateModel {
            delegator_shares: self.delegator_shares.insert(validator, positions),
            ..self
        }
    }

    /// The value that delegators have in a validator's pool.
    pub open spec fn delegated_to(self, validator: Seq<char>) -> u64 {
        self.pool(validator).total_delegated_stake
    }

    /// All value in the state: what accounts own and what pools hold.
    pub open spec fn wealth(self) -> nat {
        total(self.accounts, by_account_value()) + total(self.validator_pools, by_pool_value())
    }

    /// All value that can be slashed: what accounts have staked, what is unbonding
    /// and what pools hold.
    pub open spec fn at_stake(self) -> nat {
        total(self.accounts, by_bond()) + total(self.validator_pools, by_pool_value())
    }

    /// All shares that are held in one validator's pool.
    pub open spec fn shares_held(self, validator: Seq<char>) -> nat {
        total(self.delegator_shares[validator], by_shares())
    }

    /// Nobody holds shares that the pool has not issued.
    pub open spec fn shares_backed(self, validator: Seq<char>) -> bool {
        &&& self.delegator_shares[validator].dom().finite()
        &&& self.validator_pools.contains_key(validator)
        &&& self.shares_held(validator) <= self.validator_pools[validator].total_shares
    }

    /// Every account is filed under its own address.
    pub open spec fn accounts_filed(self) -> bool {
        forall|k: Seq<char>| #[trigger]
            self.accounts.contains_key(k) ==> self.accounts[k].address == k
    }

    /// What every state that comes from a genesis by blocks keeps.
    pub open spec fn wf(self) -> bool {
        &&& self.accounts.dom().finite()
        &&& self.validator_pools.dom().finite()
        &&& self.wealth() <= VALUE_LIMIT
        &&& forall|k: Seq<char>| #[trigger]
            self.accounts.contains_key(k) ==> self.accounts[k].address == k
        &&& forall|v: Seq<char>| #[trigger]
            self.delegator_shares.contains_key(v) ==> self.shares_backed(v)
        &&& forall|v: Seq<char>| #[trigger]
            self.validator_pools.contains_key(v) ==> self.validator_pools[v].commission_bps
                <= 10_000
        &&& forall|k: Seq<char>| #[trigger]
            self.guardians.contains_key(k) ==> self.guardians[k].len() <= MAX_GUARDIANS
        &&& forall|id: u64| #[trigger]
            self.proposals.contains_key(id) ==> proposal_fits(self.proposals[id])
    }

    /// Nothing exists that was not issued: what is left and what was burned add
    /// up to no more than the issue, and the issue keeps within the supply.
    pub open spec fn solvent(self) -> bool {
        &&& self.wealth() + self.total_burned <= self.total_issued
        &&& self.total_issued <= self.total_supply
    }
}

/// There is a height at which the vote on a proposal ends.
pub open spec fn proposal_fits(p: ProposalModel) -> bool {
    p.created_at_height + VOTING_PERIOD_BLOCKS <= u64::MAX
}

/// A state in which nothing has happened.
pub open spec fn blank_state(total_supply: u64) -> StateModel {
    StateModel {
        chain_id: zero_hash(),
        accounts: Map::empty(),
        total_supply,
        total_issued: 0,
        total_burned: 0,
        names: Map::empty(),
        personhood: Map::empty(),
        guardians: Map::empty(),
        recovery_requests: Map::empty(),
        recovery_keys: Map::empty(),
        governance_params: GovernanceParams {
            min_validator_stake: MIN_VALIDATOR_STAKE,
            fuel_per_fee_unit: DEFAULT_FUEL_PER_FEE_UNIT,
        },
        proposals: Map::empty(),
        next_proposal_id: 0,
        used_personhood_commitments: Set::empty(),
        slashed_double_sign_incidents: Set::empty(),
        personhood_authorities: Seq::empty(),
        validator_pools: Map::empty(),
        delegator_shares: Map::empty(),
        redelegations: Map::empty(),
        contract_storage: Map::empty(),
        genesis_validator_stake: 0,
        genesis_allocations: Seq::empty(),
        genesis_extra_validators: Seq::empty(),
        pending_validators: Set::empty(),
        active_validators: Set::empty(),
        probationary_validators: Set::empty(),
        probation_seen: Set::empty(),
        applied_height: 0,
        missed_blocks: Map::empty(),
        jailed_until: Map::empty(),
    }
}

impl ChainState {
    /// A state with nothing in it and no chain set.
    pub fn new(total_supply: u64) -> (r: Self)
        ensures
            r@ == blank_state(total_supply),
            r@.wf(),
            r@.solvent(),
    {
        let r = ChainState {
            chain_id: unset_chain_id(),
            accounts: Table::new(),
            total_supply,
            total_issued: 0,
            total_burned: 0,
            names: Table::new(),
            personhood: Table::new(),
            guardians: Table::new(),
            recovery_requests: Table::new(),
            recovery_keys: Table::new(),
            governance_params: GovernanceParams {
                min_validator_stake: MIN_VALIDATOR_STAKE,
                fuel_per_fee_unit: DEFAULT_FUEL_PER_FEE_UNIT,
            },
            proposals: Table::new(),
            next_proposal_id: 0,
            used_personhood_commitments: KeySet::new(),
            slashed_double_sign_incidents: KeySet::new(),
            personhood_authorities: Vec::new(),
            validator_pools: Table::new(),
            delegator_shares: Table::new(),
            redelegations: Table::new(),
            contract_storage: Table::new(),
            genesis_validator_stake: 0,
            genesis_allocations: Vec::new(),
            genesis_extra_validators: Vec::new(),
            pending_validators: KeySet::new(),
            active_validators: KeySet::new(),
            probationary_validators: KeySet::new(),
            probation_seen: KeySet::new(),
            applied_height: 0,
            missed_blocks: Table::new(),
            jailed_until: Table::new(),
        };
        proof {
            assert(key_bytes(r.personhood_authorities@) =~= Seq::<Seq<u8>>::empty());
            assert(funded(r.genesis_allocations@) =~= Seq::<(Seq<char>, u64)>::empty());
            assert(funded(r.genesis_extra_validators@) =~= Seq::<(Seq<char>, u64)>::empty());
            total_of_empty::<Seq<char>, AccountModel>(by_account_value());
            total_of_empty::<Seq<char>, DelegationPool>(by_pool_value());
        }
        r
    }

    /// What a contract has stored under a key.
    pub fn contract_storage_read(&self, contract: &Address, key: &[u8]) -> (r: Option<Vec<u8>>)
        ensures
            match r {
                Some(v) => stored(self@, contract@, key@) == Some(v@),
                None => stored(self@, contract@, key@) is None,
            },
    {
        match self.contract_storage.get(&contract.to_string()) {
            Some(area) => match area.get(&vstd::slice::slice_to_vec(key)) {
                Some(v) => Some(vstd::slice::slice_to_vec(v.as_slice())),
                None => None,
            },
            None => None,
        }
    }

    /// Stores a value under a contract's key.
    pub fn contract_storage_write(&mut self, contract: &Address, key: Vec<u8>, value: Vec<u8>)
        ensures
            final(self)@ == with_stored(old(self)@, contract@, key@, value@),
    {
        let name = contract.to_string();
        let mut area = match self.contract_storage.remove(&name) {
            Some(t) => t,
            None => Table::new(),
        };
        area.insert(key, value);
        self.contract_storage.insert(name, area);
        proof {
            assert(self.contract_storage@ =~= with_stored(
                old(self)@,
                contract@,
                key@,
                value@,
            ).contract_storage);
        }
    }

    pub fn get(&self, address: &Address) -> (r: Option<&AccountState>)
        ensures
            match r {
                Some(a) => self@.accounts.contains_key(address@) && a@
                    == self@.accounts[address@],
                None => !self@.accounts.contains_key(address@),
            },
    {
        self.accounts.get(&address.to_string())
    }

    pub fn get_or_default(&self, address: &Address) -> (r: AccountState)
        ensures
            r@ == self@.account(address@),
    {
        match self.get(address) {
            Some(a) => a.clone(),
            None => AccountState::new(address),
        }
    }

    /// Writes an account.
    pub(crate) fn put_account(&mut self, address: &Address, account: AccountState)
        ensures
            final(self)@ == old(self)@.with_account(address@, account@),
    {
        self.accounts.insert(address.to_string(), account);
    }

    /// Changes an account in place, making it first if it has never been written.
    pub fn update_account<F>(&mut self, address: &Address, f: F) where F: FnOnce(&mut AccountState)
        requires
            forall|a: &mut AccountState|
                a@ == old(self)@.account(address@) ==> #[trigger] call_requires(f, (a,)),
        ensures
            exists|a: &mut AccountState| #[trigger]
                call_ensures(f, (a,), ()) && a@ == old(self)@.account(address@) && final(self)@
                    == old(self)@.with_account(address@, final(a)@),
    {
        let mut account = self.get_or_default(address);
        f(&mut account);
        self.put_account(address, account);
    }

    pub fn set_balance(&mut self, address: &Address, balance: u64)
        ensures
            final(self)@ == old(self)@.with_account(
                address@,
                AccountModel { balance, ..old(self)@.account(address@) },
            ),
    {
        let mut account = self.get_or_default(address);
        account.balance = balance;
        self.put_account(address, account);
    }

    pub fn set_validator_stake(&mut self, address: &Address, staked: u64)
        ensures
            final(self)@ == old(self)@.with_account(
                address@,
                AccountModel { staked, ..old(self)@.account(address@) },
            ),
    {
        let mut account = self.get_or_default(address);
        account.staked = staked;
        self.put_account(address, account);
    }

    /// What was issued and not burned.
    pub fn circulating_supply(&self) -> (r: u64)
        ensures
            r == (if self.total_issued >= self.total_burned {
                self.total_issued - self.total_burned
            } else {
                0
            }),
    {
        self.total_issued.saturating_sub(self.total_burned)
    }

    /// How much may still be minted.
    pub fn mintable_headroom(&self) -> (r: u64)
        ensures
            r == headroom(self@),
    {
        self.total_supply.saturating_sub(self.total_issued)
    }

    pub fn account_count(&self) -> (r: usize)
        ensures
            r == self@.accounts.len(),
    {
        self.accounts.len()
    }

    /// The owner of a registered name (without `.hlx`).
    pub fn resolve_name(&self, name: &str) -> (r: Option<&str>)
        ensures
            match r {
                Some(owner) => self@.names.contains_key(name@) && owner@ == self@.names[name@],
                None => !self@.names.contains_key(name@),
            },
    {
        match self.names.get(&name.to_owned()) {
            Some(owner) => Some(owner.as_str()),
            None => None,
        }
    }

    /// A name that is registered for an address: the first in name order, if it has several.
    pub fn name_of(&self, address: &Address) -> (r: Option<&str>)
        ensures
            match r {
                Some(name) => {
                    &&& self@.names.contains_key(name@)
                    &&& self@.names[name@] == address@
                    &&& forall|other: Seq<char>| #[trigger]
                        self@.names.contains_key(other) && self@.names[other] == address@
                            ==> other == name@ || crate::order::text_before(name@, other)
                },
                None => forall|name: Seq<char>| #[trigger]
                    self@.names.contains_key(name) ==> self@.names[name] != address@,
            },
    {
        let wanted = address.to_string();
        let n: usize = self.names.len();
        let ghost pairs = self.names.pairs();
        proof {
            crate::table::map_of_entries(pairs);
        }
        let mut i: usize = 0;
        while i < n
            invariant
                i <= n == pairs.len(),
                pairs == self.names.pairs(),
                self.names.in_order(),
                wanted@ == address@,
                forall|k: int| 0 <= k < i ==> (#[trigger] pairs[k]).1 != address@,
                forall|k: Seq<char>| #[trigger]
                    self.names@.contains_key(k) ==> exists|j: int|
                        0 <= j < pairs.len() && #[trigger] pairs[j].0 == k,
                forall|j: int|
                    0 <= j < pairs.len() ==> self.names@.contains_key((#[trigger] pairs[j]).0)
                        && self.names@[pairs[j].0] == pairs[j].1,
            decreases n - i,
        {
            if *self.names.value_at(i) == wanted {
                let name = self.names.key_at(i);
                proof {
                    assert forall|other: Seq<char>| #[trigger]
                        self@.names.contains_key(other) && self@.names[other] == address@ implies
                        other == name@ || crate::order::text_before(name@, other) by {
                        let j = choose|j: int| 0 <= j < pairs.len() && #[trigger] pairs[j].0 == other;
                        assert(self.names@[pairs[j].0] == pairs[j].1);
                        if j > i {
                            assert(<String as crate::order::Key>::precedes(
                                pairs[i as int].0,
                                pairs[j].0,
                            ));
                        }
                    }
                }
                return Some(name.as_str());
            }
            i = i + 1;
        }
        proof {
            assert forall|name: Seq<char>| #[trigger] self@.names.contains_key(name) implies
                self@.names[name] != address@ by {
                let j = choose|j: int| 0 <= j < pairs.len() && #[trigger] pairs[j].0 == name;
                assert(self.names@[pairs[j].0] == pairs[j].1);
            }
        }
        None
    }

    pub fn personhood_status(&self, address: &Address) -> (r: PersonhoodStatus)
        ensures
            r@ == status_of(self@, address@),
    {
        match self.personhood.get(&address.to_string()) {
            Some(s) => s.clone(),
            None => PersonhoodStatus::Unverified,
        }
    }

    pub fn set_personhood_status(&mut self, address: &Address, status: PersonhoodStatus)
        ensures
            final(self)@ == (StateModel {
                personhood: old(self)@.personhood.insert(address@, status@),
                ..old(self)@
            }),
    {
        self.personhood.insert(address.to_string(), status);
    }

    pub fn has_personhood(&self, address: &Address) -> (r: bool)
        ensures
            r == (status_of(self@, address@) is Verified),
    {
        self.personhood_status(address).is_verified()
    }

    pub fn guardians(&self, address: &Address) -> (r: Option<&GuardianSet>)
        ensures
            match r {
                Some(g) => self@.guardians.contains_key(address@) && g@
                    == self@.guardians[address@],
                None => !self@.guardians.contains_key(address@),
            },
    {
        self.guardians.get(&address.to_string())
    }

    pub fn set_guardians(&mut self, address: &Address, set: GuardianSet)
        ensures
            final(self)@ == (StateModel {
                guardians: old(self)@.guardians.insert(address@, set@),
                ..old(self)@
            }),
    {
        self.guardians.insert(address.to_string(), set);
    }

    pub fn recovery_request(&self, address: &Address) -> (r: Option<&RecoveryRequest>)
        ensures
            match r {
                Some(q) => self@.recovery_requests.contains_key(address@) && q@
                    == self@.recovery_requests[address@],
                None => !self@.recovery_requests.contains_key(address@),
            },
    {
        self.recovery_requests.get(&address.to_string())
    }

    pub fn set_recovery_request(&mut self, address: &Address, request: RecoveryRequest)
        ensures
            final(self)@ == (StateModel {
                recovery_requests: old(self)@.recovery_requests.insert(address@, request@),
                ..old(self)@
            }),
    {
        self.recovery_requests.insert(address.to_string(), request);
    }

    pub fn clear_recovery_request(&mut self, address: &Address)
        ensures
            final(self)@ == (StateModel {
                recovery_requests: old(self)@.recovery_requests.remove(address@),
                ..old(self)@
            }),
    {
        self.recovery_requests.remove(&address.to_string());
    }

    /// The key that guardians have put in control of an address, if any.
    pub fn recovery_key(&self, address: &Address) -> (r: Option<&PublicKey>)
        ensures
            match r {
                Some(k) => self@.recovery_keys.contains_key(address@) && k@
                    == self@.recovery_keys[address@],
                None => !self@.recovery_keys.contains_key(address@),
            },
    {
        self.recovery_keys.get(&address.to_string())
    }

    pub fn set_recovery_key(&mut self, address: &Address, key: PublicKey)
        ensures
            final(self)@ == (StateModel {
                recovery_keys: old(self)@.recovery_keys.insert(address@, key@),
                ..old(self)@
            }),
    {
        self.recovery_keys.insert(address.to_string(), key);
    }

    pub fn proposal(&self, id: u64) -> (r: Option<&GovernanceProposal>)
        ensures
            match r {
                Some(p) => self@.proposals.contains_key(id) && p@ == self@.proposals[id],
                None => !self@.proposals.contains_key(id),
            },
    {
        self.proposals.get(&id)
    }

    pub fn set_proposal(&mut self, proposal: GovernanceProposal)
        ensures
            final(self)@ == (StateModel {
                proposals: old(self)@.proposals.insert(proposal.id, proposal@),
                ..old(self)@
            }),
    {
        self.proposals.insert(proposal.id, proposal);
    }
}

/// What may still be minted.
pub open spec fn headroom(s: StateModel) -> u64 {
    if s.total_supply >= s.total_issued {
        (s.total_supply - s.total_issued) as u64
    } else {
        0
    }
}

pub open spec fn status_of(s: StateModel, address: Seq<char>) -> StatusModel {
    if s.personhood.contains_key(address) {
        s.personhood[address]
    } else {
        StatusModel::Unverified
    }
}

/// What a contract has stored under a key.
pub open spec fn stored(s: StateModel, contract: Seq<char>, key: Seq<u8>) -> Option<Seq<u8>> {
    if s.contract_storage.contains_key(contract) && s.contract_storage[contract].contains_key(
        key,
    ) {
        Some(s.contract_storage[contract][key])
    } else {
        None
    }
}

/// The storage area of a contract; empty if it has never written.
pub open spec fn storage_area(s: StateModel, contract: Seq<char>) -> Map<Seq<u8>, Seq<u8>> {
    if s.contract_storage.contains_key(contract) {
        s.contract_storage[contract]
    } else {
        Map::empty()
    }
}

pub open spec fn with_stored(
    s: StateModel,
    contract: Seq<char>,
    key: Seq<u8>,
    value: Seq<u8>,
) -> StateModel {
    StateModel {
        contract_storage: s.contract_storage.insert(
            contract,
            storage_area(s, contract).insert(key, value),
        ),
        ..s
    }
}

/// A contract reads what it wrote last, and no other contract's storage changes.
pub proof fn contract_storage_is_isolated(
    s: StateModel,
    contract: Seq<char>,
    key: Seq<u8>,
    value: Seq<u8>,
    other: Seq<char>,
    other_key: Seq<u8>,
)
    ensures
        stored(with_stored(s, contract, key, value), contract, key) == Some(value),
        (other != contract || other_key != key) ==> stored(
            with_stored(s, contract, key, value),
            other,
            other_key,
        ) == stored(s, other, other_key),
{
}

} // verus!
