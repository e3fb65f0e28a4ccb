//! Accounts, delegation pools and stake on the move.
use crate::crypto::Address;
use vstd::prelude::*;

verus! {

/// Blocks for which released stake stays slashable before it can be claimed.
pub const UNBONDING_PERIOD: u64 = 302_400;

/// Consecutive missed blocks after which a validator is jailed.
pub const DOWNTIME_JAIL_THRESHOLD_BLOCKS: u32 = 150;

/// Blocks that a jailed validator has to wait before it may leave jail.
pub const MIN_JAIL_BLOCKS: u64 = 300;

/// Commission of a validator that has not set its own, in hundredths of a percent.
pub const DEFAULT_COMMISSION_BPS: u16 = 1_000;

/// The highest commission that a validator may set.
pub const MAX_COMMISSION_BPS: u16 = 5_000;

/// The share of its effective stake that a validator has to hold itself.
pub const MIN_SELF_BOND_RATIO_BPS: u64 = 1_000;

/// One account's ledger entry.
#[derive(Debug, PartialEq, Eq)]
pub struct AccountState {
    pub address: String,
    /// Liquid balance in nano-HLX.
    pub balance: u64,
    /// Locked as stake.
    pub staked: u64,
    /// Released from stake, but still waiting out the unbonding period and still slashable.
    pub unbonding_stake: u64,
    /// Height from which `unbonding_stake` can be claimed; 0 if there is none.
    pub unbonding_unlock_height: u64,
    /// Whose misbehaviour `unbonding_stake` still answers for: the account's own
    /// if `None`, else the validator's from whose pool it came.
    pub unbonding_source: Option<String>,
    /// The nonce that the next transaction has to carry.
    pub nonce: u64,
    /// Contract code, if the account is a contract.
    pub code: Option<Vec<u8>>,
}

/// An `AccountState` with its texts and code as sequences.
pub struct AccountModel {
    pub address: Seq<char>,
    pub balance: u64,
    pub staked: u64,
    pub unbonding_stake: u64,
    pub unbonding_unlock_height: u64,
    pub unbonding_source: Option<Seq<char>>,
    pub nonce: u64,
    pub code: Option<Seq<u8>>,
}

pub open spec fn text_opt(s: Option<String>) -> Option<Seq<char>> {
    match s {
        Some(t) => Some(t@),
        None => None,
    }
}

pub open spec fn bytes_opt(s: Option<Vec<u8>>) -> Option<Seq<u8>> {
    match s {
        Some(t) => Some(t@),
        None => None,
    }
}

impl View for AccountState {
    type V = AccountModel;

    open spec fn view(&self) -> AccountModel {
        AccountModel {
            address: self.address@,
            balance: self.balance,
            staked: self.staked,
            unbonding_stake: self.unbonding_stake,
            unbonding_unlock_height: self.unbonding_unlock_height,
            unbonding_source: text_opt(self.unbonding_source),
            nonce: self.nonce,
            code: bytes_opt(self.code),
        }
    }
}

pub fn copy_text_opt(s: &Option<String>) -> (r: Option<String>)
    ensures
        text_opt(r) == text_opt(*s),
{
    match s {
        Some(t) => Some(t.clone()),
        None => None,
    }
}

pub fn copy_bytes_opt(s: &Option<Vec<u8>>) -> (r: Option<Vec<u8>>)
    ensures
        bytes_opt(r) == bytes_opt(*s),
{
    match s {
        Some(t) => Some(vstd::slice::slice_to_vec(t.as_slice())),
        None => None,
    }
}

impl Clone for AccountState {
    fn clone(&self) -> (r: Self)
        ensures
            r@ == self@,
    {
        AccountState {
            address: self.address.clone(),
            balance: self.balance,
            staked: self.staked,
            unbonding_stake: self.unbonding_stake,
            unbonding_unlock_height: self.unbonding_unlock_height,
            unbonding_source: copy_text_opt(&self.unbonding_source),
            nonce: self.nonce,
            code: copy_bytes_opt(&self.code),
        }
    }
}

/// An account that nothing has happened to.
pub open spec fn fresh_account(address: Seq<char>) -> AccountModel {
    AccountModel {
        address,
        balance: 0,
        staked: 0,
        unbonding_stake: 0,
        unbonding_unlock_height: 0,
        unbonding_source: None,
        nonce: 0,
        code: None,
    }
}

impl AccountModel {
    /// There is unbonding stake, and its time has come.
    pub open spec fn claimable(self, height: u64) -> bool {
        &&& self.unbonding_stake > 0
        &&& self.unbonding_unlock_height > 0
        &&& height >= self.unbonding_unlock_height
    }
}

impl AccountState {
    pub fn new(address: &Address) -> (r: Self)
        ensures
            r@ == fresh_account(address@),
    {
        AccountState {
            address: address.to_string(),
            balance: 0,
            staked: 0,
            unbonding_stake: 0,
            unbonding_unlock_height: 0,
            unbonding_source: None,
            nonce: 0,
            code: None,
        }
    }

    /// Whether the unbonding period is over and there is stake to claim.
    pub fn can_claim_unbonded(&self, current_height: u64) -> (r: bool)
        ensures
            r == self@.claimable(current_height),
    {
        self.unbonding_stake > 0 && self.unbonding_unlock_height > 0 && current_height
            >= self.unbonding_unlock_height
    }
}

/// A validator holds at least a tenth of its effective stake itself.
pub open spec fn self_bond_suffices(self_staked: int, delegated: int) -> bool {
    self_staked * 10_000 >= (self_staked + delegated) * MIN_SELF_BOND_RATIO_BPS
}

/// Whether a validator's own stake is enough for what is delegated to it.
pub fn self_bond_ratio_ok(self_staked: u64, delegated: u64) -> (r: bool)
    ensures
        r == self_bond_suffices(self_staked as int, delegated as int),
{
    let effective: u128 = self_staked as u128 + delegated as u128;
    if effective == 0 {
        return true;
    }
    proof {
        assert(self_staked as int * 10_000 <= 0xffff_ffff_ffff_ffff * 10_000) by (nonlinear_arith)
            requires
                self_staked <= 0xffff_ffff_ffff_ffff,
        ;
    }
    self_staked as u128 * 10_000 >= effective * MIN_SELF_BOND_RATIO_BPS as u128
}

/// The stake that delegators have put behind a validator. Its value is shared
/// out by shares: a reward or a slash changes the value and leaves the shares alone.
#[derive(Debug, Clone, Copy, PartialEq, Eq, Structural)]
pub struct DelegationPool {
    pub total_shares: u64,
    pub total_delegated_stake: u64,
    pub commission_bps: u16,
}

impl View for DelegationPool {
    type V = DelegationPool;

    open spec fn view(&self) -> DelegationPool {
        *self
    }
}

/// The pool that a validator without one starts from.
pub open spec fn empty_pool() -> DelegationPool {
    DelegationPool {
        total_shares: 0,
        total_delegated_stake: 0,
        commission_bps: DEFAULT_COMMISSION_BPS,
    }
}

/// Stake that has moved from one validator's pool to another's and still
/// answers for the first.
#[derive(Debug)]
pub struct Redelegation {
    pub delegator: String,
    /// The validator whose pool holds the stake now.
    pub dst: String,
    /// What is still exposed to the first validator's slashing.
    pub amount: u64,
    /// Height at which that ends.
    pub unlock_height: u64,
}

/// A `Redelegation` with its addresses as characters.
pub struct RedelegationModel {
    pub delegator: Seq<char>,
    pub dst: Seq<char>,
    pub amount: u64,
    pub unlock_height: u64,
}

impl View for Redelegation {
    type V = RedelegationModel;

    open spec fn view(&self) -> RedelegationModel {
        RedelegationModel {
            delegator: self.delegator@,
            dst: self.dst@,
            amount: self.amount,
            unlock_height: self.unlock_height,
        }
    }
}

impl Clone for Redelegation {
    fn clone(&self) -> (r: Self)
        ensures
            r@ == self@,
    {
        Redelegation {
            delegator: self.delegator.clone(),
            dst: self.dst.clone(),
            amount: self.amount,
            unlock_height: self.unlock_height,
        }
    }
}

/// The moves away from one validator, oldest first.
#[derive(Debug)]
pub struct RedelegationList {
    pub entries: Vec<Redelegation>,
}

pub open spec fn redelegation_models(s: Seq<Redelegation>) -> Seq<RedelegationModel> {
    Seq::new(s.len(), |i: int| s[i]@)
}

impl View for RedelegationList {
    type V = Seq<RedelegationModel>;

    open spec fn view(&self) -> Seq<RedelegationModel> {
        redelegation_models(self.entries@)
    }
}

impl Clone for RedelegationList {
    fn clone(&self) -> (r: Self)
        ensures
            r@ == self@,
    {
        let mut entries: Vec<Redelegation> = Vec::new();
        let mut i: usize = 0;
        while i < self.entries.len()
            invariant
                i <= self.entries.len(),
                entries.len() == i,
                forall|k: int| 0 <= k < i ==> (#[trigger] entries@[k])@ == self.entries@[k]@,
            decreases self.entries.len() - i,
        {
            entries.push(self.entries[i].clone());
            i = i + 1;
        }
        let r = RedelegationList { entries };
        assert(r@ =~= self@);
        r
    }
}

} // verus!
