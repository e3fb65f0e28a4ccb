//! The ledger's state and the rules by which transactions change it.
pub mod account;
pub mod audit;
pub mod block;
pub mod canonical;
pub mod contracts;
pub mod copies;
pub mod decisions;
pub mod delegation;
pub mod effects;
pub mod engine;
pub mod epochs;
pub mod fees;
pub mod genesis;
pub mod governance;
pub mod identities;
pub mod laws;
pub mod payments;
pub mod penalties;
pub mod pools;
pub mod quorum;
pub mod receipt;
pub mod runs;
pub mod slashing;
pub mod state;
pub mod validators;
pub mod value;
pub mod votes;

pub use account::{
    self_bond_ratio_ok, AccountState, DelegationPool, DEFAULT_COMMISSION_BPS, MAX_COMMISSION_BPS,
    MIN_SELF_BOND_RATIO_BPS, UNBONDING_PERIOD,
};
pub use block::{execute_block, BlockRun};
pub use engine::{
    can_pay_fee, execute_transaction, verify_tx_signature, ExecutionError, ExecutionResult,
};
pub use genesis::GenesisConfig;
pub use governance::{GovernanceParam, GovernanceParams, GovernanceProposal};
pub use receipt::{BlockReceipt, Receipt};
pub use state::ChainState;
