//! Stake-weighted votes on protocol parameters.
use crate::encoding::{
    le_bytes, le_bytes_len, le_limits, le_reads_back, le_value, le_value_bound, le_writes_back,
    push_u64, read_le,
};
use crate::executor::genesis::MIN_VALIDATOR_STAKE;
use crate::table::KeySet;
use vstd::prelude::*;

verus! {

/// Fuel that a contract call gets for each unit of its fee, until a vote changes it.
pub const DEFAULT_FUEL_PER_FEE_UNIT: u64 = 1;

/// Blocks for which a proposal stays open.
pub const VOTING_PERIOD_BLOCKS: u64 = 1000;

/// The smallest stake that a vote may set as a validator's minimum: a hundredth of the default.
pub const MIN_VALIDATOR_STAKE_FLOOR: u64 = MIN_VALIDATOR_STAKE / 100;

/// A parameter that a proposal may change.
#[derive(Debug, Clone, Copy, PartialEq, Eq, Structural)]
pub enum GovernanceParam {
    MinValidatorStake,
    FuelPerFeeUnit,
}

impl GovernanceParam {
    pub open spec fn code(self) -> u8 {
        match self {
            GovernanceParam::MinValidatorStake => 0,
            GovernanceParam::FuelPerFeeUnit => 1,
        }
    }

    pub open spec fn of_code(v: u8) -> Option<GovernanceParam> {
        if v == 0 {
            Some(GovernanceParam::MinValidatorStake)
        } else if v == 1 {
            Some(GovernanceParam::FuelPerFeeUnit)
        } else {
            None
        }
    }

    pub fn from_u8(v: u8) -> (r: Option<Self>)
        ensures
            r == Self::of_code(v),
    {
        match v {
            0 => Some(GovernanceParam::MinValidatorStake),
            1 => Some(GovernanceParam::FuelPerFeeUnit),
            _ => None,
        }
    }

    pub fn to_u8(self) -> (r: u8)
        ensures
            r == self.code(),
            Self::of_code(r) == Some(self),
    {
        match self {
            GovernanceParam::MinValidatorStake => 0,
            GovernanceParam::FuelPerFeeUnit => 1,
        }
    }

    /// The smallest value that may be proposed: one that keeps the network usable.
    pub open spec fn floor(self) -> u64 {
        match self {
            GovernanceParam::MinValidatorStake => MIN_VALIDATOR_STAKE_FLOOR,
            GovernanceParam::FuelPerFeeUnit => 1,
        }
    }

    /// Refuses a value that would disable staking or contract calls.
    pub fn validate(self, new_value: u64) -> (r: Result<(), GovernanceError>)
        ensures
            r == (if new_value < self.floor() {
                Err::<(), GovernanceError>(GovernanceError::ValueTooLow(self))
            } else {
                Ok::<(), GovernanceError>(())
            }),
    {
        let floor: u64 = match self {
            GovernanceParam::MinValidatorStake => MIN_VALIDATOR_STAKE_FLOOR,
            GovernanceParam::FuelPerFeeUnit => 1,
        };
        if new_value < floor {
            return Err(GovernanceError::ValueTooLow(self));
        }
        Ok(())
    }
}

#[derive(Debug, Clone, Copy, PartialEq, Eq, Structural)]
pub enum GovernanceError {
    MalformedProposal,
    UnknownParam(u8),
    MalformedVote,
    ValueTooLow(GovernanceParam),
}

impl GovernanceError {
    pub open spec fn words(self) -> Seq<char> {
        match self {
            GovernanceError::MalformedProposal => {
                "proposal payload must be exactly 9 bytes: 1 param byte + 8 value bytes"@
            },
            GovernanceError::UnknownParam(b) => "unknown governance parameter byte "@
                + crate::text::decimal(b as nat),
            GovernanceError::MalformedVote => "vote payload must be exactly 8 bytes (proposal id)"@,
            GovernanceError::ValueTooLow(GovernanceParam::MinValidatorStake) => {
                "proposed min_validator_stake is below the allowed floor"@
            },
            GovernanceError::ValueTooLow(GovernanceParam::FuelPerFeeUnit) => {
                "proposed fuel_per_fee_unit is below the allowed floor"@
            },
        }
    }

    /// The error in words.
    pub fn message(&self) -> (r: String)
        ensures
            r@ == self.words(),
    {
        match self {
            GovernanceError::MalformedProposal => {
                "proposal payload must be exactly 9 bytes: 1 param byte + 8 value bytes".to_owned()
            },
            GovernanceError::UnknownParam(b) => {
                let n = crate::text::decimal_text(*b as u64);
                crate::text::joined2("unknown governance parameter byte ", n.as_str())
            },
            GovernanceError::MalformedVote => {
                "vote payload must be exactly 8 bytes (proposal id)".to_owned()
            },
            GovernanceError::ValueTooLow(GovernanceParam::MinValidatorStake) => {
                "proposed min_validator_stake is below the allowed floor".to_owned()
            },
            GovernanceError::ValueTooLow(GovernanceParam::FuelPerFeeUnit) => {
                "proposed fuel_per_fee_unit is below the allowed floor".to_owned()
            },
        }
    }
}

/// The payload of a proposal: one byte for the parameter, eight for the value.
pub open spec fn proposal_bytes(param: GovernanceParam, new_value: u64) -> Seq<u8> {
    seq![param.code()] + le_bytes(new_value as nat, 8)
}

/// What a proposal's payload says.
pub open spec fn proposal_of(data: Seq<u8>) -> Result<(GovernanceParam, u64), GovernanceError> {
    if data.len() != 9 {
        Err(GovernanceError::MalformedProposal)
    } else {
        match GovernanceParam::of_code(data[0]) {
            None => Err(GovernanceError::UnknownParam(data[0])),
            Some(param) => Ok((param, le_value(data.skip(1)) as u64)),
        }
    }
}

/// What a vote's payload says.
pub open spec fn vote_of(data: Seq<u8>) -> Result<u64, GovernanceError> {
    if data.len() != 8 {
        Err(GovernanceError::MalformedVote)
    } else {
        Ok(le_value(data) as u64)
    }
}

pub fn encode_proposal(param: GovernanceParam, new_value: u64) -> (r: Vec<u8>)
    ensures
        r@ == proposal_bytes(param, new_value),
        r@.len() == 9,
{
    let mut buf: Vec<u8> = Vec::new();
    buf.push(param.to_u8());
    push_u64(&mut buf, new_value);
    proof {
        le_bytes_len(new_value as nat, 8);
        assert(buf@ =~= proposal_bytes(param, new_value));
    }
    buf
}

pub fn decode_proposal(data: &[u8]) -> (r: Result<(GovernanceParam, u64), GovernanceError>)
    ensures
        r == proposal_of(data@),
{
    if data.len() != 9 {
        return Err(GovernanceError::MalformedProposal);
    }
    match GovernanceParam::from_u8(data[0]) {
        None => Err(GovernanceError::UnknownParam(data[0])),
        Some(param) => {
            let tail = vstd::slice::slice_subrange(data, 1, 9);
            proof {
                assert(tail@ =~= data@.skip(1));
            }
            Ok((param, read_le(tail)))
        },
    }
}

pub fn encode_vote(proposal_id: u64) -> (r: Vec<u8>)
    ensures
        r@ == le_bytes(proposal_id as nat, 8),
        r@.len() == 8,
{
    let mut buf: Vec<u8> = Vec::new();
    push_u64(&mut buf, proposal_id);
    proof {
        le_bytes_len(proposal_id as nat, 8);
        assert(buf@ =~= le_bytes(proposal_id as nat, 8));
    }
    buf
}

pub fn decode_vote(data: &[u8]) -> (r: Result<u64, GovernanceError>)
    ensures
        r == vote_of(data@),
{
    if data.len() != 8 {
        return Err(GovernanceError::MalformedVote);
    }
    Ok(read_le(data))
}

/// A proposal's payload says what was put into it.
pub proof fn proposal_round_trip(param: GovernanceParam, new_value: u64)
    ensures
        proposal_of(proposal_bytes(param, new_value)) == Ok::<
            (GovernanceParam, u64),
            GovernanceError,
        >((param, new_value)),
{
    let data = proposal_bytes(param, new_value);
    le_bytes_len(new_value as nat, 8);
    le_limits();
    le_reads_back(new_value as nat, 8);
    assert(data.skip(1) =~= le_bytes(new_value as nat, 8));
}

/// An accepted payload is the encoding of what was read from it.
pub proof fn proposal_encoding_is_canonical(data: Seq<u8>, param: GovernanceParam, new_value: u64)
    requires
        proposal_of(data) == Ok::<(GovernanceParam, u64), GovernanceError>((param, new_value)),
    ensures
        data == proposal_bytes(param, new_value),
{
    let tail = data.skip(1);
    le_value_bound(tail);
    le_limits();
    le_writes_back(tail);
    assert(data =~= seq![data[0]] + tail);
}

/// A vote's payload names the proposal that was put into it.
pub proof fn vote_round_trip(id: u64)
    ensures
        vote_of(le_bytes(id as nat, 8)) == Ok::<u64, GovernanceError>(id),
{
    le_bytes_len(id as nat, 8);
    le_limits();
    le_reads_back(id as nat, 8);
}

/// The parameters that votes can change.
#[derive(Debug, Clone, Copy, PartialEq, Eq, Structural)]
pub struct GovernanceParams {
    pub min_validator_stake: u64,
    pub fuel_per_fee_unit: u64,
}

impl Default for GovernanceParams {
    fn default() -> (r: Self)
        ensures
            r.min_validator_stake == MIN_VALIDATOR_STAKE,
            r.fuel_per_fee_unit == DEFAULT_FUEL_PER_FEE_UNIT,
    {
        GovernanceParams {
            min_validator_stake: MIN_VALIDATOR_STAKE,
            fuel_per_fee_unit: DEFAULT_FUEL_PER_FEE_UNIT,
        }
    }
}

/// A proposal to change one parameter.
pub struct GovernanceProposal {
    pub id: u64,
    pub proposer: String,
    pub param: GovernanceParam,
    pub new_value: u64,
    pub created_at_height: u64,
    /// Addresses that have voted yes.
    pub voters: KeySet<String>,
    /// Stake behind the yes votes, each counted as it stood when the vote was cast.
    pub yes_stake: u64,
    /// Stake in the whole network when the proposal was made. The quorum is
    /// measured against this, so that unstaking after a vote cannot lower it.
    pub total_staked_at_creation: u64,
    pub executed: bool,
}

/// A `GovernanceProposal` with its addresses as characters.
pub struct ProposalModel {
    pub id: u64,
    pub proposer: Seq<char>,
    pub param: GovernanceParam,
    pub new_value: u64,
    pub created_at_height: u64,
    pub voters: Set<Seq<char>>,
    pub yes_stake: u64,
    pub total_staked_at_creation: u64,
    pub executed: bool,
}

impl View for GovernanceProposal {
    type V = ProposalModel;

    open spec fn view(&self) -> ProposalModel {
        ProposalModel {
            id: self.id,
            proposer: self.proposer@,
            param: self.param,
            new_value: self.new_value,
            created_at_height: self.created_at_height,
            voters: self.voters@,
            yes_stake: self.yes_stake,
            total_staked_at_creation: self.total_staked_at_creation,
            executed: self.executed,
        }
    }
}

impl Clone for GovernanceProposal {
    fn clone(&self) -> (r: Self)
        ensures
            r@ == self@,
    {
        GovernanceProposal {
            id: self.id,
            proposer: self.proposer.clone(),
            param: self.param,
            new_value: self.new_value,
            created_at_height: self.created_at_height,
            voters: self.voters.copy_set(),
            yes_stake: self.yes_stake,
            total_staked_at_creation: self.total_staked_at_creation,
            executed: self.executed,
        }
    }
}

impl ProposalModel {
    pub open spec fn expired(self, height: u64) -> bool {
        height > self.created_at_height + VOTING_PERIOD_BLOCKS
    }
}

impl GovernanceProposal {
    pub fn is_expired(&self, height: u64) -> (r: bool)
        requires
            self.created_at_height + VOTING_PERIOD_BLOCKS <= u64::MAX,
        ensures
            r == self@.expired(height),
    {
        height > self.created_at_height + VOTING_PERIOD_BLOCKS
    }
}

/// Two thirds of the stake and one more.
pub open spec fn supermajority(total: int) -> int {
    total * 2 / 3 + 1
}

pub fn quorum_threshold(total_staked: u64) -> (r: u64)
    requires
        total_staked * 2 <= u64::MAX,
    ensures
        r == supermajority(total_staked as int),
{
    total_staked * 2 / 3 + 1
}

/// More than two thirds of the stake meets the quorum, and two thirds does not.
pub proof fn quorum_is_a_supermajority(total: nat, yes: nat)
    ensures
        yes >= supermajority(total as int) <==> 3 * yes > 2 * total,
{
}

} // verus!
