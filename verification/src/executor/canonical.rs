//! A hash of the whole state.
//!
//! Everything is written in a fixed order with fixed-width little-endian
//! numbers, lengths before contents and tables in key order, so that two states
//! with the same contents give the same bytes whatever way they came about, and
//! two that differ give different ones.
use crate::codec::{
    counted_ends, flag_code, flag_ends, items_code, items_code_step, list_code, list_ends,
    list_fits, maybe_code, maybe_ends, maybe_fits, number_ends, prefix_free, set_code, set_ends,
    set_fits, table_code, table_ends, table_fits, text_code, text_ends, text_fits, texts_code,
    texts_end, texts_fit, u64_ends, write_addresses, write_flag, write_set, write_text, Encode,
};
use crate::crypto::hash::{blake3_hash, Digest};
use crate::crypto::{Address, PublicKey};
use crate::encoding::{counted, le_bytes, le_limits, push_counted, push_u16, push_u32, push_u64};
use crate::executor::account::{
    redelegation_models, AccountModel, AccountState, DelegationPool, RedelegationList,
    RedelegationModel,
};
use crate::executor::governance::{GovernanceParam, GovernanceProposal, ProposalModel};
use crate::executor::state::{funded, key_bytes, ChainState, StateModel};
use crate::identity::personhood::StatusModel;
use crate::identity::recovery::RequestModel;
use crate::identity::{GuardianSet, PersonhoodStatus, RecoveryRequest};
use crate::table::{map_of, KeySet, Table};
use vstd::prelude::*;

verus! {

pub open spec fn maybe_text_code(v: Option<Seq<char>>) -> Seq<u8> {
    maybe_code(v, |t: Seq<char>| text_code(t))
}

pub open spec fn maybe_text_fits(v: Option<Seq<char>>) -> bool {
    maybe_fits(v, |t: Seq<char>| text_fits(t))
}

proof fn maybe_text_ends(a: Option<Seq<char>>, b: Option<Seq<char>>, x: Seq<u8>, y: Seq<u8>)
    requires
        maybe_text_fits(a),
        maybe_text_fits(b),
        maybe_text_code(a) + x == maybe_text_code(b) + y,
    ensures
        a == b,
        x == y,
{
    let code = |t: Seq<char>| text_code(t);
    let sound = |t: Seq<char>| text_fits(t);
    assert(prefix_free(code, sound)) by {
        assert forall|s: Seq<char>, t: Seq<char>, x: Seq<u8>, y: Seq<u8>|
            sound(s) && sound(t) && #[trigger] (code(s) + x) == #[trigger] (code(t) + y) implies s
            == t && x == y by {
            text_ends(s, t, x, y);
        }
    }
    maybe_ends(a, b, code, sound, x, y);
}

pub open spec fn maybe_bytes_code(v: Option<Seq<u8>>) -> Seq<u8> {
    maybe_code(v, |b: Seq<u8>| counted(b))
}

pub open spec fn maybe_bytes_fit(v: Option<Seq<u8>>) -> bool {
    maybe_fits(v, |b: Seq<u8>| b.len() <= u64::MAX)
}

proof fn maybe_bytes_end(a: Option<Seq<u8>>, b: Option<Seq<u8>>, x: Seq<u8>, y: Seq<u8>)
    requires
        maybe_bytes_fit(a),
        maybe_bytes_fit(b),
        maybe_bytes_code(a) + x == maybe_bytes_code(b) + y,
    ensures
        a == b,
        x == y,
{
    let code = |b: Seq<u8>| counted(b);
    let sound = |b: Seq<u8>| b.len() <= u64::MAX;
    assert(prefix_free(code, sound)) by {
        assert forall|s: Seq<u8>, t: Seq<u8>, x: Seq<u8>, y: Seq<u8>|
            sound(s) && sound(t) && #[trigger] (code(s) + x) == #[trigger] (code(t) + y) implies s
            == t && x == y by {
            counted_ends(s, t, x, y);
        }
    }
    maybe_ends(a, b, code, sound, x, y);
}

proof fn param_ends(a: GovernanceParam, b: GovernanceParam, x: Seq<u8>, y: Seq<u8>)
    requires
        le_bytes(a.code() as nat, 4) + x == le_bytes(b.code() as nat, 4) + y,
    ensures
        a == b,
        x == y,
{
    le_limits();
    number_ends(a.code() as nat, b.code() as nat, 4, x, y);
}

proof fn regroup(a: Seq<u8>, b: Seq<u8>, x: Seq<u8>)
    ensures
        (a + b) + x == a + (b + x),
{
    assert((a + b) + x =~= a + (b + x));
}

pub open spec fn account_code(v: AccountModel) -> Seq<u8> {
    text_code(v.address)
        + (le_bytes(v.balance as nat, 8)
        + (le_bytes(v.staked as nat, 8)
        + (le_bytes(v.unbonding_stake as nat, 8)
        + (le_bytes(v.unbonding_unlock_height as nat, 8)
        + (maybe_text_code(v.unbonding_source)
        + (le_bytes(v.nonce as nat, 8)
        + (maybe_bytes_code(v.code))))))))
}

pub open spec fn account_fits(v: AccountModel) -> bool {
    &&& text_fits(v.address)
    &&& maybe_text_fits(v.unbonding_source)
    &&& maybe_bytes_fit(v.code)
}

proof fn account_ends(a: AccountModel, b: AccountModel, x: Seq<u8>, y: Seq<u8>)
    requires
        account_fits(a),
        account_fits(b),
        account_code(a) + x == account_code(b) + y,
    ensures
        a == b,
        x == y,
{
    le_limits();
    let a7 = maybe_bytes_code(a.code);
    let a6 = le_bytes(a.nonce as nat, 8) + a7;
    let a5 = maybe_text_code(a.unbonding_source) + a6;
    let a4 = le_bytes(a.unbonding_unlock_height as nat, 8) + a5;
    let a3 = le_bytes(a.unbonding_stake as nat, 8) + a4;
    let a2 = le_bytes(a.staked as nat, 8) + a3;
    let a1 = le_bytes(a.balance as nat, 8) + a2;
    let a0 = text_code(a.address) + a1;
    let b7 = maybe_bytes_code(b.code);
    let b6 = le_bytes(b.nonce as nat, 8) + b7;
    let b5 = maybe_text_code(b.unbonding_source) + b6;
    let b4 = le_bytes(b.unbonding_unlock_height as nat, 8) + b5;
    let b3 = le_bytes(b.unbonding_stake as nat, 8) + b4;
    let b2 = le_bytes(b.staked as nat, 8) + b3;
    let b1 = le_bytes(b.balance as nat, 8) + b2;
    let b0 = text_code(b.address) + b1;
    regroup(text_code(a.address), a1, x);
    regroup(text_code(b.address), b1, y);
    text_ends(a.address, b.address, a1 + x, b1 + y);
    regroup(le_bytes(a.balance as nat, 8), a2, x);
    regroup(le_bytes(b.balance as nat, 8), b2, y);
    u64_ends(a.balance, b.balance, a2 + x, b2 + y);
    regroup(le_bytes(a.staked as nat, 8), a3, x);
    regroup(le_bytes(b.staked as nat, 8), b3, y);
    u64_ends(a.staked, b.staked, a3 + x, b3 + y);
    regroup(le_bytes(a.unbonding_stake as nat, 8), a4, x);
    regroup(le_bytes(b.unbonding_stake as nat, 8), b4, y);
    u64_ends(a.unbonding_stake, b.unbonding_stake, a4 + x, b4 + y);
    regroup(le_bytes(a.unbonding_unlock_height as nat, 8), a5, x);
    regroup(le_bytes(b.unbonding_unlock_height as nat, 8), b5, y);
    u64_ends(a.unbonding_unlock_height, b.unbonding_unlock_height, a5 + x, b5 + y);
    regroup(maybe_text_code(a.unbonding_source), a6, x);
    regroup(maybe_text_code(b.unbonding_source), b6, y);
    maybe_text_ends(a.unbonding_source, b.unbonding_source, a6 + x, b6 + y);
    regroup(le_bytes(a.nonce as nat, 8), a7, x);
    regroup(le_bytes(b.nonce as nat, 8), b7, y);
    u64_ends(a.nonce, b.nonce, a7 + x, b7 + y);
    maybe_bytes_end(a.code, b.code, x, y);
}

impl Encode for AccountState {
    open spec fn code(v: AccountModel) -> Seq<u8> {
        account_code(v)
    }

    open spec fn fits(v: AccountModel) -> bool {
        account_fits(v)
    }

    proof fn code_is_prefix_free(a: AccountModel, b: AccountModel, x: Seq<u8>, y: Seq<u8>) {
        account_ends(a, b, x, y);
    }

    fn write(&self, out: &mut Vec<u8>) {
        let ghost start = out@;
        write_text(self.address.as_str(), out);
        push_u64(out, self.balance);
        push_u64(out, self.staked);
        push_u64(out, self.unbonding_stake);
        push_u64(out, self.unbonding_unlock_height);
        let ghost mid = out@;
        match &self.unbonding_source {
            None => {
                out.push(0u8);
            },
            Some(t) => {
                out.push(1u8);
                write_text(t.as_str(), out);
            },
        }
        proof {
            assert(out@ =~= mid + maybe_text_code(self@.unbonding_source));
        }
        push_u64(out, self.nonce);
        let ghost last = out@;
        match &self.code {
            None => {
                out.push(0u8);
            },
            Some(b) => {
                out.push(1u8);
                let n: usize = b.len();
                push_counted(out, b.as_slice());
            },
        }
        proof {
            assert(out@ =~= last + maybe_bytes_code(self@.code));
            assert(out@ =~= start + account_code(self@));
        }
    }
}

pub open spec fn status_code(s: StatusModel) -> Seq<u8> {
    match s {
        StatusModel::Unverified => le_bytes(0, 4),
        StatusModel::Pending { attestations, threshold } => le_bytes(1, 4) + (texts_code(
            attestations,
        ) + le_bytes(threshold as nat, 8)),
        StatusModel::Verified { verified_at_height } => le_bytes(2, 4) + le_bytes(
            verified_at_height as nat,
            8,
        ),
        StatusModel::Revoked { reason } => le_bytes(3, 4) + text_code(reason),
    }
}

pub open spec fn status_fits(s: StatusModel) -> bool {
    match s {
        StatusModel::Pending { attestations, threshold } => texts_fit(attestations) && threshold
            <= u64::MAX,
        StatusModel::Revoked { reason } => text_fits(reason),
        _ => true,
    }
}

/// Which variant a status is.
spec fn status_number(s: StatusModel) -> nat {
    match s {
        StatusModel::Unverified => 0,
        StatusModel::Pending { .. } => 1,
        StatusModel::Verified { .. } => 2,
        StatusModel::Revoked { .. } => 3,
    }
}

/// What follows a status's variant.
spec fn status_body(s: StatusModel) -> Seq<u8> {
    match s {
        StatusModel::Unverified => Seq::empty(),
        StatusModel::Pending { attestations, threshold } => texts_code(attestations) + le_bytes(
            threshold as nat,
            8,
        ),
        StatusModel::Verified { verified_at_height } => le_bytes(verified_at_height as nat, 8),
        StatusModel::Revoked { reason } => text_code(reason),
    }
}

proof fn status_ends(a: StatusModel, b: StatusModel, x: Seq<u8>, y: Seq<u8>)
    requires
        status_fits(a),
        status_fits(b),
        status_code(a) + x == status_code(b) + y,
    ensures
        a == b,
        x == y,
{
    le_limits();
    assert(status_code(a) =~= le_bytes(status_number(a), 4) + status_body(a));
    assert(status_code(b) =~= le_bytes(status_number(b), 4) + status_body(b));
    regroup(le_bytes(status_number(a), 4), status_body(a), x);
    regroup(le_bytes(status_number(b), 4), status_body(b), y);
    number_ends(status_number(a), status_number(b), 4, status_body(a) + x, status_body(b) + y);
    match (a, b) {
        (StatusModel::Unverified, StatusModel::Unverified) => {
            assert(status_body(a) + x =~= x);
            assert(status_body(b) + y =~= y);
        },
        (
            StatusModel::Pending { attestations: s, threshold: m },
            StatusModel::Pending { attestations: t, threshold: n },
        ) => {
            regroup(texts_code(s), le_bytes(m as nat, 8), x);
            regroup(texts_code(t), le_bytes(n as nat, 8), y);
            texts_end(s, t, le_bytes(m as nat, 8) + x, le_bytes(n as nat, 8) + y);
            number_ends(m as nat, n as nat, 8, x, y);
        },
        (
            StatusModel::Verified { verified_at_height: m },
            StatusModel::Verified { verified_at_height: n },
        ) => {
            u64_ends(m, n, x, y);
        },
        (StatusModel::Revoked { reason: s }, StatusModel::Revoked { reason: t }) => {
            text_ends(s, t, x, y);
        },
        _ => {},
    }
}

impl Encode for PersonhoodStatus {
    open spec fn code(v: StatusModel) -> Seq<u8> {
        status_code(v)
    }

    open spec fn fits(v: StatusModel) -> bool {
        status_fits(v)
    }

    proof fn code_is_prefix_free(a: StatusModel, b: StatusModel, x: Seq<u8>, y: Seq<u8>) {
        status_ends(a, b, x, y);
    }

    fn write(&self, out: &mut Vec<u8>) {
        let ghost start = out@;
        match self {
            PersonhoodStatus::Unverified => {
                push_u32(out, 0);
            },
            PersonhoodStatus::Pending { attestations, threshold } => {
                push_u32(out, 1);
                write_addresses(attestations, out);
                push_u64(out, *threshold as u64);
            },
            PersonhoodStatus::Verified { verified_at_height } => {
                push_u32(out, 2);
                push_u64(out, *verified_at_height);
            },
            PersonhoodStatus::Revoked { reason } => {
                push_u32(out, 3);
                write_text(reason.as_str(), out);
            },
        }
        proof {
            assert(out@ =~= start + status_code(self@));
        }
    }
}

impl Encode for GuardianSet {
    open spec fn code(v: Seq<Seq<char>>) -> Seq<u8> {
        texts_code(v)
    }

    open spec fn fits(v: Seq<Seq<char>>) -> bool {
        texts_fit(v)
    }

    proof fn code_is_prefix_free(a: Seq<Seq<char>>, b: Seq<Seq<char>>, x: Seq<u8>, y: Seq<u8>) {
        texts_end(a, b, x, y);
    }

    fn write(&self, out: &mut Vec<u8>) {
        write_addresses(&self.guardians, out);
    }
}

pub open spec fn request_code(v: RequestModel) -> Seq<u8> {
    counted(v.new_public_key)
        + (texts_code(v.approvals))
}

pub open spec fn request_fits(v: RequestModel) -> bool {
    &&& v.new_public_key.len() <= u64::MAX
    &&& texts_fit(v.approvals)
}

proof fn request_ends(a: RequestModel, b: RequestModel, x: Seq<u8>, y: Seq<u8>)
    requires
        request_fits(a),
        request_fits(b),
        request_code(a) + x == request_code(b) + y,
    ensures
        a == b,
        x == y,
{
    le_limits();
    let a1 = texts_code(a.approvals);
    let a0 = counted(a.new_public_key) + a1;
    let b1 = texts_code(b.approvals);
    let b0 = counted(b.new_public_key) + b1;
    regroup(counted(a.new_public_key), a1, x);
    regroup(counted(b.new_public_key), b1, y);
    crate::codec::counted_ends(a.new_public_key, b.new_public_key, a1 + x, b1 + y);
    texts_end(a.approvals, b.approvals, x, y);
}

impl Encode for RecoveryRequest {
    open spec fn code(v: RequestModel) -> Seq<u8> {
        request_code(v)
    }

    open spec fn fits(v: RequestModel) -> bool {
        request_fits(v)
    }

    proof fn code_is_prefix_free(a: RequestModel, b: RequestModel, x: Seq<u8>, y: Seq<u8>) {
        request_ends(a, b, x, y);
    }

    fn write(&self, out: &mut Vec<u8>) {
        let ghost start = out@;
        let key = self.new_public_key.as_bytes();
        let n: usize = key.len();
        push_counted(out, key);
        write_addresses(&self.approvals, out);
        proof {
            assert(out@ =~= start + request_code(self@));
        }
    }
}

pub open spec fn proposal_code(v: ProposalModel) -> Seq<u8> {
    le_bytes(v.id as nat, 8)
        + (text_code(v.proposer)
        + (le_bytes(v.param.code() as nat, 4)
        + (le_bytes(v.new_value as nat, 8)
        + (le_bytes(v.created_at_height as nat, 8)
        + (set_code::<String>(v.voters)
        + (le_bytes(v.yes_stake as nat, 8)
        + (le_bytes(v.total_staked_at_creation as nat, 8)
        + (flag_code(v.executed)))))))))
}

pub open spec fn proposal_fits(v: ProposalModel) -> bool {
    &&& text_fits(v.proposer)
    &&& set_fits::<String>(v.voters)
}

proof fn proposal_ends(a: ProposalModel, b: ProposalModel, x: Seq<u8>, y: Seq<u8>)
    requires
        proposal_fits(a),
        proposal_fits(b),
        proposal_code(a) + x == proposal_code(b) + y,
    ensures
        a == b,
        x == y,
{
    le_limits();
    let a8 = flag_code(a.executed);
    let a7 = le_bytes(a.total_staked_at_creation as nat, 8) + a8;
    let a6 = le_bytes(a.yes_stake as nat, 8) + a7;
    let a5 = set_code::<String>(a.voters) + a6;
    let a4 = le_bytes(a.created_at_height as nat, 8) + a5;
    let a3 = le_bytes(a.new_value as nat, 8) + a4;
    let a2 = le_bytes(a.param.code() as nat, 4) + a3;
    let a1 = text_code(a.proposer) + a2;
    let a0 = le_bytes(a.id as nat, 8) + a1;
    let b8 = flag_code(b.executed);
    let b7 = le_bytes(b.total_staked_at_creation as nat, 8) + b8;
    let b6 = le_bytes(b.yes_stake as nat, 8) + b7;
    let b5 = set_code::<String>(b.voters) + b6;
    let b4 = le_bytes(b.created_at_height as nat, 8) + b5;
    let b3 = le_bytes(b.new_value as nat, 8) + b4;
    let b2 = le_bytes(b.param.code() as nat, 4) + b3;
    let b1 = text_code(b.proposer) + b2;
    let b0 = le_bytes(b.id as nat, 8) + b1;
    regroup(le_bytes(a.id as nat, 8), a1, x);
    regroup(le_bytes(b.id as nat, 8), b1, y);
    u64_ends(a.id, b.id, a1 + x, b1 + y);
    regroup(text_code(a.proposer), a2, x);
    regroup(text_code(b.proposer), b2, y);
    text_ends(a.proposer, b.proposer, a2 + x, b2 + y);
    regroup(le_bytes(a.param.code() as nat, 4), a3, x);
    regroup(le_bytes(b.param.code() as nat, 4), b3, y);
    param_ends(a.param, b.param, a3 + x, b3 + y);
    regroup(le_bytes(a.new_value as nat, 8), a4, x);
    regroup(le_bytes(b.new_value as nat, 8), b4, y);
    u64_ends(a.new_value, b.new_value, a4 + x, b4 + y);
    regroup(le_bytes(a.created_at_height as nat, 8), a5, x);
    regroup(le_bytes(b.created_at_height as nat, 8), b5, y);
    u64_ends(a.created_at_height, b.created_at_height, a5 + x, b5 + y);
    regroup(set_code::<String>(a.voters), a6, x);
    regroup(set_code::<String>(b.voters), b6, y);
    set_ends::<String>(a.voters, b.voters, a6 + x, b6 + y);
    regroup(le_bytes(a.yes_stake as nat, 8), a7, x);
    regroup(le_bytes(b.yes_stake as nat, 8), b7, y);
    u64_ends(a.yes_stake, b.yes_stake, a7 + x, b7 + y);
    regroup(le_bytes(a.total_staked_at_creation as nat, 8), a8, x);
    regroup(le_bytes(b.total_staked_at_creation as nat, 8), b8, y);
    u64_ends(a.total_staked_at_creation, b.total_staked_at_creation, a8 + x, b8 + y);
    flag_ends(a.executed, b.executed, x, y);
}

impl Encode for GovernanceProposal {
    open spec fn code(v: ProposalModel) -> Seq<u8> {
        proposal_code(v)
    }

    open spec fn fits(v: ProposalModel) -> bool {
        proposal_fits(v)
    }

    proof fn code_is_prefix_free(a: ProposalModel, b: ProposalModel, x: Seq<u8>, y: Seq<u8>) {
        proposal_ends(a, b, x, y);
    }

    fn write(&self, out: &mut Vec<u8>) {
        let ghost start = out@;
        push_u64(out, self.id);
        write_text(self.proposer.as_str(), out);
        push_u32(out, self.param.to_u8() as u32);
        push_u64(out, self.new_value);
        push_u64(out, self.created_at_height);
        write_set(&self.voters, out);
        push_u64(out, self.yes_stake);
        push_u64(out, self.total_staked_at_creation);
        write_flag(self.executed, out);
        proof {
            assert(out@ =~= start + proposal_code(self@));
        }
    }
}

pub open spec fn pool_code(v: DelegationPool) -> Seq<u8> {
    le_bytes(v.total_shares as nat, 8)
        + (le_bytes(v.total_delegated_stake as nat, 8)
        + (le_bytes(v.commission_bps as nat, 2)))
}

proof fn pool_ends(a: DelegationPool, b: DelegationPool, x: Seq<u8>, y: Seq<u8>)
    requires
        pool_code(a) + x == pool_code(b) + y,
    ensures
        a == b,
        x == y,
{
    le_limits();
    let a2 = le_bytes(a.commission_bps as nat, 2);
    let a1 = le_bytes(a.total_delegated_stake as nat, 8) + a2;
    let a0 = le_bytes(a.total_shares as nat, 8) + a1;
    let b2 = le_bytes(b.commission_bps as nat, 2);
    let b1 = le_bytes(b.total_delegated_stake as nat, 8) + b2;
    let b0 = le_bytes(b.total_shares as nat, 8) + b1;
    regroup(le_bytes(a.total_shares as nat, 8), a1, x);
    regroup(le_bytes(b.total_shares as nat, 8), b1, y);
    u64_ends(a.total_shares, b.total_shares, a1 + x, b1 + y);
    regroup(le_bytes(a.total_delegated_stake as nat, 8), a2, x);
    regroup(le_bytes(b.total_delegated_stake as nat, 8), b2, y);
    u64_ends(a.total_delegated_stake, b.total_delegated_stake, a2 + x, b2 + y);
    number_ends(a.commission_bps as nat, b.commission_bps as nat, 2, x, y);
}

impl Encode for DelegationPool {
    open spec fn code(v: DelegationPool) -> Seq<u8> {
        pool_code(v)
    }

    open spec fn fits(v: DelegationPool) -> bool {
        true
    }

    proof fn code_is_prefix_free(a: DelegationPool, b: DelegationPool, x: Seq<u8>, y: Seq<u8>) {
        pool_ends(a, b, x, y);
    }

    fn write(&self, out: &mut Vec<u8>) {
        let ghost start = out@;
        push_u64(out, self.total_shares);
        push_u64(out, self.total_delegated_stake);
        push_u16(out, self.commission_bps);
        proof {
            assert(out@ =~= start + pool_code(*self));
        }
    }
}

pub open spec fn move_code(v: RedelegationModel) -> Seq<u8> {
    text_code(v.delegator)
        + (text_code(v.dst)
        + (le_bytes(v.amount as nat, 8)
        + (le_bytes(v.unlock_height as nat, 8))))
}

pub open spec fn move_fits(v: RedelegationModel) -> bool {
    &&& text_fits(v.delegator)
    &&& text_fits(v.dst)
}

proof fn move_ends(a: RedelegationModel, b: RedelegationModel, x: Seq<u8>, y: Seq<u8>)
    requires
        move_fits(a),
        move_fits(b),
        move_code(a) + x == move_code(b) + y,
    ensures
        a == b,
        x == y,
{
    le_limits();
    let a3 = le_bytes(a.unlock_height as nat, 8);
    let a2 = le_bytes(a.amount as nat, 8) + a3;
    let a1 = text_code(a.dst) + a2;
    let a0 = text_code(a.delegator) + a1;
    let b3 = le_bytes(b.unlock_height as nat, 8);
    let b2 = le_bytes(b.amount as nat, 8) + b3;
    let b1 = text_code(b.dst) + b2;
    let b0 = text_code(b.delegator) + b1;
    regroup(text_code(a.delegator), a1, x);
    regroup(text_code(b.delegator), b1, y);
    text_ends(a.delegator, b.delegator, a1 + x, b1 + y);
    regroup(text_code(a.dst), a2, x);
    regroup(text_code(b.dst), b2, y);
    text_ends(a.dst, b.dst, a2 + x, b2 + y);
    regroup(le_bytes(a.amount as nat, 8), a3, x);
    regroup(le_bytes(b.amount as nat, 8), b3, y);
    u64_ends(a.amount, b.amount, a3 + x, b3 + y);
    u64_ends(a.unlock_height, b.unlock_height, x, y);
}

proof fn moves_end(
    a: Seq<RedelegationModel>,
    b: Seq<RedelegationModel>,
    x: Seq<u8>,
    y: Seq<u8>,
)
    requires
        list_fits(a, |e: RedelegationModel| move_fits(e)),
        list_fits(b, |e: RedelegationModel| move_fits(e)),
        list_code(a, |e: RedelegationModel| move_code(e)) + x == list_code(
            b,
            |e: RedelegationModel| move_code(e),
        ) + y,
    ensures
        a == b,
        x == y,
{
    let code = |e: RedelegationModel| move_code(e);
    let sound = |e: RedelegationModel| move_fits(e);
    assert(prefix_free(code, sound)) by {
        assert forall|s: RedelegationModel, t: RedelegationModel, x: Seq<u8>, y: Seq<u8>|
            sound(s) && sound(t) && #[trigger] (code(s) + x) == #[trigger] (code(t) + y) implies s
            == t && x == y by {
            move_ends(s, t, x, y);
        }
    }
    list_ends(a, b, code, sound, x, y);
}

impl Encode for RedelegationList {
    open spec fn code(v: Seq<RedelegationModel>) -> Seq<u8> {
        list_code(v, |e: RedelegationModel| move_code(e))
    }

    open spec fn fits(v: Seq<RedelegationModel>) -> bool {
        list_fits(v, |e: RedelegationModel| move_fits(e))
    }

    proof fn code_is_prefix_free(
        a: Seq<RedelegationModel>,
        b: Seq<RedelegationModel>,
        x: Seq<u8>,
        y: Seq<u8>,
    ) {
        moves_end(a, b, x, y);
    }

    fn write(&self, out: &mut Vec<u8>) {
        let ghost start = out@;
        let ghost all = self@;
        let ghost code = |e: RedelegationModel| move_code(e);
        push_u64(out, self.entries.len() as u64);
        let ghost head = out@;
        let mut i: usize = 0;
        proof {
            assert(all.take(0) =~= Seq::empty());
            assert(head + items_code(all.take(0), code) =~= head);
        }
        while i < self.entries.len()
            invariant
                i <= self.entries@.len(),
                all == redelegation_models(self.entries@),
                code == (|e: RedelegationModel| move_code(e)),
                out@ == head + items_code(all.take(i as int), code),
                forall|k: int| 0 <= k < i ==> move_fits(#[trigger] all[k]),
            decreases self.entries.len() - i,
        {
            let ghost before = out@;
            let e = &self.entries[i];
            write_text(e.delegator.as_str(), out);
            write_text(e.dst.as_str(), out);
            push_u64(out, e.amount);
            push_u64(out, e.unlock_height);
            proof {
                assert(out@ =~= before + move_code(e@));
                items_code_step(all, code, i as int);
                assert(all[i as int] == e@);
                assert(out@ =~= head + items_code(all.take(i + 1), code));
            }
            i = i + 1;
        }
        proof {
            assert(all.take(i as int) =~= all);
            assert(out@ =~= start + list_code(all, code));
        }
    }
}

/// The authorities' keys as a set: their order in the configuration does not matter.
pub open spec fn authority_set(s: StateModel) -> Set<Seq<u8>> {
    s.personhood_authorities.to_set()
}

/// The genesis balances by address; a later one for an address overrides an earlier.
pub open spec fn allocation_map(s: StateModel) -> Map<Seq<char>, u64> {
    map_of(s.genesis_allocations)
}

/// The first part of the byte form of a state: accounts, supply, names and identities.
pub open spec fn ledger_code(v: StateModel) -> Seq<u8> {
    table_code::<String, AccountState>(v.accounts)
        + (le_bytes(v.total_supply as nat, 8)
        + (le_bytes(v.total_issued as nat, 8)
        + (le_bytes(v.total_burned as nat, 8)
        + (table_code::<String, String>(v.names)
        + (table_code::<String, PersonhoodStatus>(v.personhood)
        + (table_code::<String, GuardianSet>(v.guardians)
        + (table_code::<String, RecoveryRequest>(v.recovery_requests)
        + (table_code::<String, PublicKey>(v.recovery_keys)))))))))
}

pub open spec fn ledger_fits(v: StateModel) -> bool {
    &&& table_fits::<String, AccountState>(v.accounts)
    &&& table_fits::<String, String>(v.names)
    &&& table_fits::<String, PersonhoodStatus>(v.personhood)
    &&& table_fits::<String, GuardianSet>(v.guardians)
    &&& table_fits::<String, RecoveryRequest>(v.recovery_requests)
    &&& table_fits::<String, PublicKey>(v.recovery_keys)
}

proof fn ledger_ends(a: StateModel, b: StateModel, x: Seq<u8>, y: Seq<u8>)
    requires
        ledger_fits(a),
        ledger_fits(b),
        ledger_code(a) + x == ledger_code(b) + y,
    ensures
        a.accounts == b.accounts,
        a.total_supply == b.total_supply,
        a.total_issued == b.total_issued,
        a.total_burned == b.total_burned,
        a.names == b.names,
        a.personhood == b.personhood,
        a.guardians == b.guardians,
        a.recovery_requests == b.recovery_requests,
        a.recovery_keys == b.recovery_keys,
        x == y,
{
    le_limits();
    let a8 = table_code::<String, PublicKey>(a.recovery_keys);
    let a7 = table_code::<String, RecoveryRequest>(a.recovery_requests) + a8;
    let a6 = table_code::<String, GuardianSet>(a.guardians) + a7;
    let a5 = table_code::<String, PersonhoodStatus>(a.personhood) + a6;
    let a4 = table_code::<String, String>(a.names) + a5;
    let a3 = le_bytes(a.total_burned as nat, 8) + a4;
    let a2 = le_bytes(a.total_issued as nat, 8) + a3;
    let a1 = le_bytes(a.total_supply as nat, 8) + a2;
    let a0 = table_code::<String, AccountState>(a.accounts) + a1;
    let b8 = table_code::<String, PublicKey>(b.recovery_keys);
    let b7 = table_code::<String, RecoveryRequest>(b.recovery_requests) + b8;
    let b6 = table_code::<String, GuardianSet>(b.guardians) + b7;
    let b5 = table_code::<String, PersonhoodStatus>(b.personhood) + b6;
    let b4 = table_code::<String, String>(b.names) + b5;
    let b3 = le_bytes(b.total_burned as nat, 8) + b4;
    let b2 = le_bytes(b.total_issued as nat, 8) + b3;
    let b1 = le_bytes(b.total_supply as nat, 8) + b2;
    let b0 = table_code::<String, AccountState>(b.accounts) + b1;
    regroup(table_code::<String, AccountState>(a.accounts), a1, x);
    regroup(table_code::<String, AccountState>(b.accounts), b1, y);
    table_ends::<String, AccountState>(a.accounts, b.accounts, a1 + x, b1 + y);
    regroup(le_bytes(a.total_supply as nat, 8), a2, x);
    regroup(le_bytes(b.total_supply as nat, 8), b2, y);
    u64_ends(a.total_supply, b.total_supply, a2 + x, b2 + y);
    regroup(le_bytes(a.total_issued as nat, 8), a3, x);
    regroup(le_bytes(b.total_issued as nat, 8), b3, y);
    u64_ends(a.total_issued, b.total_issued, a3 + x, b3 + y);
    regroup(le_bytes(a.total_burned as nat, 8), a4, x);
    regroup(le_bytes(b.total_burned as nat, 8), b4, y);
    u64_ends(a.total_burned, b.total_burned, a4 + x, b4 + y);
    regroup(table_code::<String, String>(a.names), a5, x);
    regroup(table_code::<String, String>(b.names), b5, y);
    table_ends::<String, String>(a.names, b.names, a5 + x, b5 + y);
    regroup(table_code::<String, PersonhoodStatus>(a.personhood), a6, x);
    regroup(table_code::<String, PersonhoodStatus>(b.personhood), b6, y);
    table_ends::<String, PersonhoodStatus>(a.personhood, b.personhood, a6 + x, b6 + y);
    regroup(table_code::<String, GuardianSet>(a.guardians), a7, x);
    regroup(table_code::<String, GuardianSet>(b.guardians), b7, y);
    table_ends::<String, GuardianSet>(a.guardians, b.guardians, a7 + x, b7 + y);
    regroup(table_code::<String, RecoveryRequest>(a.recovery_requests), a8, x);
    regroup(table_code::<String, RecoveryRequest>(b.recovery_requests), b8, y);
    table_ends::<String, RecoveryRequest>(a.recovery_requests, b.recovery_requests, a8 + x, b8 + y);
    table_ends::<String, PublicKey>(a.recovery_keys, b.recovery_keys, x, y);
}

/// The second part: governance, and what must not happen twice.
pub open spec fn governance_code(v: StateModel) -> Seq<u8> {
    le_bytes(v.governance_params.min_validator_stake as nat, 8)
        + (le_bytes(v.governance_params.fuel_per_fee_unit as nat, 8)
        + (table_code::<u64, GovernanceProposal>(v.proposals)
        + (le_bytes(v.next_proposal_id as nat, 8)
        + (set_code::<[u8; 16]>(v.used_personhood_commitments)
        + (set_code::<String>(v.slashed_double_sign_incidents)
        + (set_code::<Vec<u8>>(authority_set(v))))))))
}

pub open spec fn governance_fits(v: StateModel) -> bool {
    &&& table_fits::<u64, GovernanceProposal>(v.proposals)
    &&& set_fits::<[u8; 16]>(v.used_personhood_commitments)
    &&& set_fits::<String>(v.slashed_double_sign_incidents)
    &&& set_fits::<Vec<u8>>(authority_set(v))
}

proof fn governance_ends(a: StateModel, b: StateModel, x: Seq<u8>, y: Seq<u8>)
    requires
        governance_fits(a),
        governance_fits(b),
        governance_code(a) + x == governance_code(b) + y,
    ensures
        a.governance_params == b.governance_params,
        a.proposals == b.proposals,
        a.next_proposal_id == b.next_proposal_id,
        a.used_personhood_commitments == b.used_personhood_commitments,
        a.slashed_double_sign_incidents == b.slashed_double_sign_incidents,
        authority_set(a) == authority_set(b),
        x == y,
{
    le_limits();
    let a6 = set_code::<Vec<u8>>(authority_set(a));
    let a5 = set_code::<String>(a.slashed_double_sign_incidents) + a6;
    let a4 = set_code::<[u8; 16]>(a.used_personhood_commitments) + a5;
    let a3 = le_bytes(a.next_proposal_id as nat, 8) + a4;
    let a2 = table_code::<u64, GovernanceProposal>(a.proposals) + a3;
    let a1 = le_bytes(a.governance_params.fuel_per_fee_unit as nat, 8) + a2;
    let a0 = le_bytes(a.governance_params.min_validator_stake as nat, 8) + a1;
    let b6 = set_code::<Vec<u8>>(authority_set(b));
    let b5 = set_code::<String>(b.slashed_double_sign_incidents) + b6;
    let b4 = set_code::<[u8; 16]>(b.used_personhood_commitments) + b5;
    let b3 = le_bytes(b.next_proposal_id as nat, 8) + b4;
    let b2 = table_code::<u64, GovernanceProposal>(b.proposals) + b3;
    let b1 = le_bytes(b.governance_params.fuel_per_fee_unit as nat, 8) + b2;
    let b0 = le_bytes(b.governance_params.min_validator_stake as nat, 8) + b1;
    regroup(le_bytes(a.governance_params.min_validator_stake as nat, 8), a1, x);
    regroup(le_bytes(b.governance_params.min_validator_stake as nat, 8), b1, y);
    u64_ends(a.governance_params.min_validator_stake, b.governance_params.min_validator_stake, a1 + x, b1 + y);
    regroup(le_bytes(a.governance_params.fuel_per_fee_unit as nat, 8), a2, x);
    regroup(le_bytes(b.governance_params.fuel_per_fee_unit as nat, 8), b2, y);
    u64_ends(a.governance_params.fuel_per_fee_unit, b.governance_params.fuel_per_fee_unit, a2 + x, b2 + y);
    regroup(table_code::<u64, GovernanceProposal>(a.proposals), a3, x);
    regroup(table_code::<u64, GovernanceProposal>(b.proposals), b3, y);
    table_ends::<u64, GovernanceProposal>(a.proposals, b.proposals, a3 + x, b3 + y);
    regroup(le_bytes(a.next_proposal_id as nat, 8), a4, x);
    regroup(le_bytes(b.next_proposal_id as nat, 8), b4, y);
    u64_ends(a.next_proposal_id, b.next_proposal_id, a4 + x, b4 + y);
    regroup(set_code::<[u8; 16]>(a.used_personhood_commitments), a5, x);
    regroup(set_code::<[u8; 16]>(b.used_personhood_commitments), b5, y);
    set_ends::<[u8; 16]>(
        a.used_personhood_commitments,
        b.used_personhood_commitments,
        a5 + x,
        b5 + y,
    );
    regroup(set_code::<String>(a.slashed_double_sign_incidents), a6, x);
    regroup(set_code::<String>(b.slashed_double_sign_incidents), b6, y);
    set_ends::<String>(
        a.slashed_double_sign_incidents,
        b.slashed_double_sign_incidents,
        a6 + x,
        b6 + y,
    );
    set_ends::<Vec<u8>>(authority_set(a), authority_set(b), x, y);
}

/// The third part: delegation, contracts, genesis and the validators' tiers. The
/// active set is left out: it can be derived, and what it leads to is written.
pub open spec fn validator_code(v: StateModel) -> Seq<u8> {
    table_code::<String, DelegationPool>(v.validator_pools)
        + (table_code::<String, Table<String, u64>>(v.delegator_shares)
        + (table_code::<String, RedelegationList>(v.redelegations)
        + (table_code::<String, Table<Vec<u8>, Vec<u8>>>(v.contract_storage)
        + (le_bytes(v.genesis_validator_stake as nat, 8)
        + (table_code::<String, u64>(allocation_map(v))
        + (set_code::<Address>(v.pending_validators)
        + (set_code::<Address>(v.probationary_validators)
        + (set_code::<Address>(v.probation_seen)
        + (table_code::<String, u32>(v.missed_blocks)
        + (table_code::<String, u64>(v.jailed_until)))))))))))
}

pub open spec fn validator_fits(v: StateModel) -> bool {
    &&& table_fits::<String, DelegationPool>(v.validator_pools)
    &&& table_fits::<String, Table<String, u64>>(v.delegator_shares)
    &&& table_fits::<String, RedelegationList>(v.redelegations)
    &&& table_fits::<String, Table<Vec<u8>, Vec<u8>>>(v.contract_storage)
    &&& table_fits::<String, u64>(allocation_map(v))
    &&& set_fits::<Address>(v.pending_validators)
    &&& set_fits::<Address>(v.probationary_validators)
    &&& set_fits::<Address>(v.probation_seen)
    &&& table_fits::<String, u32>(v.missed_blocks)
    &&& table_fits::<String, u64>(v.jailed_until)
}

proof fn validator_ends(a: StateModel, b: StateModel, x: Seq<u8>, y: Seq<u8>)
    requires
        validator_fits(a),
        validator_fits(b),
        validator_code(a) + x == validator_code(b) + y,
    ensures
        a.validator_pools == b.validator_pools,
        a.delegator_shares == b.delegator_shares,
        a.redelegations == b.redelegations,
        a.contract_storage == b.contract_storage,
        a.genesis_validator_stake == b.genesis_validator_stake,
        allocation_map(a) == allocation_map(b),
        a.pending_validators == b.pending_validators,
        a.probationary_validators == b.probationary_validators,
        a.probation_seen == b.probation_seen,
        a.missed_blocks == b.missed_blocks,
        a.jailed_until == b.jailed_until,
        x == y,
{
    le_limits();
    let a10 = table_code::<String, u64>(a.jailed_until);
    let a9 = table_code::<String, u32>(a.missed_blocks) + a10;
    let a8 = set_code::<Address>(a.probation_seen) + a9;
    let a7 = set_code::<Address>(a.probationary_validators) + a8;
    let a6 = set_code::<Address>(a.pending_validators) + a7;
    let a5 = table_code::<String, u64>(allocation_map(a)) + a6;
    let a4 = le_bytes(a.genesis_validator_stake as nat, 8) + a5;
    let a3 = table_code::<String, Table<Vec<u8>, Vec<u8>>>(a.contract_storage) + a4;
    let a2 = table_code::<String, RedelegationList>(a.redelegations) + a3;
    let a1 = table_code::<String, Table<String, u64>>(a.delegator_shares) + a2;
    let a0 = table_code::<String, DelegationPool>(a.validator_pools) + a1;
    let b10 = table_code::<String, u64>(b.jailed_until);
    let b9 = table_code::<String, u32>(b.missed_blocks) + b10;
    let b8 = set_code::<Address>(b.probation_seen) + b9;
    let b7 = set_code::<Address>(b.probationary_validators) + b8;
    let b6 = set_code::<Address>(b.pending_validators) + b7;
    let b5 = table_code::<String, u64>(allocation_map(b)) + b6;
    let b4 = le_bytes(b.genesis_validator_stake as nat, 8) + b5;
    let b3 = table_code::<String, Table<Vec<u8>, Vec<u8>>>(b.contract_storage) + b4;
    let b2 = table_code::<String, RedelegationList>(b.redelegations) + b3;
    let b1 = table_code::<String, Table<String, u64>>(b.delegator_shares) + b2;
    let b0 = table_code::<String, DelegationPool>(b.validator_pools) + b1;
    regroup(table_code::<String, DelegationPool>(a.validator_pools), a1, x);
    regroup(table_code::<String, DelegationPool>(b.validator_pools), b1, y);
    table_ends::<String, DelegationPool>(a.validator_pools, b.validator_pools, a1 + x, b1 + y);
    regroup(table_code::<String, Table<String, u64>>(a.delegator_shares), a2, x);
    regroup(table_code::<String, Table<String, u64>>(b.delegator_shares), b2, y);
    table_ends::<String, Table<String, u64>>(
        a.delegator_shares,
        b.delegator_shares,
        a2 + x,
        b2 + y,
    );
    regroup(table_code::<String, RedelegationList>(a.redelegations), a3, x);
    regroup(table_code::<String, RedelegationList>(b.redelegations), b3, y);
    table_ends::<String, RedelegationList>(a.redelegations, b.redelegations, a3 + x, b3 + y);
    regroup(table_code::<String, Table<Vec<u8>, Vec<u8>>>(a.contract_storage), a4, x);
    regroup(table_code::<String, Table<Vec<u8>, Vec<u8>>>(b.contract_storage), b4, y);
    table_ends::<String, Table<Vec<u8>, Vec<u8>>>(
        a.contract_storage,
        b.contract_storage,
        a4 + x,
        b4 + y,
    );
    regroup(le_bytes(a.genesis_validator_stake as nat, 8), a5, x);
    regroup(le_bytes(b.genesis_validator_stake as nat, 8), b5, y);
    u64_ends(a.genesis_validator_stake, b.genesis_validator_stake, a5 + x, b5 + y);
    regroup(table_code::<String, u64>(allocation_map(a)), a6, x);
    regroup(table_code::<String, u64>(allocation_map(b)), b6, y);
    table_ends::<String, u64>(allocation_map(a), allocation_map(b), a6 + x, b6 + y);
    regroup(set_code::<Address>(a.pending_validators), a7, x);
    regroup(set_code::<Address>(b.pending_validators), b7, y);
    set_ends::<Address>(a.pending_validators, b.pending_validators, a7 + x, b7 + y);
    regroup(set_code::<Address>(a.probationary_validators), a8, x);
    regroup(set_code::<Address>(b.probationary_validators), b8, y);
    set_ends::<Address>(a.probationary_validators, b.probationary_validators, a8 + x, b8 + y);
    regroup(set_code::<Address>(a.probation_seen), a9, x);
    regroup(set_code::<Address>(b.probation_seen), b9, y);
    set_ends::<Address>(a.probation_seen, b.probation_seen, a9 + x, b9 + y);
    regroup(table_code::<String, u32>(a.missed_blocks), a10, x);
    regroup(table_code::<String, u32>(b.missed_blocks), b10, y);
    table_ends::<String, u32>(a.missed_blocks, b.missed_blocks, a10 + x, b10 + y);
    table_ends::<String, u64>(a.jailed_until, b.jailed_until, x, y);
}

/// The byte form of a state.
pub open spec fn state_code(s: StateModel) -> Seq<u8> {
    ledger_code(s) + (governance_code(s) + validator_code(s))
}

/// No length in the state is out of range. Every state that a node holds is so.
pub open spec fn state_fits(s: StateModel) -> bool {
    ledger_fits(s) && governance_fits(s) && validator_fits(s)
}

/// The states agree in everything that carries value or decides what blocks do.
/// They may differ in the chain's label, the height they stand at, the active
/// validators and the order of what is only ever used as a set.
pub open spec fn same_contents(a: StateModel, b: StateModel) -> bool {
    &&& a.accounts == b.accounts
    &&& a.total_supply == b.total_supply
    &&& a.total_issued == b.total_issued
    &&& a.total_burned == b.total_burned
    &&& a.names == b.names
    &&& a.personhood == b.personhood
    &&& a.guardians == b.guardians
    &&& a.recovery_requests == b.recovery_requests
    &&& a.recovery_keys == b.recovery_keys
    &&& a.governance_params == b.governance_params
    &&& a.proposals == b.proposals
    &&& a.next_proposal_id == b.next_proposal_id
    &&& a.used_personhood_commitments == b.used_personhood_commitments
    &&& a.slashed_double_sign_incidents == b.slashed_double_sign_incidents
    &&& authority_set(a) == authority_set(b)
    &&& a.validator_pools == b.validator_pools
    &&& a.delegator_shares == b.delegator_shares
    &&& a.redelegations == b.redelegations
    &&& a.contract_storage == b.contract_storage
    &&& a.genesis_validator_stake == b.genesis_validator_stake
    &&& allocation_map(a) == allocation_map(b)
    &&& a.pending_validators == b.pending_validators
    &&& a.probationary_validators == b.probationary_validators
    &&& a.probation_seen == b.probation_seen
    &&& a.missed_blocks == b.missed_blocks
    &&& a.jailed_until == b.jailed_until
}

fn key_set(list: &Vec<PublicKey>) -> (r: KeySet<Vec<u8>>)
    ensures
        r@ == key_bytes(list@).to_set(),
{
    let ghost keys = key_bytes(list@);
    let mut set: KeySet<Vec<u8>> = KeySet::new();
    let mut i: usize = 0;
    proof {
        assert(keys.take(0).to_set() =~= Set::empty());
    }
    while i < list.len()
        invariant
            i <= list@.len(),
            keys == key_bytes(list@),
            set@ == keys.take(i as int).to_set(),
        decreases list.len() - i,
    {
        set.insert(vstd::slice::slice_to_vec(list[i].as_bytes()));
        proof {
            assert(keys.take(i + 1) =~= keys.take(i as int).push(keys[i as int]));
            keys.take(i as int).lemma_push_to_set_commute(keys[i as int]);
        }
        i = i + 1;
    }
    proof {
        assert(keys.take(i as int) =~= keys);
    }
    set
}

fn allocation_table(list: &Vec<(Address, u64)>) -> (r: Table<String, u64>)
    ensures
        r@ == map_of(funded(list@)),
{
    let ghost all = funded(list@);
    let mut table: Table<String, u64> = Table::new();
    let mut i: usize = 0;
    proof {
        assert(all.take(0) =~= Seq::empty());
    }
    while i < list.len()
        invariant
            i <= list@.len(),
            all == funded(list@),
            table@ == map_of(all.take(i as int)),
        decreases list.len() - i,
    {
        table.insert(list[i].0.to_string(), list[i].1);
        proof {
            assert(all.take(i + 1).drop_last() =~= all.take(i as int));
            assert(all.take(i + 1).last() == all[i as int]);
        }
        i = i + 1;
    }
    proof {
        assert(all.take(i as int) =~= all);
    }
    table
}

impl ChainState {
    fn write_ledger(&self, out: &mut Vec<u8>)
        ensures
            final(out)@ == old(out)@ + ledger_code(self@),
            ledger_fits(self@),
    {
        let ghost start = out@;
        self.accounts.write(out);
        let ghost p1 = out@;
        push_u64(out, self.total_supply);
        let ghost p2 = out@;
        push_u64(out, self.total_issued);
        let ghost p3 = out@;
        push_u64(out, self.total_burned);
        let ghost p4 = out@;
        self.names.write(out);
        let ghost p5 = out@;
        self.personhood.write(out);
        let ghost p6 = out@;
        self.guardians.write(out);
        let ghost p7 = out@;
        self.recovery_requests.write(out);
        let ghost p8 = out@;
        self.recovery_keys.write(out);
        proof {
            let s = self@;
            let t9 = table_code::<String, PublicKey>(s.recovery_keys);
            let t8 = table_code::<String, RecoveryRequest>(s.recovery_requests) + t9;
            let t7 = table_code::<String, GuardianSet>(s.guardians) + t8;
            let t6 = table_code::<String, PersonhoodStatus>(s.personhood) + t7;
            let t5 = table_code::<String, String>(s.names) + t6;
            let t4 = le_bytes(s.total_burned as nat, 8) + t5;
            let t3 = le_bytes(s.total_issued as nat, 8) + t4;
            let t2 = le_bytes(s.total_supply as nat, 8) + t3;
            let t1 = table_code::<String, AccountState>(s.accounts) + t2;
            regroup(p7, table_code::<String, RecoveryRequest>(s.recovery_requests), t9);
            regroup(p6, table_code::<String, GuardianSet>(s.guardians), t8);
            regroup(p5, table_code::<String, PersonhoodStatus>(s.personhood), t7);
            regroup(p4, table_code::<String, String>(s.names), t6);
            regroup(p3, le_bytes(s.total_burned as nat, 8), t5);
            regroup(p2, le_bytes(s.total_issued as nat, 8), t4);
            regroup(p1, le_bytes(s.total_supply as nat, 8), t3);
            regroup(start, table_code::<String, AccountState>(s.accounts), t2);
        }
    }

    #[verifier::rlimit(30)]
    fn write_governance(&self, out: &mut Vec<u8>)
        ensures
            final(out)@ == old(out)@ + governance_code(self@),
            governance_fits(self@),
    {
        let ghost start = out@;
        push_u64(out, self.governance_params.min_validator_stake);
        push_u64(out, self.governance_params.fuel_per_fee_unit);
        self.proposals.write(out);
        push_u64(out, self.next_proposal_id);
        write_set(&self.used_personhood_commitments, out);
        write_set(&self.slashed_double_sign_incidents, out);
        let authorities = key_set(&self.personhood_authorities);
        write_set(&authorities, out);
        proof {
            assert(out@ =~= start + governance_code(self@));
        }
    }

    fn write_validators(&self, out: &mut Vec<u8>)
        ensures
            final(out)@ == old(out)@ + validator_code(self@),
            validator_fits(self@),
    {
        let ghost start = out@;
        self.validator_pools.write(out);
        let ghost p1 = out@;
        self.delegator_shares.write(out);
        let ghost p2 = out@;
        self.redelegations.write(out);
        let ghost p3 = out@;
        self.contract_storage.write(out);
        let ghost p4 = out@;
        push_u64(out, self.genesis_validator_stake);
        let ghost p5 = out@;
        let allocations = allocation_table(&self.genesis_allocations);
        allocations.write(out);
        let ghost p6 = out@;
        write_set(&self.pending_validators, out);
        let ghost p7 = out@;
        write_set(&self.probationary_validators, out);
        let ghost p8 = out@;
        write_set(&self.probation_seen, out);
        let ghost p9 = out@;
        self.missed_blocks.write(out);
        let ghost p10 = out@;
        self.jailed_until.write(out);
        proof {
            let s = self@;
            let t11 = table_code::<String, u64>(s.jailed_until);
            let t10 = table_code::<String, u32>(s.missed_blocks) + t11;
            let t9 = set_code::<Address>(s.probation_seen) + t10;
            let t8 = set_code::<Address>(s.probationary_validators) + t9;
            let t7 = set_code::<Address>(s.pending_validators) + t8;
            let t6 = table_code::<String, u64>(allocation_map(s)) + t7;
            let t5 = le_bytes(s.genesis_validator_stake as nat, 8) + t6;
            let t4 = table_code::<String, Table<Vec<u8>, Vec<u8>>>(s.contract_storage) + t5;
            let t3 = table_code::<String, RedelegationList>(s.redelegations) + t4;
            let t2 = table_code::<String, Table<String, u64>>(s.delegator_shares) + t3;
            let t1 = table_code::<String, DelegationPool>(s.validator_pools) + t2;
            regroup(p9, table_code::<String, u32>(s.missed_blocks), t11);
            regroup(p8, set_code::<Address>(s.probation_seen), t10);
            regroup(p7, set_code::<Address>(s.probationary_validators), t9);
            regroup(p6, set_code::<Address>(s.pending_validators), t8);
            regroup(p5, table_code::<String, u64>(allocation_map(s)), t7);
            regroup(p4, le_bytes(s.genesis_validator_stake as nat, 8), t6);
            regroup(p3, table_code::<String, Table<Vec<u8>, Vec<u8>>>(s.contract_storage), t5);
            regroup(p2, table_code::<String, RedelegationList>(s.redelegations), t4);
            regroup(p1, table_code::<String, Table<String, u64>>(s.delegator_shares), t3);
            regroup(start, table_code::<String, DelegationPool>(s.validator_pools), t2);
        }
    }

    /// The byte form of the state.
    pub fn canonical_bytes(&self) -> (r: Vec<u8>)
        ensures
            r@ == state_code(self@),
            state_fits(self@),
    {
        let mut out: Vec<u8> = Vec::new();
        self.write_ledger(&mut out);
        self.write_governance(&mut out);
        self.write_validators(&mut out);
        proof {
            assert(out@ =~= state_code(self@));
        }
        out
    }

    /// A hash of the state, by which two nodes can tell whether they agree.
    pub fn state_hash(&self) -> (r: Digest)
        ensures
            r@ == blake3_hash(state_code(self@)),
            state_fits(self@),
    {
        let bytes = self.canonical_bytes();
        Digest::digest(bytes.as_slice())
    }
}

/// Two states have the same byte form exactly if they agree in everything that
/// counts: nothing that counts fails to reach the hash, and nothing else does.
pub proof fn bytes_tell_states_apart(a: StateModel, b: StateModel)
    requires
        state_fits(a),
        state_fits(b),
    ensures
        state_code(a) == state_code(b) <==> same_contents(a, b),
{
    if state_code(a) == state_code(b) {
        let none = Seq::<u8>::empty();
        let p = governance_code(a) + validator_code(a);
        let q = governance_code(b) + validator_code(b);
        ledger_ends(a, b, p, q);
        governance_ends(a, b, validator_code(a), validator_code(b));
        assert(validator_code(a) + none =~= validator_code(a));
        assert(validator_code(b) + none =~= validator_code(b));
        validator_ends(a, b, none, none);
    }
}

/// What only labels or speeds up a state is not part of its byte form.
pub proof fn labels_are_not_hashed(
    s: StateModel,
    chain_id: Seq<u8>,
    active: Set<Seq<char>>,
    height: u64,
)
    ensures
        state_code(
            (StateModel { chain_id, active_validators: active, applied_height: height, ..s }),
        ) == state_code(s),
{
}

} // verus!
