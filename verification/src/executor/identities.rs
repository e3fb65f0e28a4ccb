//! Names, guardians and recovery.
use crate::crypto::address::address_fault;
use crate::crypto::keys::valid_key_shape;
use crate::crypto::{Address, PublicKey};
use crate::executor::payments::{can_charge, charge_sender, charged, settles};
use crate::executor::state::{ChainState, StateModel};
use crate::executor::value::books_keep_wf;
use crate::identity::name::{name_fault, without_suffix, HelixName};
use crate::identity::personhood::address_texts;
use crate::identity::recovery::{
    guardian_fault, quorum_of, GuardianSet, RecoveryError, RecoveryRequest, RequestModel,
};
use crate::text::{joined2, lines_of, split_lines, texts, utf8_text};
use crate::transaction::Transaction;
use vstd::prelude::*;

verus! {

/// The name that a transaction's payload spells, without `.hlx`.
pub open spec fn payload_name(tx: Transaction) -> Seq<char> {
    without_suffix(vstd::utf8::decode_utf8(tx.data@))
}

/// Why registering a name is refused.
pub open spec fn registration_fault(s: StateModel, tx: Transaction) -> Option<Seq<char>> {
    if !vstd::utf8::valid_utf8(tx.data@) {
        Some("name payload is not valid UTF-8"@)
    } else {
        match name_fault(payload_name(tx)) {
            Some(e) => Some("invalid name: "@ + e.words()),
            None => if s.names.contains_key(payload_name(tx)) {
                Some("name already registered"@)
            } else {
                None
            },
        }
    }
}

/// A name belongs to an address.
pub open spec fn name_taken(s: StateModel, name: Seq<char>, owner: Seq<char>) -> StateModel {
    StateModel { names: s.names.insert(name, owner), ..s }
}

pub fn execute_register_name(state: &mut ChainState, tx: &Transaction) -> (r: Result<(), String>)
    requires
        can_charge(old(state)@, *tx),
    ensures
        settles(
            old(state)@,
            final(state)@,
            registration_fault(old(state)@, *tx),
            name_taken(charged(old(state)@, *tx), payload_name(*tx), tx.from@),
            r,
        ),
        r is Ok ==> final(state)@.wf() && final(state)@.wealth() + tx.fee == old(state)@.wealth(),
{
    let raw = match utf8_text(tx.data.as_slice()) {
        Some(t) => t,
        None => {
            return Err("name payload is not valid UTF-8".to_owned());
        },
    };
    let name = match HelixName::new(raw.as_str()) {
        Ok(n) => n,
        Err(e) => {
            let words = e.message();
            return Err(joined2("invalid name: ", words.as_str()));
        },
    };
    if state.resolve_name(name.as_str()).is_some() {
        return Err("name already registered".to_owned());
    }
    charge_sender(state, tx);
    let ghost before = state@;
    state.names.insert(name.as_str().to_owned(), tx.from.to_string());
    proof {
        books_keep_wf(before, state@);
    }
    Ok(())
}

/// Attestation by acquaintances is no longer taken as proof of personhood.
pub open spec fn identity_refusal() -> Seq<char> {
    "RegisterIdentity (social-graph attestation) is disabled; personhood verification requires an authority-signed ZK proof via ProvePersonhood"@
}

pub fn execute_register_identity() -> (r: Result<(), String>)
    ensures
        r is Err,
        r->Err_0@ == identity_refusal(),
{
    Err(
        "RegisterIdentity (social-graph attestation) is disabled; personhood verification requires an authority-signed ZK proof via ProvePersonhood".to_owned(),
    )
}

/// The addresses in a list of lines, or what is wrong with the first that is
/// none. Empty lines do not count.
pub open spec fn addresses_in(lines: Seq<Seq<char>>) -> Result<Seq<Seq<char>>, Seq<char>>
    decreases lines.len(),
{
    if lines.len() == 0 {
        Ok(Seq::empty())
    } else {
        match addresses_in(lines.drop_last()) {
            Err(e) => Err(e),
            Ok(list) => if lines.last().len() == 0 {
                Ok(list)
            } else {
                match address_fault(lines.last()) {
                    Some(f) => Err(f.words()),
                    None => Ok(list.push(lines.last())),
                }
            },
        }
    }
}

proof fn first_fault_stays(lines: Seq<Seq<char>>, i: int)
    requires
        0 <= i <= lines.len(),
        addresses_in(lines.take(i)) is Err,
    ensures
        addresses_in(lines) == addresses_in(lines.take(i)),
    decreases lines.len() - i,
{
    if i == lines.len() {
        assert(lines.take(i) =~= lines);
    } else {
        assert(lines.take(i + 1).drop_last() =~= lines.take(i));
        first_fault_stays(lines, i + 1);
    }
}

fn parse_addresses(lines: &Vec<String>) -> (r: Result<Vec<Address>, String>)
    ensures
        match r {
            Ok(v) => addresses_in(texts(lines@)) == Ok::<Seq<Seq<char>>, Seq<char>>(
                address_texts(v@),
            ),
            Err(e) => addresses_in(texts(lines@)) == Err::<Seq<Seq<char>>, Seq<char>>(e@),
        },
{
    let ghost all = texts(lines@);
    let mut list: Vec<Address> = Vec::new();
    let mut i: usize = 0;
    proof {
        assert(all.take(0) =~= Seq::empty());
        assert(address_texts(list@) =~= Seq::empty());
    }
    while i < lines.len()
        invariant
            i <= lines@.len(),
            all == texts(lines@),
            addresses_in(all.take(i as int)) == Ok::<Seq<Seq<char>>, Seq<char>>(
                address_texts(list@),
            ),
        decreases lines.len() - i,
    {
        let line = lines[i].as_str();
        let ghost was = list@;
        proof {
            assert(all.take(i + 1).drop_last() =~= all.take(i as int));
            assert(all.take(i + 1).last() == line@);
        }
        if !line.is_empty() {
            match Address::from_str(line) {
                Ok(a) => {
                    list.push(a);
                    proof {
                        assert(address_texts(list@) =~= address_texts(was).push(line@));
                    }
                },
                Err(e) => {
                    proof {
                        first_fault_stays(all, i + 1);
                    }
                    return Err(e.message());
                },
            }
        }
        i = i + 1;
    }
    proof {
        assert(all.take(i as int) =~= all);
    }
    Ok(list)
}

/// Why registering guardians is refused.
pub open spec fn guardians_fault(s: StateModel, tx: Transaction) -> Option<Seq<char>> {
    if s.recovery_requests.contains_key(tx.from@) {
        Some("cannot change guardians while a recovery request is pending"@)
    } else if !vstd::utf8::valid_utf8(tx.data@) {
        Some("guardian payload is not valid UTF-8"@)
    } else {
        match addresses_in(lines_of(tx.data@)) {
            Err(e) => Some("invalid guardian address: "@ + e),
            Ok(list) => match guardian_fault(tx.from@, list) {
                Some(e) => Some(e.words()),
                None => None,
            },
        }
    }
}

/// An address has a set of guardians.
pub open spec fn guarded(s: StateModel, owner: Seq<char>, guardians: Seq<Seq<char>>) -> StateModel {
    StateModel { guardians: s.guardians.insert(owner, guardians), ..s }
}

pub fn execute_register_guardians(state: &mut ChainState, tx: &Transaction) -> (r: Result<
    (),
    String,
>)
    requires
        can_charge(old(state)@, *tx),
    ensures
        settles(
            old(state)@,
            final(state)@,
            guardians_fault(old(state)@, *tx),
            guarded(
                charged(old(state)@, *tx),
                tx.from@,
                addresses_in(lines_of(tx.data@))->Ok_0,
            ),
            r,
        ),
        r is Ok ==> final(state)@.wf() && final(state)@.wealth() + tx.fee == old(state)@.wealth(),
{
    if state.recovery_request(&tx.from).is_some() {
        return Err("cannot change guardians while a recovery request is pending".to_owned());
    }
    match utf8_text(tx.data.as_slice()) {
        Some(_) => {},
        None => {
            return Err("guardian payload is not valid UTF-8".to_owned());
        },
    }
    let lines = split_lines(tx.data.as_slice());
    let list = match parse_addresses(&lines) {
        Ok(l) => l,
        Err(e) => {
            return Err(joined2("invalid guardian address: ", e.as_str()));
        },
    };
    let set = match GuardianSet::new(&tx.from, list) {
        Ok(s) => s,
        Err(e) => {
            return Err(e.message());
        },
    };
    charge_sender(state, tx);
    let ghost before = state@;
    state.set_guardians(&tx.from, set);
    proof {
        assert forall|k: Seq<char>| #[trigger] state@.guardians.contains_key(k) implies
            state@.guardians[k].len() <= crate::identity::recovery::MAX_GUARDIANS by {
            if k != tx.from@ {
                assert(before.guardians.contains_key(k));
            }
        }
        books_keep_wf(before, state@);
    }
    Ok(())
}

/// The vote that an approval of a key counts toward: the pending one if it is for
/// that key, else a new one.
pub open spec fn vote_for(s: StateModel, target: Seq<char>, key: Seq<u8>) -> Seq<Seq<char>> {
    if s.recovery_requests.contains_key(target) && s.recovery_requests[target].new_public_key
        == key {
        s.recovery_requests[target].approvals
    } else {
        Seq::empty()
    }
}

/// Why approving a recovery is refused.
pub open spec fn approval_fault(s: StateModel, tx: Transaction) -> Option<Seq<char>> {
    if tx.to is None {
        Some("recovery approval requires a target address (tx.to)"@)
    } else {
        let target = tx.to->0@;
        if !s.guardians.contains_key(target) {
            Some("target address has no registered guardians"@)
        } else if !s.guardians[target].contains(tx.from@) {
            Some("sender is not a registered guardian for this address"@)
        } else if !valid_key_shape(tx.data@) {
            Some("proposed public key is not a valid PQC public key"@)
        } else if vote_for(s, target, tx.data@).contains(tx.from@) {
            Some(RecoveryError::DuplicateApproval.words())
        } else {
            None
        }
    }
}

/// A guardian has approved a key. With a quorum the key takes control of the
/// address and the vote is over; until then the vote goes on.
pub open spec fn approved(
    s: StateModel,
    guardian: Seq<char>,
    target: Seq<char>,
    key: Seq<u8>,
) -> StateModel {
    let approvals = vote_for(s, target, key).push(guardian);
    if approvals.len() >= quorum_of(s.guardians[target].len()) {
        StateModel {
            recovery_keys: s.recovery_keys.insert(target, key),
            recovery_requests: s.recovery_requests.remove(target),
            ..s
        }
    } else {
        StateModel {
            recovery_requests: s.recovery_requests.insert(
                target,
                RequestModel { new_public_key: key, approvals },
            ),
            ..s
        }
    }
}

pub fn execute_approve_recovery(state: &mut ChainState, tx: &Transaction) -> (r: Result<(), String>)
    requires
        can_charge(old(state)@, *tx),
    ensures
        settles(
            old(state)@,
            final(state)@,
            approval_fault(old(state)@, *tx),
            approved(charged(old(state)@, *tx), tx.from@, tx.to->0@, tx.data@),
            r,
        ),
        r is Ok ==> final(state)@.wf() && final(state)@.wealth() + tx.fee == old(state)@.wealth(),
{
    let target = match &tx.to {
        None => {
            return Err("recovery approval requires a target address (tx.to)".to_owned());
        },
        Some(t) => t,
    };
    let threshold: usize = match state.guardians(target) {
        None => {
            return Err("target address has no registered guardians".to_owned());
        },
        Some(set) => {
            proof {
                assert(state@.guardians.contains_key(target@));
                assert(set@.len() == set.guardians@.len());
            }
            if !set.contains(&tx.from) {
                return Err("sender is not a registered guardian for this address".to_owned());
            }
            set.threshold()
        },
    };
    let new_key = PublicKey::from_bytes(vstd::slice::slice_to_vec(tx.data.as_slice()));
    if !new_key.is_valid() {
        return Err("proposed public key is not a valid PQC public key".to_owned());
    }
    let mut request = match state.recovery_request(target) {
        Some(pending) => if pending.new_public_key.same(&new_key) {
            pending.clone()
        } else {
            RecoveryRequest::new(new_key.clone())
        },
        None => RecoveryRequest::new(new_key.clone()),
    };
    proof {
        assert(request@.approvals =~= vote_for(state@, target@, tx.data@));
    }
    let finalized = match request.approve(tx.from.clone(), threshold) {
        Ok(reached) => reached,
        Err(e) => {
            return Err(e.message());
        },
    };
    charge_sender(state, tx);
    let ghost before = state@;
    if finalized {
        state.set_recovery_key(target, new_key);
        state.clear_recovery_request(target);
    } else {
        state.set_recovery_request(target, request);
    }
    proof {
        books_keep_wf(before, state@);
    }
    Ok(())
}

/// Why cancelling a recovery is refused.
pub open spec fn cancel_fault(s: StateModel, tx: Transaction) -> Option<Seq<char>> {
    if !s.recovery_requests.contains_key(tx.from@) {
        Some("no pending recovery request to cancel"@)
    } else {
        None
    }
}

/// A vote on an address's key has been called off.
pub open spec fn cancelled(s: StateModel, owner: Seq<char>) -> StateModel {
    StateModel { recovery_requests: s.recovery_requests.remove(owner), ..s }
}

pub fn execute_cancel_recovery_request(state: &mut ChainState, tx: &Transaction) -> (r: Result<
    (),
    String,
>)
    requires
        can_charge(old(state)@, *tx),
    ensures
        settles(
            old(state)@,
            final(state)@,
            cancel_fault(old(state)@, *tx),
            cancelled(charged(old(state)@, *tx), tx.from@),
            r,
        ),
        r is Ok ==> final(state)@.wf() && final(state)@.wealth() + tx.fee == old(state)@.wealth(),
{
    if state.recovery_request(&tx.from).is_none() {
        return Err("no pending recovery request to cancel".to_owned());
    }
    charge_sender(state, tx);
    let ghost before = state@;
    state.clear_recovery_request(&tx.from);
    proof {
        books_keep_wf(before, state@);
    }
    Ok(())
}

} // verus!
