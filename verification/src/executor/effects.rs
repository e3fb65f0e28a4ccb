//! What each operation does to the accounts and books it touches, and what it
//! leaves alone.
use crate::crypto::address::address_fault;
use crate::crypto::Address;
use crate::executor::account::AccountModel;
use crate::executor::contracts::{
    call_leaves_books, can_pay_out, moved_facts, paid_out, payments, with_writes,
};
use crate::executor::engine::{operation_done, operation_fault, operation_fits};
use crate::executor::fees::{rewarded, shares_are_parts};
use crate::executor::identities::addresses_in;
use crate::executor::payments::{account_address, charged, moved};
use crate::executor::state::StateModel;
use crate::executor::value::{
    account_and_pool_within_wealth, account_keeps_wf, account_within_wealth, books_keep_wf,
};
use crate::identity::name::{name_fault, without_suffix};
use crate::text::lines_of;
use crate::transaction::{Findings, Transaction};
use vstd::prelude::*;

verus! {

/// The transaction's sender is at its nonce and can pay its fee.
pub open spec fn is_due(s: StateModel, tx: Transaction) -> bool {
    &&& s.wf()
    &&& s.account(tx.from@).nonce == tx.nonce
    &&& s.account(tx.from@).balance >= tx.fee
    &&& tx.nonce < u64::MAX
}

/// No account but these two has changed.
pub open spec fn only_these_accounts(
    s: StateModel,
    t: StateModel,
    a: Seq<char>,
    b: Seq<char>,
) -> bool {
    forall|c: Seq<char>| c != a && c != b ==> #[trigger] t.account(c) == s.account(c)
}

/// Nothing but accounts has changed.
pub open spec fn only_accounts(s: StateModel, t: StateModel) -> bool {
    t == (StateModel { accounts: t.accounts, ..s })
}

/// Everything of the sender but its balance and its nonce is as it was.
pub open spec fn sender_keeps_the_rest(s: StateModel, t: StateModel, a: Seq<char>) -> bool {
    &&& t.account(a).address == s.account(a).address
    &&& t.account(a).staked == s.account(a).staked
    &&& t.account(a).unbonding_stake == s.account(a).unbonding_stake
    &&& t.account(a).unbonding_unlock_height == s.account(a).unbonding_unlock_height
    &&& t.account(a).unbonding_source == s.account(a).unbonding_source
    &&& t.account(a).code == s.account(a).code
}

/// The sender has paid the fee and used up its nonce, and no account has changed otherwise.
pub open spec fn only_the_fee(s: StateModel, t: StateModel, tx: Transaction) -> bool {
    &&& t.account(tx.from@).balance == s.account(tx.from@).balance - tx.fee
    &&& t.account(tx.from@).nonce == s.account(tx.from@).nonce + 1
    &&& sender_keeps_the_rest(s, t, tx.from@)
    &&& only_these_accounts(s, t, tx.from@, tx.from@)
}

/// An account that was never written has nothing, and every other is what was written.
pub proof fn accounts_read_as_written(s: StateModel, a: Seq<char>)
    ensures
        s.accounts.contains_key(a) ==> s.account(a) == s.accounts[a],
        !s.accounts.contains_key(a) ==> {
            &&& s.account(a).address == a
            &&& s.account(a).balance == 0
            &&& s.account(a).staked == 0
            &&& s.account(a).unbonding_stake == 0
            &&& s.account(a).unbonding_unlock_height == 0
            &&& s.account(a).unbonding_source is None
            &&& s.account(a).nonce == 0
            &&& s.account(a).code is None
        },
{
}

/// A pool that was never opened is empty and takes ten percent, and every other is
/// what was written.
pub proof fn pools_read_as_written(s: StateModel, v: Seq<char>)
    ensures
        s.validator_pools.contains_key(v) ==> s.pool(v) == s.validator_pools[v],
        !s.validator_pools.contains_key(v) ==> {
            &&& s.pool(v).total_shares == 0
            &&& s.pool(v).total_delegated_stake == 0
            &&& s.pool(v).commission_bps == 1_000
        },
{
}

/// A transfer is taken exactly if it is of something, to somebody, and covered with
/// its fee. It takes amount and fee from the sender and gives the amount to the
/// recipient; a transfer to oneself costs the fee. Nothing else changes.
pub proof fn a_transfer_moves_its_amount(s: StateModel, tx: Transaction, f: Findings, height: u64)
    requires
        is_due(s, tx),
        tx.tx_type is Transfer,
        tx.amount + tx.fee <= u64::MAX,
    ensures
        operation_fault(s, tx, f, height) is None <==> tx.amount > 0 && tx.to is Some && s.account(
            tx.from@,
        ).balance >= tx.amount + tx.fee,
        operation_fault(s, tx, f, height) is None ==> {
            let t = operation_done(s, tx, f, height);
            let (from, to) = (tx.from@, tx.to->0@);
            &&& from != to ==> t.account(from).balance == s.account(from).balance - tx.amount - tx.fee
            &&& from != to ==> t.account(to).balance == s.account(to).balance + tx.amount
            &&& from == to ==> t.account(from).balance == s.account(from).balance - tx.fee
            &&& t.account(from).nonce == s.account(from).nonce + 1
            &&& from != to ==> t.account(to).nonce == s.account(to).nonce
            &&& sender_keeps_the_rest(s, t, from)
            &&& sender_keeps_the_rest(s, t, to)
            &&& only_these_accounts(s, t, from, to)
            &&& only_accounts(s, t)
        },
{
    if operation_fault(s, tx, f, height) is None {
        account_within_wealth(s, tx.from@);
        if tx.from@ != tx.to->0@ {
            two_accounts_within_wealth(s, tx.from@, tx.to->0@);
        }
    }
}

/// Two accounts own no more than there is.
proof fn two_accounts_within_wealth(s: StateModel, a: Seq<char>, b: Seq<char>)
    requires
        s.wf(),
        a != b,
    ensures
        s.account(a).balance + s.account(b).balance <= u64::MAX,
{
    account_within_wealth(s, a);
    account_within_wealth(s, b);
    if s.accounts.contains_key(a) && s.accounts.contains_key(b) {
        crate::sums::total_bounds_two(
            s.accounts,
            crate::executor::state::by_account_value(),
            a,
            b,
        );
    }
}

/// Staking is taken exactly if it is of something and covered with its fee. It
/// turns that much of the sender's balance into stake, and nothing else.
pub proof fn staking_turns_balance_into_stake(
    s: StateModel,
    tx: Transaction,
    f: Findings,
    height: u64,
)
    requires
        is_due(s, tx),
        tx.tx_type is Stake,
        tx.amount + tx.fee <= u64::MAX,
    ensures
        operation_fault(s, tx, f, height) is None <==> tx.amount > 0 && s.account(tx.from@).balance
            >= tx.amount + tx.fee,
        operation_fault(s, tx, f, height) is None ==> {
            let t = operation_done(s, tx, f, height);
            let (was, is) = (s.account(tx.from@), t.account(tx.from@));
            &&& is.staked == was.staked + tx.amount
            &&& is.balance == was.balance - tx.amount - tx.fee
            &&& is.nonce == was.nonce + 1
            &&& is.unbonding_stake == was.unbonding_stake
            &&& is.unbonding_unlock_height == was.unbonding_unlock_height
            &&& is.unbonding_source == was.unbonding_source
            &&& is.code == was.code
            &&& is.address == was.address
            &&& only_these_accounts(s, t, tx.from@, tx.from@)
            &&& only_accounts(s, t)
        },
{
    account_within_wealth(s, tx.from@);
}

/// Unstaking is taken only of stake that the sender has, while nothing else of its
/// is unbonding. The stake begins to unbond for the full period, answering for the
/// sender itself; the balance pays the fee and gains nothing.
pub proof fn unstaking_starts_to_unbond(s: StateModel, tx: Transaction, f: Findings, height: u64)
    requires
        is_due(s, tx),
        tx.tx_type is Unstake,
        height + 302_400 <= u64::MAX,
    ensures
        operation_fault(s, tx, f, height) is None ==> {
            let t = operation_done(s, tx, f, height);
            let (was, is) = (s.account(tx.from@), t.account(tx.from@));
            &&& was.staked >= tx.amount
            &&& was.unbonding_stake == 0
            &&& is.staked == was.staked - tx.amount
            &&& is.unbonding_stake == tx.amount
            &&& is.unbonding_unlock_height == height + 302_400
            &&& is.unbonding_source is None
            &&& is.balance == was.balance - tx.fee
            &&& is.nonce == was.nonce + 1
            &&& is.code == was.code
            &&& is.address == was.address
            &&& only_these_accounts(s, t, tx.from@, tx.from@)
            &&& only_accounts(s, t)
        },
{
}

/// Unbonded stake can be claimed exactly from its unlock height on. All of it
/// becomes balance, once, and nothing is unbonding afterwards.
pub proof fn a_claim_pays_out_unbonded_stake(
    s: StateModel,
    tx: Transaction,
    f: Findings,
    height: u64,
)
    requires
        is_due(s, tx),
        tx.tx_type is ClaimUnbonded,
    ensures
        operation_fault(s, tx, f, height) is None <==> s.account(tx.from@).unbonding_stake > 0
            && s.account(tx.from@).unbonding_unlock_height > 0 && height >= s.account(
            tx.from@,
        ).unbonding_unlock_height,
        operation_fault(s, tx, f, height) is None ==> {
            let t = operation_done(s, tx, f, height);
            let (was, is) = (s.account(tx.from@), t.account(tx.from@));
            &&& is.balance == was.balance - tx.fee + was.unbonding_stake
            &&& is.unbonding_stake == 0
            &&& is.unbonding_unlock_height == 0
            &&& is.unbonding_source is None
            &&& is.staked == was.staked
            &&& is.nonce == was.nonce + 1
            &&& is.code == was.code
            &&& is.address == was.address
            &&& only_these_accounts(s, t, tx.from@, tx.from@)
            &&& only_accounts(s, t)
        },
{
    account_within_wealth(s, tx.from@);
}

/// Every approval counts for the key that it names and for no other. An approval is
/// taken exactly from a guardian of the address, for a key of a proper length that
/// this guardian has not approved yet in the pending request. If the pending request
/// is for another key, or there is none, the approver stands alone; else it joins
/// those who approved the same key. The key takes control exactly if these are three
/// fifths of the guardians; until then the request is pending and control stays.
pub proof fn approvals_count_for_their_own_key(
    s: StateModel,
    tx: Transaction,
    f: Findings,
    height: u64,
)
    requires
        is_due(s, tx),
        tx.tx_type is ApproveRecovery,
    ensures
        ({
            let a = tx.to->0@;
            let joins = s.recovery_requests.contains_key(a) && s.recovery_requests[a].new_public_key
                == tx.data@;
            &&& operation_fault(s, tx, f, height) is None <==> {
                &&& tx.to is Some
                &&& s.guardians.contains_key(a)
                &&& s.guardians[a].contains(tx.from@)
                &&& tx.data@.len() == 1952 || tx.data@.len() == 48
                &&& joins ==> !s.recovery_requests[a].approvals.contains(tx.from@)
            }
            &&& operation_fault(s, tx, f, height) is None ==> {
                let t = operation_done(s, tx, f, height);
                let n = if joins {
                    s.recovery_requests[a].approvals.len() + 1
                } else {
                    1
                };
                let carried = 5 * n >= 3 * s.guardians[a].len();
                &&& carried ==> t.recovery_keys == s.recovery_keys.insert(a, tx.data@)
                &&& carried ==> t.recovery_requests == s.recovery_requests.remove(a)
                &&& !carried ==> t.recovery_keys == s.recovery_keys
                &&& !carried ==> t.recovery_requests.dom() == s.recovery_requests.dom().insert(a)
                &&& !carried ==> t.recovery_requests[a].new_public_key == tx.data@
                &&& !carried && joins ==> t.recovery_requests[a].approvals
                    == s.recovery_requests[a].approvals.push(tx.from@)
                &&& !carried && !joins ==> t.recovery_requests[a].approvals == seq![tx.from@]
                &&& forall|b: Seq<char>|
                    b != a && s.recovery_requests.contains_key(b) ==> #[trigger] t.recovery_requests[b]
                        == s.recovery_requests[b]
                &&& only_the_fee(s, t, tx)
                &&& t == (StateModel {
                    accounts: t.accounts,
                    recovery_keys: t.recovery_keys,
                    recovery_requests: t.recovery_requests,
                    ..s
                })
            }
        }),
{
    if operation_fault(s, tx, f, height) is None {
        let t = operation_done(s, tx, f, height);
        let a = tx.to->0@;
        if t.recovery_requests.contains_key(a) {
            assert(t.recovery_requests.dom() =~= s.recovery_requests.dom().insert(a));
            assert(Seq::<Seq<char>>::empty().push(tx.from@) =~= seq![tx.from@]);
        }
    }
}

/// Only the owner calls a pending recovery off, and that is all that it does.
pub proof fn a_cancelled_recovery_is_gone(s: StateModel, tx: Transaction, f: Findings, height: u64)
    requires
        is_due(s, tx),
        tx.tx_type is CancelRecoveryRequest,
    ensures
        operation_fault(s, tx, f, height) is None <==> s.recovery_requests.contains_key(tx.from@),
        operation_fault(s, tx, f, height) is None ==> {
            let t = operation_done(s, tx, f, height);
            &&& t.recovery_requests == s.recovery_requests.remove(tx.from@)
            &&& only_the_fee(s, t, tx)
            &&& t == (StateModel {
                accounts: t.accounts,
                recovery_requests: t.recovery_requests,
                ..s
            })
        },
{
}

/// Guardians are taken only while no recovery is pending: three to ten different
/// ones, none of them the owner, each the address on one line of the payload. They
/// take the place of the owner's earlier ones, and nobody else's change.
pub proof fn guardians_are_those_named(s: StateModel, tx: Transaction, f: Findings, height: u64)
    requires
        is_due(s, tx),
        tx.tx_type is RegisterGuardians,
    ensures
        operation_fault(s, tx, f, height) is None ==> {
            let t = operation_done(s, tx, f, height);
            let list = t.guardians[tx.from@];
            let lines = lines_of(tx.data@);
            &&& !s.recovery_requests.contains_key(tx.from@)
            &&& vstd::utf8::valid_utf8(tx.data@)
            &&& 3 <= list.len() <= 10
            &&& !list.contains(tx.from@)
            &&& list.no_duplicates()
            &&& list == lines.filter(|l: Seq<char>| l.len() > 0)
            &&& forall|i: int| 0 <= i < list.len() ==> address_fault(#[trigger] list[i]) is None
            &&& t.guardians == s.guardians.insert(tx.from@, list)
            &&& only_the_fee(s, t, tx)
            &&& t == (StateModel { accounts: t.accounts, guardians: t.guardians, ..s })
        },
        ({
            let list = lines_of(tx.data@).filter(|l: Seq<char>| l.len() > 0);
            &&& !s.recovery_requests.contains_key(tx.from@)
            &&& vstd::utf8::valid_utf8(tx.data@)
            &&& 3 <= list.len() <= 10
            &&& !list.contains(tx.from@)
            &&& list.no_duplicates()
            &&& forall|i: int| 0 <= i < list.len() ==> address_fault(#[trigger] list[i]) is None
        }) ==> operation_fault(s, tx, f, height) is None,
{
    addresses_are_the_full_lines(lines_of(tx.data@));
}

/// The addresses in a list of lines are its lines that are not empty, if all of
/// these are addresses.
proof fn addresses_are_the_full_lines(lines: Seq<Seq<char>>)
    ensures
        ({
            let full = lines.filter(|l: Seq<char>| l.len() > 0);
            &&& addresses_in(lines) is Ok <==> forall|i: int|
                0 <= i < full.len() ==> address_fault(#[trigger] full[i]) is None
            &&& addresses_in(lines) is Ok ==> addresses_in(lines)->Ok_0 == full
        }),
    decreases lines.len(),
{
    let keep = |l: Seq<char>| l.len() > 0;
    let full = lines.filter(keep);
    reveal(Seq::filter);
    if lines.len() == 0 {
        assert(full =~= Seq::empty());
    } else {
        let front = lines.drop_last();
        let early = front.filter(keep);
        addresses_are_the_full_lines(front);
        assert(lines =~= front.push(lines.last()));
        front.lemma_filter_push(lines.last(), keep);
        if lines.last().len() > 0 {
            assert(full == early.push(lines.last()));
            assert(full[early.len() as int] == lines.last());
            assert forall|i: int| 0 <= i < early.len() implies full[i] == #[trigger] early[i] by {}
            if forall|i: int| 0 <= i < full.len() ==> address_fault(#[trigger] full[i]) is None {
                assert forall|i: int| 0 <= i < early.len() implies address_fault(
                    #[trigger] early[i],
                ) is None by {
                    assert(full[i] == early[i]);
                }
            }
        }
    }
}

/// A name is taken exactly if it is a proper name that nobody has. It then belongs
/// to the sender, and no other name changes hands.
pub proof fn a_name_goes_to_its_first_claimant(
    s: StateModel,
    tx: Transaction,
    f: Findings,
    height: u64,
)
    requires
        is_due(s, tx),
        tx.tx_type is RegisterName,
    ensures
        ({
            let name = without_suffix(vstd::utf8::decode_utf8(tx.data@));
            &&& operation_fault(s, tx, f, height) is None <==> vstd::utf8::valid_utf8(tx.data@)
                && name_fault(name) is None && !s.names.contains_key(name)
            &&& operation_fault(s, tx, f, height) is None ==> {
                let t = operation_done(s, tx, f, height);
                &&& t.names == s.names.insert(name, tx.from@)
                &&& only_the_fee(s, t, tx)
                &&& t == (StateModel { accounts: t.accounts, names: t.names, ..s })
            }
        }),
{
}

/// Nobody registers as a person by acquaintance.
pub proof fn identities_are_not_registered(s: StateModel, tx: Transaction, f: Findings, height: u64)
    requires
        tx.tx_type is RegisterIdentity,
    ensures
        operation_fault(s, tx, f, height) is Some,
{
}

/// An account becomes a contract exactly by code that the virtual machine takes,
/// within the size limit and without a recipient. The code is the payload.
pub proof fn deployed_code_is_the_payload(s: StateModel, tx: Transaction, f: Findings, height: u64)
    requires
        is_due(s, tx),
        tx.tx_type is DeployContract,
    ensures
        operation_fault(s, tx, f, height) is None <==> tx.to is None && 0 < tx.data@.len()
            <= f.code_size_limit && f.bytecode is Ok,
        operation_fault(s, tx, f, height) is None ==> {
            let t = operation_done(s, tx, f, height);
            let (was, is) = (s.account(tx.from@), t.account(tx.from@));
            &&& is.code == Some(tx.data@)
            &&& is.balance == was.balance - tx.fee
            &&& is.nonce == was.nonce + 1
            &&& is.staked == was.staked
            &&& is.unbonding_stake == was.unbonding_stake
            &&& is.unbonding_unlock_height == was.unbonding_unlock_height
            &&& is.unbonding_source == was.unbonding_source
            &&& is.address == was.address
            &&& only_these_accounts(s, t, tx.from@, tx.from@)
            &&& only_accounts(s, t)
        },
{
}

/// What a contract's storage holds under a key.
pub open spec fn cell(s: StateModel, contract: Seq<char>, key: Seq<u8>) -> Option<Seq<u8>> {
    if s.contract_storage.contains_key(contract) && s.contract_storage[contract].contains_key(
        key,
    ) {
        Some(s.contract_storage[contract][key])
    } else {
        None
    }
}

/// What a list of payments brings an address.
pub open spec fn received(list: Seq<(Address, u64)>, a: Seq<char>) -> int
    decreases list.len(),
{
    if list.len() == 0 {
        0
    } else {
        received(list.drop_last(), a) + if list.last().0@ == a {
            list.last().1 as int
        } else {
            0
        }
    }
}

/// What a list of payments costs.
pub open spec fn spent(list: Seq<(Address, u64)>) -> int
    decreases list.len(),
{
    if list.len() == 0 {
        0
    } else {
        spent(list.drop_last()) + list.last().1
    }
}

/// A call is taken exactly if there is a contract to call, amount and fee are
/// covered, and the contract has not failed. Its writes, and nothing else, are then
/// in the storage of the contract, and nowhere else; every account has gained what
/// it was paid, and the contract has lost what it paid; the sender has paid amount
/// and fee.
pub proof fn a_call_writes_and_pays_what_it_says(
    s: StateModel,
    tx: Transaction,
    f: Findings,
    height: u64,
)
    requires
        is_due(s, tx),
        tx.tx_type is CallContract,
        tx.amount + tx.fee <= u64::MAX,
        operation_fits(s, tx, f, height),
        f.call is Ok ==> f.call->Ok_0.storage_writes@.dom().finite(),
    ensures
        operation_fault(s, tx, f, height) is None <==> tx.to is Some && s.account(tx.from@).balance
            >= tx.amount + tx.fee && s.account(tx.to->0@).code is Some && f.call is Ok,
        operation_fault(s, tx, f, height) is None ==> {
            let t = operation_done(s, tx, f, height);
            let contract = tx.to->0@;
            let writes = f.call->Ok_0.storage_writes@;
            let list = f.call->Ok_0.transfers@;
            &&& forall|c: Seq<char>, k: Seq<u8>| #[trigger]
                cell(t, c, k) == if c == contract && writes.contains_key(k) {
                    Some(writes[k])
                } else {
                    cell(s, c, k)
                }
            &&& forall|a: Seq<char>|
                (#[trigger] t.account(a)).balance == s.account(a).balance + received(list, a) - (
                if a == contract {
                    spent(list) - tx.amount
                } else {
                    0
                }) - (if a == tx.from@ {
                    tx.amount + tx.fee
                } else {
                    0
                })
            &&& forall|a: Seq<char>|
                (#[trigger] t.account(a)).nonce == s.account(a).nonce + (if a == tx.from@ {
                    1int
                } else {
                    0
                })
            &&& forall|a: Seq<char>|
                (#[trigger] t.account(a)) == (AccountModel {
                    balance: t.account(a).balance,
                    nonce: t.account(a).nonce,
                    ..s.account(a)
                })
            &&& t == (StateModel {
                accounts: t.accounts,
                contract_storage: t.contract_storage,
                ..s
            })
        },
{
    if operation_fault(s, tx, f, height) is None {
        let contract = tx.to->0@;
        let writes = f.call->Ok_0.storage_writes@;
        let list = f.call->Ok_0.transfers@;
        let c = charged(s, tx);
        account_within_wealth(s, tx.from@);
        account_address(s, tx.from@);
        account_keeps_wf(s, tx.from@, c.account(tx.from@));
        let m = moved(c, tx.from@, contract, tx.amount);
        moved_facts(c, tx.from@, contract, tx.amount);
        if tx.from@ != contract {
            two_accounts_within_wealth(c, tx.from@, contract);
        }
        let w = with_writes(m, contract, writes);
        books_keep_wf(m, w);
        can_pay_with_storage(m, w, contract, payments(list));
        payments_add_up(w, contract, list);
        call_leaves_books(c, tx.from@, contract, tx.amount, f.call->Ok_0);
        let t = operation_done(s, tx, f, height);
        assert forall|d: Seq<char>, k: Seq<u8>| #[trigger]
            cell(t, d, k) == (if d == contract && writes.contains_key(k) {
                Some(writes[k])
            } else {
                cell(s, d, k)
            }) by {
            assert(t.contract_storage == w.contract_storage);
            if writes.len() == 0 {
                no_entries(writes);
            }
        }
        assert forall|a: Seq<char>|
            (#[trigger] t.account(a)).balance == s.account(a).balance + received(list, a) - (
            if a == contract {
                spent(list) - tx.amount
            } else {
                0
            }) - (if a == tx.from@ {
                tx.amount + tx.fee
            } else {
                0
            }) by {
            assert(w.account(a) == m.account(a));
        }
        assert forall|a: Seq<char>|
            (#[trigger] t.account(a)).nonce == s.account(a).nonce + (if a == tx.from@ {
                1int
            } else {
                0
            }) by {
            assert(w.account(a) == m.account(a));
        }
        assert forall|a: Seq<char>|
            (#[trigger] t.account(a)) == (AccountModel {
                balance: t.account(a).balance,
                nonce: t.account(a).nonce,
                ..s.account(a)
            }) by {
            assert(w.account(a) == m.account(a));
        }
    }
}

proof fn no_entries(m: Map<Seq<u8>, Seq<u8>>)
    requires
        m.len() == 0,
        m.dom().finite(),
    ensures
        forall|k: Seq<u8>| !#[trigger] m.contains_key(k),
{
    vstd::set_lib::lemma_set_empty_equivalency_len(m.dom());
}

proof fn can_pay_with_storage(
    s: StateModel,
    w: StateModel,
    contract: Seq<char>,
    list: Seq<(Seq<char>, u64)>,
)
    requires
        w.accounts == s.accounts,
        can_pay_out(s, contract, list),
    ensures
        can_pay_out(w, contract, list),
        paid_out(w, contract, list).accounts == paid_out(s, contract, list).accounts,
    decreases list.len(),
{
    if list.len() > 0 {
        can_pay_with_storage(s, w, contract, list.drop_last());
    }
}

proof fn payments_add_up(s: StateModel, contract: Seq<char>, list: Seq<(Address, u64)>)
    requires
        s.wf(),
        can_pay_out(s, contract, payments(list)),
    ensures
        ({
            let t = paid_out(s, contract, payments(list));
            &&& t.wf()
            &&& only_accounts(s, t)
            &&& forall|a: Seq<char>|
                (#[trigger] t.account(a)).balance == s.account(a).balance + received(list, a) - (
                if a == contract {
                    spent(list)
                } else {
                    0
                })
            &&& forall|a: Seq<char>|
                (#[trigger] t.account(a)) == (AccountModel {
                    balance: t.account(a).balance,
                    ..s.account(a)
                })
        }),
    decreases list.len(),
{
    if list.len() > 0 {
        let front = list.drop_last();
        let (to, amount) = (list.last().0@, list.last().1);
        assert(payments(list).drop_last() =~= payments(front));
        payments_add_up(s, contract, front);
        let u = paid_out(s, contract, payments(front));
        let t = paid_out(s, contract, payments(list));
        moved_facts(u, contract, to, amount);
        if contract != to {
            two_accounts_within_wealth(u, contract, to);
        }
        assert forall|a: Seq<char>|
            (#[trigger] t.account(a)).balance == s.account(a).balance + received(list, a) - (
            if a == contract {
                spent(list)
            } else {
                0
            }) by {
            assert(u.account(a).balance == s.account(a).balance + received(front, a) - (
            if a == contract {
                spent(front)
            } else {
                0
            }));
        }
        assert forall|a: Seq<char>|
            (#[trigger] t.account(a)) == (AccountModel {
                balance: t.account(a).balance,
                ..s.account(a)
            }) by {
            assert(u.account(a) == (AccountModel {
                balance: u.account(a).balance,
                ..s.account(a)
            }));
        }
    }
}

/// A reward is shared by stake. Of what the delegators' stake earns, the validator
/// keeps the commission that its own pool names, rounded down, and the pool gains
/// the rest; everything else is added to the validator's balance. Without a pool, or
/// without any stake, all of it is. Shares and commission stay, and so does
/// everybody else.
pub proof fn rewards_are_shared_by_stake_and_commission(
    s: StateModel,
    v: Seq<char>,
    amount: u64,
)
    requires
        s.wf(),
        s.wealth() + amount <= u64::MAX,
    ensures
        ({
            let t = rewarded(s, v, amount);
            let own = s.account(v).staked as int;
            let delegated = s.validator_pools[v].total_delegated_stake as int;
            let c = s.validator_pools[v].commission_bps as int;
            let shared = s.validator_pools.contains_key(v) && own + delegated > 0;
            let d = amount - amount * own / (own + delegated);
            let gain = if shared {
                d - d * c / 10_000
            } else {
                0
            };
            &&& 0 <= gain <= amount
            &&& shared && c == 0 ==> gain == d
            &&& t.account(v).balance == s.account(v).balance + amount - gain
            &&& t.account(v) == (AccountModel { balance: t.account(v).balance, ..s.account(v) })
            &&& shared ==> t.validator_pools[v].total_delegated_stake == delegated + gain
            &&& shared ==> t.validator_pools[v].total_shares == s.validator_pools[v].total_shares
            &&& t.validator_pools.dom() == s.validator_pools.dom()
            &&& s.validator_pools.contains_key(v) ==> t.validator_pools[v].commission_bps == c
            &&& forall|w: Seq<char>|
                w != v && s.validator_pools.contains_key(w) ==> #[trigger] t.validator_pools[w]
                    == s.validator_pools[w]
            &&& only_these_accounts(s, t, v, v)
            &&& t == (StateModel {
                accounts: t.accounts,
                validator_pools: t.validator_pools,
                ..s
            })
        }),
{
    let own = s.account(v).staked as int;
    account_and_pool_within_wealth(s, v, v);
    if s.validator_pools.contains_key(v) {
        let pool = s.validator_pools[v];
        let delegated = pool.total_delegated_stake as int;
        if own + delegated > 0 {
            shares_are_parts(amount as int, own, own + delegated, pool.commission_bps as int);
            let d = amount as int - amount as int * own / (own + delegated);
            let c = pool.commission_bps as int;
            if c == 0 {
                assert(d * c == 0) by (nonlinear_arith)
                    requires
                        c == 0,
                ;
            }
        }
    }
    let t = rewarded(s, v, amount);
    assert(t.validator_pools.dom() =~= s.validator_pools.dom());
}

} // verus!
