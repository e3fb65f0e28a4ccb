//! How blocks run their transactions, and what contracts read and pay on the way.
use crate::crypto::address::address_of;
use crate::crypto::keys::verify_outcome;
use crate::crypto::Address;
use crate::executor::block::{
    after_transactions, burned_sum, closing_of, fee_sum, final_receipt, mint_for, recipient_of,
    reward_sum, settled, Batch,
};
use crate::executor::contracts::{read_through, HostModel};
use crate::executor::effects::cell;
use crate::executor::engine::{executed, recovery_key_of, transaction_fits};
use crate::executor::quorum::{participation, participation_only_jails};
use crate::executor::receipt::{count_outcome, ReceiptModel};
use crate::executor::state::{headroom, status_of, stored, with_stored, StateModel};
use crate::executor::validators::proof_outstanding;
use crate::identity::personhood::address_texts;
use crate::table::in_key_order;
use crate::transaction::{authentic, Block, Findings, Transaction};
use vstd::prelude::*;

verus! {

/// A transaction is authentic exactly if its signature over its signing hash holds,
/// and its key is the one that guardians have put in control of the sender or, where
/// there is none, the one that the sender's address belongs to.
pub proof fn authentic_means_signed_by_the_controller(
    tx: Transaction,
    recovery_key: Option<Seq<u8>>,
)
    ensures
        authentic(tx, recovery_key) <==> {
            &&& recovery_key is Some ==> tx.public_key@ == recovery_key->0
            &&& recovery_key is None ==> address_of(tx.public_key@) == tx.from@
            &&& verify_outcome(
                tx.crypto_version,
                tx.public_key@,
                tx.signing_hash@,
                tx.signature@,
            ) is Ok
        },
{
}

/// A block starts from the state it is given, and every transaction meets what the
/// one before has left, its signature checked against that; receipts stand in the
/// order of the transactions.
pub proof fn transactions_run_in_order(s: StateModel, b: Batch, n: nat)
    requires
        n < b.txs.len(),
    ensures
        ({
            let before = after_transactions(s, b, n);
            let after = after_transactions(s, b, n + 1);
            let tx = b.txs[n as int];
            let key = if before.0.recovery_keys.contains_key(tx.from@) {
                Some(before.0.recovery_keys[tx.from@])
            } else {
                None
            };
            let step = executed(
                before.0,
                tx,
                b.findings[n as int],
                authentic(tx, key),
                b.recipient,
                b.height,
                b.base_fee_per_byte,
            );
            &&& after_transactions(s, b, 0).0 == s
            &&& after_transactions(s, b, 0).1.len() == 0
            &&& after.0 == step.0
            &&& after.1 == before.1.push(step.1)
            &&& before.1.len() == n
        }),
    decreases n,
{
    if n > 0 {
        transactions_run_in_order(s, b, (n - 1) as nat);
    }
}

/// Sums over receipts and transactions count each once.
pub proof fn sums_count_each_once(
    rs: Seq<ReceiptModel>,
    r: ReceiptModel,
    txs: Seq<Transaction>,
    tx: Transaction,
)
    ensures
        burned_sum(Seq::empty()) == 0,
        burned_sum(rs.push(r)) == burned_sum(rs) + r.fee_burned,
        reward_sum(Seq::empty()) == 0,
        reward_sum(rs.push(r)) == reward_sum(rs) + r.fee_to_validator,
        fee_sum(Seq::empty()) == 0,
        fee_sum(txs.push(tx)) == fee_sum(txs) + tx.fee,
        count_outcome(Seq::empty(), true) == 0,
        count_outcome(Seq::empty(), false) == 0,
        count_outcome(rs.push(r), true) == count_outcome(rs, true) + (if r.success {
            1int
        } else {
            0
        }),
        count_outcome(rs.push(r), false) == count_outcome(rs, false) + (if r.success {
            0int
        } else {
            1
        }),
{
    assert(rs.push(r).drop_last() =~= rs);
    assert(txs.push(tx).drop_last() =~= txs);
}

/// A block's header says who is paid, unless the reward has an address of its own,
/// and who has signed; its receipt says what the block came to.
pub proof fn receipts_say_what_a_block_came_to(
    t: StateModel,
    receipts: Seq<ReceiptModel>,
    block: Block,
    reward_address: Option<&Address>,
)
    ensures
        reward_address is Some ==> recipient_of(block, reward_address) == reward_address->0@,
        reward_address is None ==> recipient_of(block, reward_address) == block.header.validator@,
        ({
            let recipient = recipient_of(block, reward_address);
            let c = closing_of(block, recipient);
            let r = final_receipt(t, receipts, block, recipient);
            &&& c.height == block.header.height
            &&& c.proposer == block.header.validator@
            &&& c.ends_epoch == block.header.ends_epoch
            &&& c.recipient == recipient
            &&& c.signers == address_texts(block.header.last_commit@).to_set()
            &&& r.block_hash == crate::crypto::hex_text::hex_chars(block.hash@)
            &&& r.height == block.header.height
            &&& r.tx_receipts == receipts
            &&& burned_sum(receipts) <= u64::MAX ==> r.total_burned == burned_sum(receipts)
            &&& reward_sum(receipts) <= u64::MAX ==> r.validator_reward == reward_sum(receipts)
            &&& r.block_reward_minted == mint_for(t, c.height)
            &&& r.newly_jailed == participation(
                settled(t, burned_sum(receipts), c.height),
                in_key_order::<Address>(t.active_validators),
                c.signers,
                c.height,
            ).1
        }),
{
    let recipient = recipient_of(block, reward_address);
    let c = closing_of(block, recipient);
    let booked = settled(t, burned_sum(receipts), c.height);
    participation_only_jails(
        booked,
        in_key_order::<Address>(booked.active_validators),
        c.signers,
        c.height,
    );
}

/// What was written to a contract's storage is read from it, and nothing else in any
/// contract's storage changes.
pub proof fn storage_reads_what_was_written(
    s: StateModel,
    contract: Seq<char>,
    key: Seq<u8>,
    value: Seq<u8>,
    c: Seq<char>,
    k: Seq<u8>,
)
    ensures
        ({
            let t = with_stored(s, contract, key, value);
            &&& stored(t, c, k) == (if c == contract && k == key {
                Some(value)
            } else {
                stored(s, c, k)
            })
            &&& stored(s, c, k) == cell(s, c, k)
            &&& t == (StateModel { contract_storage: t.contract_storage, ..s })
        }),
{
}

/// A running contract reads what it has written itself, and else what is stored.
pub proof fn contracts_read_their_own_writes(h: HostModel, key: Seq<u8>, value: Seq<u8>, k: Seq<u8>)
    ensures
        ({
            let g = HostModel { storage_writes: h.storage_writes.insert(key, value), ..h };
            &&& read_through(g, k) == (if k == key {
                Some(value)
            } else {
                read_through(h, k)
            })
            &&& !h.storage_writes.contains_key(k) ==> read_through(h, k) == cell(
                h.state,
                h.contract,
                k,
            )
        }),
{
}

/// What a contract can pay is its balance and the call's value, less what it has
/// paid in the call.
pub proof fn contracts_pay_from_balance_and_value(h: HostModel, to: Seq<char>, amount: u64)
    requires
        h.state.account(h.contract).balance + h.value <= u64::MAX,
    ensures
        h.transfers.len() == 0 ==> h.available() == h.state.account(h.contract).balance + h.value,
        (HostModel { transfers: h.transfers.push((to, amount)), ..h }).available() == h.available()
            - amount,
{
    assert(h.transfers.push((to, amount)).drop_last() =~= h.transfers);
}

/// The state says of keys, persons, supply and probation what is on its books.
pub proof fn books_are_read_as_they_stand(s: StateModel, a: Seq<char>)
    ensures
        s.recovery_keys.contains_key(a) ==> recovery_key_of(s, a) == Some(s.recovery_keys[a]),
        !s.recovery_keys.contains_key(a) ==> recovery_key_of(s, a) is None,
        s.personhood.contains_key(a) ==> status_of(s, a) == s.personhood[a],
        !s.personhood.contains_key(a) ==> status_of(s, a) is Unverified,
        s.total_issued <= s.total_supply ==> headroom(s) == s.total_supply - s.total_issued,
        s.total_issued > s.total_supply ==> headroom(s) == 0,
        proof_outstanding(s, a) <==> s.probationary_validators.contains(a)
            && !s.probation_seen.contains(a),
{
}

/// A transaction of a sender who is out of turn or cannot pay always fits. Of any
/// other, only the arithmetic that its operation does has to fit.
pub proof fn only_what_is_added_up_needs_room(
    s: StateModel,
    tx: Transaction,
    f: Findings,
    height: u64,
)
    requires
        s.wf(),
    ensures
        ({
            let a = s.account(tx.from@);
            let fits = transaction_fits(s, tx, f, height);
            let due = a.nonce == tx.nonce && a.balance >= tx.fee;
            &&& !due ==> fits
            &&& due && tx.nonce == u64::MAX ==> !fits
            &&& due && tx.nonce < u64::MAX && (tx.tx_type is RegisterName
                || tx.tx_type is RegisterIdentity || tx.tx_type is RegisterGuardians
                || tx.tx_type is ApproveRecovery || tx.tx_type is DeployContract
                || tx.tx_type is ProvePersonhood || tx.tx_type is ClaimUnbonded
                || tx.tx_type is CancelRecoveryRequest || tx.tx_type is SetCommission
                || tx.tx_type is ProbationHeartbeat || tx.tx_type is Unjail) ==> fits
            &&& due && tx.nonce < u64::MAX && (tx.tx_type is Transfer || tx.tx_type is Stake)
                && tx.amount + tx.fee <= u64::MAX ==> fits
            &&& due && tx.nonce < u64::MAX && (tx.tx_type is Unstake || tx.tx_type is Undelegate)
                ==> (fits <==> height + 302_400 <= u64::MAX)
            &&& due && tx.nonce < u64::MAX && tx.tx_type is CreateProposal ==> (fits
                <==> s.next_proposal_id < u64::MAX && height + 1000 <= u64::MAX)
            &&& due && tx.nonce < u64::MAX && tx.tx_type is VoteProposal && (forall|id: u64| #[trigger]
                s.proposals.contains_key(id) ==> s.proposals[id].total_staked_at_creation
                    <= 0x7fff_ffff_ffff_ffff) ==> fits
            &&& due && tx.nonce < u64::MAX && tx.tx_type is SubmitDoubleSignEvidence
                && s.total_burned + s.wealth() <= u64::MAX ==> fits
            &&& due && tx.nonce < u64::MAX && tx.tx_type is CallContract && tx.amount + tx.fee
                <= u64::MAX && f.call is Err ==> fits
        }),
{
}

} // verus!
