//! Executing blocks.
use crate::crypto::hex_text::hex_chars;
use crate::crypto::Address;
use crate::executor::account::MIN_JAIL_BLOCKS;
use crate::executor::delegation::pruned;
use crate::executor::engine::{
    execute_checked_transaction, executed, recovery_key_of, transaction_fits, transaction_has_room,
    verify_tx_signature,
};
use crate::executor::fees::{
    credit_validator_reward, reward_leaves_books, rewarded, saturated,
};
use crate::executor::genesis::{block_reward, scheduled_block_reward};
use crate::executor::quorum::{counters_fit, participation, participation_only_jails, stake_sum};
use crate::executor::receipt::{receipt_models, BlockReceipt, BlockReceiptModel, Receipt, ReceiptModel};
use crate::executor::state::{headroom, ChainState, StateModel, QUORUM_LIMIT, VALUE_LIMIT};
use crate::executor::validators::liveness_recorded;
use crate::executor::value::books_keep_wf;
use crate::identity::personhood::address_texts;
use crate::table::{in_key_order, items_ascend, KeySet};
use crate::transaction::{authentic, Block, Findings, Transaction};
use vstd::prelude::*;

verus! {

/// A block's transactions and what was found of each.
pub struct Batch {
    pub txs: Seq<Transaction>,
    pub findings: Seq<Findings>,
    pub recipient: Seq<char>,
    pub height: u64,
    pub base_fee_per_byte: u64,
}

/// The state and the receipts after the first `n` transactions of a block, the
/// signature of each checked against the state that it meets.
pub open spec fn after_transactions(s: StateModel, b: Batch, n: nat) -> (
    StateModel,
    Seq<ReceiptModel>,
)
    decreases n,
{
    if n == 0 {
        (s, Seq::empty())
    } else {
        let before = after_transactions(s, b, (n - 1) as nat);
        let step = executed(
            before.0,
            b.txs[n - 1],
            b.findings[n - 1],
            authentic(b.txs[n - 1], recovery_key_of(before.0, b.txs[n - 1].from@)),
            b.recipient,
            b.height,
            b.base_fee_per_byte,
        );
        (step.0, before.1.push(step.1))
    }
}

/// The arithmetic of a block's `i`-th transaction fits on the state that it meets.
pub open spec fn entry_fits(s: StateModel, b: Batch, i: int) -> bool {
    transaction_fits(after_transactions(s, b, i as nat).0, b.txs[i], b.findings[i], b.height)
}

/// The arithmetic of every transaction of a block fits, each on the state that it meets.
pub open spec fn batch_fits(s: StateModel, b: Batch) -> bool {
    forall|i: int| 0 <= i < b.txs.len() ==> #[trigger] entry_fits(s, b, i)
}

/// The fees of a list of transactions, added up.
pub open spec fn fee_sum(txs: Seq<Transaction>) -> nat
    decreases txs.len(),
{
    if txs.len() == 0 {
        0
    } else {
        fee_sum(txs.drop_last()) + txs.last().fee as nat
    }
}

pub open spec fn burned_sum(rs: Seq<ReceiptModel>) -> nat
    decreases rs.len(),
{
    if rs.len() == 0 {
        0
    } else {
        burned_sum(rs.drop_last()) + rs.last().fee_burned as nat
    }
}

pub open spec fn reward_sum(rs: Seq<ReceiptModel>) -> nat
    decreases rs.len(),
{
    if rs.len() == 0 {
        0
    } else {
        reward_sum(rs.drop_last()) + rs.last().fee_to_validator as nat
    }
}

proof fn fee_sum_grows(txs: Seq<Transaction>, i: int)
    requires
        0 <= i <= txs.len(),
    ensures
        fee_sum(txs.take(i)) <= fee_sum(txs),
    decreases txs.len() - i,
{
    if i == txs.len() {
        assert(txs.take(i) =~= txs);
    } else {
        fee_sum_grows(txs, i + 1);
        assert(txs.take(i + 1).drop_last() =~= txs.take(i));
    }
}

/// What a block's header says that the state depends on.
pub struct Closing {
    pub height: u64,
    pub proposer: Seq<char>,
    pub signers: Set<Seq<char>>,
    pub ends_epoch: bool,
    pub recipient: Seq<char>,
}

/// The fees that were burned are booked, and moves whose time is up are forgotten.
pub open spec fn settled(s: StateModel, burned: nat, height: u64) -> StateModel {
    pruned(
        StateModel { total_burned: saturated(s.total_burned + burned), ..s },
        height,
    )
}

/// What the block's certificate says of the active validators, and whom it jails.
pub open spec fn certified(s: StateModel, c: Closing) -> (StateModel, Seq<Seq<char>>) {
    let (t, jailed) = participation(
        s,
        in_key_order::<Address>(s.active_validators),
        c.signers,
        c.height,
    );
    (liveness_recorded(t, c.signers, c.proposer), jailed)
}

/// The validator set, rotated if the epoch ends.
pub open spec fn turned(s: StateModel, c: Closing) -> StateModel {
    if c.ends_epoch {
        s.rotated()
    } else {
        s
    }
}

/// How much is minted for a block: what the schedule says, within the supply.
pub open spec fn mint_for(s: StateModel, height: u64) -> u64 {
    if block_reward(height as nat) <= headroom(s) {
        block_reward(height as nat) as u64
    } else {
        headroom(s)
    }
}

/// The block's reward has been minted and paid out.
pub open spec fn minted_for(s: StateModel, c: Closing) -> StateModel {
    let amount = mint_for(s, c.height);
    if amount > 0 {
        let t = rewarded(s, c.recipient, amount);
        StateModel { total_issued: (s.total_issued + amount) as u64, ..t }
    } else {
        s
    }
}

/// The state before a block's reward is minted, once its transactions are done.
pub open spec fn before_mint(s: StateModel, burned: nat, c: Closing) -> StateModel {
    turned(certified(settled(s, burned, c.height), c).0, c)
}

/// The state after a block whose transactions have led to `s` and burned `burned` in fees.
pub open spec fn closed_block(s: StateModel, burned: nat, c: Closing) -> StateModel {
    minted_for(before_mint(s, burned, c), c)
}

/// What closing a block asks of the state that its transactions have led to: the
/// active validators' quorum can be reckoned, their counters have room, and there
/// is room for the reward.
pub open spec fn closing_fits(s: StateModel, height: u64) -> bool {
    &&& s.wf()
    &&& height + MIN_JAIL_BLOCKS <= u64::MAX
    &&& s.active_validators.len() <= u32::MAX
    &&& counters_fit(s, s.active_validators.len())
    &&& stake_sum(s, in_key_order::<Address>(s.active_validators)) <= QUORUM_LIMIT
    &&& s.wealth() + mint_for(s, height) <= VALUE_LIMIT
}

/// The stake behind validators depends on accounts and pools alone.
proof fn stake_sum_reads_stake(s: StateModel, t: StateModel, list: Seq<Seq<char>>)
    requires
        t.accounts == s.accounts,
        t.validator_pools == s.validator_pools,
    ensures
        stake_sum(t, list) == stake_sum(s, list),
    decreases list.len(),
{
    if list.len() > 0 {
        stake_sum_reads_stake(s, t, list.drop_last());
        assert(t.effective(list.last()) == s.effective(list.last()));
    }
}

fn signer_set(list: &Vec<Address>) -> (r: KeySet<Address>)
    ensures
        r@ == address_texts(list@).to_set(),
{
    let ghost texts = address_texts(list@);
    let mut set: KeySet<Address> = KeySet::new();
    let mut i: usize = 0;
    proof {
        assert(texts.take(0).to_set() =~= Set::empty());
    }
    while i < list.len()
        invariant
            i <= list@.len(),
            texts == address_texts(list@),
            set@ == texts.take(i as int).to_set(),
        decreases list.len() - i,
    {
        set.insert(list[i].clone());
        proof {
            assert(texts.take(i + 1) =~= texts.take(i as int).push(texts[i as int]));
            texts.take(i as int).lemma_push_to_set_commute(texts[i as int]);
        }
        i = i + 1;
    }
    proof {
        assert(texts.take(i as int) =~= texts);
    }
    set
}

fn list_of(set: &KeySet<Address>) -> (r: Vec<Address>)
    ensures
        address_texts(r@) == in_key_order::<Address>(set@),
        items_ascend::<Address>(in_key_order::<Address>(set@)),
        r@.len() == set@.len(),
{
    let n: usize = set.len();
    let mut out: Vec<Address> = Vec::new();
    let mut i: usize = 0;
    while i < n
        invariant
            i <= n == set.items().len(),
            out@.len() == i,
            forall|k: int| 0 <= k < i ==> (#[trigger] out@[k])@ == set.items()[k],
        decreases n - i,
    {
        out.push(set.item_at(i).clone());
        i = i + 1;
    }
    proof {
        assert(address_texts(out@) =~= in_key_order::<Address>(set@));
    }
    out
}

/// Ends a block whose transactions have been executed: books the burned fees,
/// judges the certificate, rotates the validators if the epoch ends and mints the
/// reward. Returns the reward and the newly jailed.
pub fn close_block(
    state: &mut ChainState,
    block: &Block,
    recipient: &Address,
    total_burned: u64,
) -> (r: (u64, Vec<Address>))
    requires
        closing_fits(old(state)@, block.header.height),
    ensures
        final(state)@ == closed_block(
            old(state)@,
            total_burned as nat,
            closing_of(*block, recipient@),
        ),
        r.0 == mint_for(
            before_mint(old(state)@, total_burned as nat, closing_of(*block, recipient@)),
            block.header.height,
        ),
        address_texts(r.1@) == certified(
            settled(old(state)@, total_burned as nat, block.header.height),
            closing_of(*block, recipient@),
        ).1,
        final(state)@.wf(),
        final(state)@.wealth() == old(state)@.wealth() + r.0,
        final(state)@.total_burned == saturated(old(state)@.total_burned + total_burned),
        final(state)@.total_issued == old(state)@.total_issued + r.0,
        final(state)@.total_supply == old(state)@.total_supply,
        r.0 == mint_for(old(state)@, block.header.height),
{
    let ghost s0 = state@;
    let ghost c = closing_of(*block, recipient@);
    let height: u64 = block.header.height;
    state.total_burned = state.total_burned.saturating_add(total_burned);
    proof {
        books_keep_wf(s0, state@);
    }
    state.prune_expired_redelegations(height);
    let ghost s1 = state@;
    proof {
        assert(s1 == settled(s0, total_burned as nat, height));
    }
    let signers = signer_set(&block.header.last_commit);
    let current = list_of(&state.active_validators);
    proof {
        stake_sum_reads_stake(s0, s1, address_texts(current@));
        assert forall|a: Seq<char>| #[trigger]
            s1.missed_blocks.contains_key(a) implies s1.missed_blocks[a]
            + s1.active_validators.len() <= u32::MAX by {
            assert(s0.missed_blocks.contains_key(a));
        }
        participation_only_jails(s1, address_texts(current@), signers@, height);
    }
    let jailed = state.record_block_participation(current.as_slice(), &signers, height);
    let ghost s2 = state@;
    proof {
        assert(s2 == (StateModel {
            missed_blocks: s2.missed_blocks,
            jailed_until: s2.jailed_until,
            active_validators: s2.active_validators,
            ..s1
        }));
        books_keep_wf(s1, s2);
    }
    state.record_probation_liveness(&signers, &block.header.validator);
    proof {
        books_keep_wf(s2, state@);
    }
    if block.header.ends_epoch {
        let ghost s3 = state@;
        state.rotate_active_validators();
        proof {
            books_keep_wf(s3, state@);
        }
    }
    let ghost s4 = state@;
    proof {
        assert(s4 == before_mint(s0, total_burned as nat, c));
    }
    let scheduled: u64 = scheduled_block_reward(height);
    let room: u64 = state.mintable_headroom();
    let minted: u64 = if scheduled <= room {
        scheduled
    } else {
        room
    };
    if minted > 0 {
        proof {
            reward_leaves_books(s4, recipient@, minted);
        }
        credit_validator_reward(state, recipient, minted);
        let ghost s5 = state@;
        state.total_issued = state.total_issued.saturating_add(minted);
        proof {
            books_keep_wf(s5, state@);
        }
    }
    (minted, jailed)
}

/// What a block's header says that the state depends on.
pub open spec fn closing_of(block: Block, recipient: Seq<char>) -> Closing {
    Closing {
        height: block.header.height,
        proposer: block.header.validator@,
        signers: address_texts(block.header.last_commit@).to_set(),
        ends_epoch: block.header.ends_epoch,
        recipient,
    }
}

/// A block's transactions with what was found of them.
pub open spec fn batch_of(block: Block, findings: Seq<Findings>, recipient: Seq<char>) -> Batch {
    Batch {
        txs: block.transactions@,
        findings,
        recipient,
        height: block.header.height,
        base_fee_per_byte: block.header.base_fee_per_byte,
    }
}

/// Whose account fees and rewards go to.
pub open spec fn recipient_of(block: Block, reward_address: Option<&Address>) -> Seq<char> {
    match reward_address {
        Some(a) => a@,
        None => block.header.validator@,
    }
}

/// The state and the receipt after a block.
pub open spec fn block_outcome(
    s: StateModel,
    block: Block,
    findings: Seq<Findings>,
    recipient: Seq<char>,
) -> (StateModel, BlockReceiptModel) {
    let b = batch_of(block, findings, recipient);
    let (t, receipts) = after_transactions(s, b, b.txs.len());
    (
        closed_block(t, burned_sum(receipts), closing_of(block, recipient)),
        final_receipt(t, receipts, block, recipient),
    )
}

/// What executing a block asks for: one finding for each transaction, fees that
/// add up to a number, and arithmetic that fits as far as the block is carried out.
pub open spec fn block_fits(
    s: StateModel,
    block: Block,
    findings: Seq<Findings>,
    recipient: Seq<char>,
) -> bool {
    &&& s.wf()
    &&& findings.len() == block.transactions@.len()
    &&& fee_sum(block.transactions@) <= u64::MAX
    &&& batch_fits(s, batch_of(block, findings, recipient))
    &&& closing_fits(
        after_transactions(
            s,
            batch_of(block, findings, recipient),
            block.transactions@.len(),
        ).0,
        block.header.height,
    )
}

/// A block in the course of being executed: the receipts so far and their sums.
///
/// What the virtual machine says of a contract call can depend on the calls before
/// it, so a block can also be executed one transaction at a time.
pub struct BlockRun {
    receipts: Vec<Receipt>,
    total_burned: u64,
    total_reward: u64,
}

impl View for BlockRun {
    type V = Seq<ReceiptModel>;

    closed spec fn view(&self) -> Seq<ReceiptModel> {
        receipt_models(self.receipts@)
    }
}

/// The state and the receipt after a transaction whose signature is checked against
/// the state that it meets.
pub open spec fn step_outcome(
    s: StateModel,
    block: Block,
    tx: Transaction,
    f: Findings,
    recipient: Seq<char>,
) -> (StateModel, ReceiptModel) {
    executed(
        s,
        tx,
        f,
        authentic(tx, recovery_key_of(s, tx.from@)),
        recipient,
        block.header.height,
        block.header.base_fee_per_byte,
    )
}

/// The receipt of a block that has been executed up to its end.
pub open spec fn final_receipt(
    t: StateModel,
    receipts: Seq<ReceiptModel>,
    block: Block,
    recipient: Seq<char>,
) -> BlockReceiptModel {
    let c = closing_of(block, recipient);
    let burned = burned_sum(receipts);
    BlockReceiptModel {
        block_hash: hex_chars(block.hash@),
        height: block.header.height,
        tx_receipts: receipts,
        total_burned: burned as u64,
        validator_reward: reward_sum(receipts) as u64,
        block_reward_minted: mint_for(before_mint(t, burned, c), c.height),
        newly_jailed: certified(settled(t, burned, c.height), c).1,
    }
}

impl BlockRun {
    /// The sums are those of the receipts.
    pub closed spec fn wf(&self) -> bool {
        &&& self.total_burned == burned_sum(self@)
        &&& self.total_reward == reward_sum(self@)
    }

    /// Before a block's first transaction.
    pub fn start() -> (r: Self)
        ensures
            r.wf(),
            r@ == Seq::<ReceiptModel>::empty(),
    {
        let r = BlockRun { receipts: Vec::new(), total_burned: 0, total_reward: 0 };
        proof {
            assert(r@ =~= Seq::<ReceiptModel>::empty());
        }
        r
    }

    /// How many transactions have been executed.
    pub fn done(&self) -> (r: usize)
        ensures
            r == self@.len(),
    {
        self.receipts.len()
    }

    /// Executes the next transaction of the block. One that cannot be executed is
    /// recorded as failed.
    pub fn step(
        &mut self,
        state: &mut ChainState,
        block: &Block,
        findings: &Findings,
        recipient: &Address,
    )
        requires
            old(self).wf(),
            old(self)@.len() < block.transactions@.len(),
            transaction_fits(
                old(state)@,
                block.transactions@[old(self)@.len() as int],
                *findings,
                block.header.height,
            ),
            burned_sum(old(self)@) + reward_sum(old(self)@) + block.transactions@[old(
                self,
            )@.len() as int].fee <= u64::MAX,
        ensures
            final(self).wf(),
            (final(state)@, final(self)@.last()) == step_outcome(
                old(state)@,
                *block,
                block.transactions@[old(self)@.len() as int],
                *findings,
                recipient@,
            ),
            final(self)@.drop_last() == old(self)@,
            final(self)@.len() == old(self)@.len() + 1,
            final(state)@.wf(),
            final(state)@.wealth() + final(self)@.last().fee_burned + final(state)@.total_burned
                == old(state)@.wealth() + old(state)@.total_burned,
            final(state)@.total_burned >= old(state)@.total_burned,
            final(self)@.last().fee_burned + final(self)@.last().fee_to_validator
                <= block.transactions@[old(self)@.len() as int].fee,
            validators_untouched(old(state)@, final(state)@),
    {
        let ghost before = state@;
        let ghost was = self@;
        let tx = &block.transactions[self.receipts.len()];
        let verdict = verify_tx_signature(state, tx);
        let receipt = execute_checked_transaction(
            state,
            tx,
            findings,
            verdict,
            recipient,
            block.header.height,
            block.header.base_fee_per_byte,
        );
        proof {
            transactions_leave_validators(
                before,
                *tx,
                *findings,
                verdict,
                recipient@,
                block.header.height,
                block.header.base_fee_per_byte,
            );
        }
        self.total_burned = self.total_burned + receipt.fee_burned;
        self.total_reward = self.total_reward + receipt.fee_to_validator;
        let ghost step = receipt@;
        self.receipts.push(receipt);
        proof {
            assert(self@ =~= was.push(step));
            assert(self@.drop_last() =~= was);
        }
    }

    /// Closes the block once its transactions are done. Fees and the reward go to
    /// `recipient`.
    pub fn finish(self, state: &mut ChainState, block: &Block, recipient: &Address) -> (r: BlockReceipt)
        requires
            self.wf(),
            closing_fits(old(state)@, block.header.height),
        ensures
            final(state)@ == closed_block(
                old(state)@,
                burned_sum(self@),
                closing_of(*block, recipient@),
            ),
            r@ == final_receipt(old(state)@, self@, *block, recipient@),
            final(state)@.wf(),
            final(state)@.wealth() == old(state)@.wealth() + r.block_reward_minted,
            final(state)@.total_burned == saturated(
                (old(state)@.total_burned + burned_sum(self@)) as int,
            ),
            final(state)@.total_issued == old(state)@.total_issued + r.block_reward_minted,
            final(state)@.total_supply == old(state)@.total_supply,
            r.block_reward_minted == mint_for(old(state)@, block.header.height),
            burned_sum(self@) <= u64::MAX,
            reward_sum(self@) <= u64::MAX,
    {
        let (minted, jailed) = close_block(state, block, recipient, self.total_burned);
        BlockReceipt {
            block_hash: block.hash.to_hex(),
            height: block.header.height,
            total_burned: self.total_burned,
            validator_reward: self.total_reward,
            tx_receipts: self.receipts,
            block_reward_minted: minted,
            newly_jailed: jailed,
        }
    }
}

/// Whether a block's arithmetic fits, found out on a copy of the state.
#[verifier::rlimit(40)]
pub fn block_has_room(
    state: &ChainState,
    block: &Block,
    findings: &Vec<Findings>,
    reward_address: Option<&Address>,
) -> (r: bool)
    ensures
        r == block_fits(state@, *block, findings@, recipient_of(*block, reward_address)),
{
    if findings.len() != block.transactions.len() || !state.is_well_formed() {
        return false;
    }
    let recipient = match reward_address {
        Some(a) => a,
        None => &block.header.validator,
    };
    let ghost s = state@;
    let ghost txs = block.transactions@;
    let ghost b = batch_of(*block, findings@, recipient@);
    let mut trial = state.clone();
    let mut run = BlockRun::start();
    let mut fees: u64 = 0;
    let mut i: usize = 0;
    proof {
        assert(txs.take(0) =~= Seq::empty());
    }
    while i < block.transactions.len()
        invariant
            i <= block.transactions@.len(),
            txs == block.transactions@,
            findings@.len() == txs.len(),
            b == batch_of(*block, findings@, recipient@),
            recipient@ == recipient_of(*block, reward_address),
            trial@.wf(),
            run.wf(),
            run@.len() == i,
            (trial@, run@) == after_transactions(s, b, i as nat),
            forall|k: int| 0 <= k < i ==> #[trigger] entry_fits(s, b, k),
            fees == fee_sum(txs.take(i as int)),
            burned_sum(run@) + reward_sum(run@) <= fees,
            s == state@,
            s.wf(),
        decreases block.transactions.len() - i,
    {
        let tx = &block.transactions[i];
        let ghost was = run@;
        proof {
            fee_sum_grows(txs, i + 1);
            assert(txs.take(i + 1).drop_last() =~= txs.take(i as int));
            assert(txs.take(i + 1).last() == *tx);
            assert(entry_fits(s, b, i as int) == transaction_fits(
                trial@,
                *tx,
                findings@[i as int],
                block.header.height,
            ));
        }
        fees = match fees.checked_add(tx.fee) {
            Some(sum) => sum,
            None => {
                return false;
            },
        };
        if !transaction_has_room(&trial, tx, &findings[i], block.header.height) {
            return false;
        }
        run.step(&mut trial, block, &findings[i], recipient);
        proof {
            assert(run@ =~= was.push(run@.last()));
        }
        i = i + 1;
    }
    proof {
        assert(txs.take(i as int) =~= txs);
    }
    trial.closing_has_room(block.header.height)
}

/// Executes a block if its arithmetic fits, and leaves the state alone if not.
pub fn execute_block_with_room(
    state: &mut ChainState,
    block: &Block,
    findings: &Vec<Findings>,
    reward_address: Option<&Address>,
) -> (r: Option<BlockReceipt>)
    ensures
        match r {
            Some(receipt) => {
                &&& block_fits(
                    old(state)@,
                    *block,
                    findings@,
                    recipient_of(*block, reward_address),
                )
                &&& (final(state)@, receipt@) == block_outcome(
                    old(state)@,
                    *block,
                    findings@,
                    recipient_of(*block, reward_address),
                )
                &&& final(state)@.wf()
                &&& final(state)@.total_supply == old(state)@.total_supply
                &&& final(state)@.total_issued == old(state)@.total_issued
                    + receipt.block_reward_minted
                &&& receipt.block_reward_minted == mint_for(old(state)@, block.header.height)
                &&& old(state)@.total_issued <= old(state)@.total_supply
                    ==> final(state)@.total_issued <= final(state)@.total_supply
                &&& receipt@.tx_receipts.len() == block.transactions@.len()
                &&& receipt.total_burned == burned_sum(receipt@.tx_receipts)
                &&& receipt.validator_reward == reward_sum(receipt@.tx_receipts)
            },
            None => {
                &&& !block_fits(
                    old(state)@,
                    *block,
                    findings@,
                    recipient_of(*block, reward_address),
                )
                &&& final(state)@ == old(state)@
            },
        },
{
    if block_has_room(state, block, findings, reward_address) {
        Some(execute_block(state, block, findings, reward_address))
    } else {
        None
    }
}

/// Executes a block's transactions in order, then closes the block. A transaction
/// that cannot be executed is recorded as failed and does not stop the block.
/// Fees and the reward go to `reward_address`, or to the block's validator. The
/// reward is what the schedule says, as far as the supply allows. Value neither
/// appears nor vanishes: beside the reward, what accounts and pools lose is what
/// is burned.
#[verifier::rlimit(40)]
pub fn execute_block(
    state: &mut ChainState,
    block: &Block,
    findings: &Vec<Findings>,
    reward_address: Option<&Address>,
) -> (r: BlockReceipt)
    requires
        block_fits(old(state)@, *block, findings@, recipient_of(*block, reward_address)),
    ensures
        (final(state)@, r@) == block_outcome(
            old(state)@,
            *block,
            findings@,
            recipient_of(*block, reward_address),
        ),
        final(state)@.wf(),
        old(state)@.solvent() ==> final(state)@.solvent(),
        final(state)@.total_supply == old(state)@.total_supply,
        final(state)@.total_issued == old(state)@.total_issued + r.block_reward_minted,
        r.block_reward_minted == mint_for(old(state)@, block.header.height),
        old(state)@.total_issued <= old(state)@.total_supply ==> final(state)@.total_issued
            <= final(state)@.total_supply,
        r@.tx_receipts.len() == block.transactions@.len(),
        r.total_burned == burned_sum(r@.tx_receipts),
        r.validator_reward == reward_sum(r@.tx_receipts),
        final(state)@.wealth() <= old(state)@.wealth() + r.block_reward_minted,
        old(state)@.wealth() + old(state)@.total_burned <= u64::MAX ==> final(state)@.wealth()
            + final(state)@.total_burned == old(state)@.wealth() + old(state)@.total_burned
            + r.block_reward_minted,
{
    let recipient = match reward_address {
        Some(a) => a,
        None => &block.header.validator,
    };
    let ghost s = state@;
    let ghost txs = block.transactions@;
    let ghost b = batch_of(*block, findings@, recipient@);
    let mut run = BlockRun::start();
    let mut i: usize = 0;
    proof {
        assert(txs.take(0) =~= Seq::empty());
    }
    while i < block.transactions.len()
        invariant
            i <= block.transactions@.len(),
            txs == block.transactions@,
            findings@.len() == txs.len(),
            b == batch_of(*block, findings@, recipient@),
            batch_fits(s, b),
            fee_sum(txs) <= u64::MAX,
            state@.wf(),
            run.wf(),
            run@.len() == i,
            (state@, run@) == after_transactions(s, b, i as nat),
            burned_sum(run@) + reward_sum(run@) <= fee_sum(txs.take(i as int)),
            state@.wealth() + burned_sum(run@) + state@.total_burned == s.wealth() + s.total_burned,
            state@.total_burned >= s.total_burned,
            validators_untouched(s, state@),
        decreases block.transactions.len() - i,
    {
        let ghost tx = txs[i as int];
        let ghost was = run@;
        proof {
            assert(entry_fits(s, b, i as int));
            fee_sum_grows(txs, i + 1);
            assert(txs.take(i + 1).drop_last() =~= txs.take(i as int));
            assert(txs.take(i + 1).last() == tx);
        }
        run.step(state, block, &findings[i], recipient);
        proof {
            assert(run@ =~= was.push(run@.last()));
        }
        i = i + 1;
    }
    proof {
        assert(txs.take(i as int) =~= txs);
    }
    run.finish(state, block, recipient)
}

/// Transactions do not touch the active validators or the missed-block counters,
/// nor what was issued.
pub open spec fn validators_untouched(s: StateModel, t: StateModel) -> bool {
    &&& t.active_validators == s.active_validators
    &&& t.missed_blocks == s.missed_blocks
    &&& t.total_issued == s.total_issued
    &&& t.total_supply == s.total_supply
}

proof fn transactions_leave_validators(
    s: StateModel,
    tx: Transaction,
    f: Findings,
    signed: bool,
    validator: Seq<char>,
    height: u64,
    base_fee_per_byte: u64,
)
    requires
        s.wf(),
    ensures
        validators_untouched(
            s,
            executed(s, tx, f, signed, validator, height, base_fee_per_byte).0,
        ),
{
    crate::executor::engine::operation_leaves_validators(s, tx, f, height);
}

} // verus!
