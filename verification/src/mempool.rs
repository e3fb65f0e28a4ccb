//! The pool of transactions that wait for a block.
//!
//! The pool holds no chain state and no clock: whoever calls it says what time it
//! is and which nonces are spent.
use crate::crypto::hash::Digest;
use crate::crypto::hex_text::hex_chars;
use crate::crypto::{Address, PublicKey};
use crate::executor::contracts::saturating_product;
use crate::executor::fees::saturated;
use crate::order::{rank_text, text_before, Key, Rank};
use crate::table::{in_key_order, items_ascend, keys_ascend, map_of_entries, KeySet, Table};
use crate::text::{decimal, decimal_text, joined2, joined3, joined4, joined5, texts};
use crate::transaction::{
    authentic, forgery, key_view, same_transaction, Transaction, TxType,
};
use std::collections::VecDeque;
use vstd::prelude::*;

verus! {

pub const DEFAULT_MAX_SIZE: usize = 10_000;

/// The least fee, in nano-HLX.
pub const DEFAULT_MIN_FEE: u64 = 1_000;

/// How long a transaction may wait, in milliseconds: half an hour.
pub const DEFAULT_TTL_MS: u64 = 1_800_000;

/// How many expired transactions are remembered.
pub const EXPIRED_MEMORY: usize = 4096;

/// The base fee of a fresh chain, in nano-HLX for each byte.
pub const INITIAL_BASE_FEE_PER_BYTE: u64 = 1;

#[derive(Debug)]
pub enum MempoolError {
    AlreadyExists(String),
    NoncePending { from: String, nonce: u64 },
    Full(usize),
    FeeTooLow { got: u64, min: u64 },
    BelowBaseFee { got: u64, need: u64, size_bytes: u64, base_fee_per_byte: u64 },
    Invalid(String),
    ForeignChain { theirs: String, ours: String },
    NonceSpent { from: String, nonce: u64, account_nonce: u64 },
}

/// A `MempoolError` with its texts as characters.
pub enum MempoolFault {
    AlreadyExists(Seq<char>),
    NoncePending { from: Seq<char>, nonce: u64 },
    Full(usize),
    FeeTooLow { got: u64, min: u64 },
    BelowBaseFee { got: u64, need: u64, size_bytes: u64, base_fee_per_byte: u64 },
    Invalid(Seq<char>),
    ForeignChain { theirs: Seq<char>, ours: Seq<char> },
    NonceSpent { from: Seq<char>, nonce: u64, account_nonce: u64 },
}

impl View for MempoolError {
    type V = MempoolFault;

    open spec fn view(&self) -> MempoolFault {
        match *self {
            MempoolError::AlreadyExists(h) => MempoolFault::AlreadyExists(h@),
            MempoolError::NoncePending { from, nonce } => MempoolFault::NoncePending {
                from: from@,
                nonce,
            },
            MempoolError::Full(n) => MempoolFault::Full(n),
            MempoolError::FeeTooLow { got, min } => MempoolFault::FeeTooLow { got, min },
            MempoolError::BelowBaseFee { got, need, size_bytes, base_fee_per_byte } => {
                MempoolFault::BelowBaseFee { got, need, size_bytes, base_fee_per_byte }
            },
            MempoolError::Invalid(words) => MempoolFault::Invalid(words@),
            MempoolError::ForeignChain { theirs, ours } => MempoolFault::ForeignChain {
                theirs: theirs@,
                ours: ours@,
            },
            MempoolError::NonceSpent { from, nonce, account_nonce } => MempoolFault::NonceSpent {
                from: from@,
                nonce,
                account_nonce,
            },
        }
    }
}

impl MempoolFault {
    pub open spec fn words(self) -> Seq<char> {
        match self {
            MempoolFault::AlreadyExists(h) => "Transaction "@ + h + " already in mempool"@,
            MempoolFault::NoncePending { from, nonce } => {
                "Nonce already pending: a transaction from "@ + from + " with nonce "@ + decimal(
                    nonce as nat,
                ) + " is already in the mempool"@
            },
            MempoolFault::Full(n) => "Mempool full (max "@ + decimal(n as nat) + " transactions)"@,
            MempoolFault::FeeTooLow { got, min } => "Fee too low: got "@ + decimal(got as nat)
                + ", minimum "@ + decimal(min as nat),
            MempoolFault::BelowBaseFee { got, need, size_bytes, base_fee_per_byte } => {
                "Fee below the block base fee: got "@ + decimal(got as nat) + ", need at least "@
                    + decimal(need as nat) + (" ("@ + decimal(size_bytes as nat) + " bytes × "@
                    + decimal(base_fee_per_byte as nat) + " nano-HLX/byte)"@)
            },
            MempoolFault::Invalid(w) => "Invalid transaction: "@ + w,
            MempoolFault::ForeignChain { theirs, ours } => {
                "Signed for a different chain: transaction "@ + theirs + ", this chain "@ + ours
            },
            MempoolFault::NonceSpent { from, nonce, account_nonce } => {
                "Nonce already spent: "@ + from + " is on nonce "@ + decimal(account_nonce as nat)
                    + (", this transaction signs nonce "@ + decimal(nonce as nat)
                    + " — it can never be applied"@)
            },
        }
    }
}

impl MempoolError {
    /// The error in words.
    pub fn message(&self) -> (r: String)
        ensures
            r@ == self@.words(),
    {
        match self {
            MempoolError::AlreadyExists(h) => {
                joined3("Transaction ", h.as_str(), " already in mempool")
            },
            MempoolError::NoncePending { from, nonce } => {
                let nonce = decimal_text(*nonce);
                joined5(
                    "Nonce already pending: a transaction from ",
                    from.as_str(),
                    " with nonce ",
                    nonce.as_str(),
                    " is already in the mempool",
                )
            },
            MempoolError::Full(n) => {
                let n = decimal_text(*n as u64);
                joined3("Mempool full (max ", n.as_str(), " transactions)")
            },
            MempoolError::FeeTooLow { got, min } => {
                let got = decimal_text(*got);
                let min = decimal_text(*min);
                joined4("Fee too low: got ", got.as_str(), ", minimum ", min.as_str())
            },
            MempoolError::BelowBaseFee { got, need, size_bytes, base_fee_per_byte } => {
                let got = decimal_text(*got);
                let need = decimal_text(*need);
                let size = decimal_text(*size_bytes);
                let price = decimal_text(*base_fee_per_byte);
                let first = joined4(
                    "Fee below the block base fee: got ",
                    got.as_str(),
                    ", need at least ",
                    need.as_str(),
                );
                let second = joined5(
                    " (",
                    size.as_str(),
                    " bytes × ",
                    price.as_str(),
                    " nano-HLX/byte)",
                );
                joined2(first.as_str(), second.as_str())
            },
            MempoolError::Invalid(w) => joined2("Invalid transaction: ", w.as_str()),
            MempoolError::ForeignChain { theirs, ours } => joined4(
                "Signed for a different chain: transaction ",
                theirs.as_str(),
                ", this chain ",
                ours.as_str(),
            ),
            MempoolError::NonceSpent { from, nonce, account_nonce } => {
                let nonce = decimal_text(*nonce);
                let current = decimal_text(*account_nonce);
                let first = joined4(
                    "Nonce already spent: ",
                    from.as_str(),
                    " is on nonce ",
                    current.as_str(),
                );
                let second = joined3(
                    ", this transaction signs nonce ",
                    nonce.as_str(),
                    " — it can never be applied",
                );
                joined2(first.as_str(), second.as_str())
            },
        }
    }
}

pub type MempoolResult<T> = Result<T, MempoolError>;

/// A sender and a nonce: only one transaction can ever use them.
pub struct Slot {
    pub from: String,
    pub nonce: u64,
}

impl View for Slot {
    type V = (Seq<char>, u64);

    open spec fn view(&self) -> (Seq<char>, u64) {
        (self.from@, self.nonce)
    }
}

impl Key for Slot {
    /// By sender, then by nonce.
    open spec fn precedes(a: (Seq<char>, u64), b: (Seq<char>, u64)) -> bool {
        text_before(a.0, b.0) || (a.0 == b.0 && a.1 < b.1)
    }

    proof fn order_is_irreflexive(a: (Seq<char>, u64)) {
        <String as Key>::order_is_irreflexive(a.0);
        assert(!text_before(a.0, a.0));
        assert(Self::precedes(a, a) == (text_before(a.0, a.0) || (a.0 == a.0 && a.1 < a.1)));
    }

    proof fn order_is_transitive(a: (Seq<char>, u64), b: (Seq<char>, u64), c: (Seq<char>, u64)) {
        if text_before(a.0, b.0) && text_before(b.0, c.0) {
            <String as Key>::order_is_transitive(a.0, b.0, c.0);
            assert(text_before(a.0, c.0));
        }
        assert(Self::precedes(a, c) == (text_before(a.0, c.0) || (a.0 == c.0 && a.1 < c.1)));
    }

    proof fn order_is_total(a: (Seq<char>, u64), b: (Seq<char>, u64)) {
        <String as Key>::order_is_total(a.0, b.0);
        assert(Self::precedes(a, b) == (text_before(a.0, b.0) || (a.0 == b.0 && a.1 < b.1)));
        assert(Self::precedes(b, a) == (text_before(b.0, a.0) || (b.0 == a.0 && b.1 < a.1)));
    }

    fn rank(&self, other: &Self) -> (r: Rank) {
        proof {
            <String as Key>::order_is_irreflexive(self.from@);
            assert(!text_before(self.from@, self.from@));
        }
        match rank_text(self.from.as_str(), other.from.as_str()) {
            Rank::Below => Rank::Below,
            Rank::Above => Rank::Above,
            Rank::Same => if self.nonce == other.nonce {
                Rank::Same
            } else if self.nonce < other.nonce {
                Rank::Below
            } else {
                Rank::Above
            },
        }
    }

    fn copy_key(&self) -> (r: Self) {
        Slot { from: self.from.clone(), nonce: self.nonce }
    }
}

/// A transaction in the pool, with what it pays the validator and when it came.
pub struct Held {
    pub tx: Transaction,
    /// The fee less the base fee as it stood on admission.
    pub tip: u64,
    /// Time of admission, in milliseconds.
    pub entered: u64,
}

/// The slot that a transaction uses.
pub open spec fn slot_of(tx: Transaction) -> (Seq<char>, u64) {
    (tx.from@, tx.nonce)
}

/// The first of two transactions in the pool may stand before the second: it
/// pays at least as much, and they are not rivals for a slot.
pub open spec fn may_precede(a: Held, b: Held) -> bool {
    &&& a.tip >= b.tip
    &&& a.tx.hash@ != b.tx.hash@
    &&& slot_of(a.tx) != slot_of(b.tx)
}

/// The queue runs from the best payer to the worst and holds no rivals.
pub open spec fn orderly(q: Seq<Held>) -> bool {
    forall|i: int, j: int| 0 <= i < j < q.len() ==> may_precede(#[trigger] q[i], #[trigger] q[j])
}

/// A ring of recently expired transactions holds each once, and not too many.
pub open spec fn ring_ok(ring: Seq<Seq<char>>) -> bool {
    ring.no_duplicates() && ring.len() <= EXPIRED_MEMORY
}

/// The pool as it is seen from outside.
pub struct PoolModel {
    /// The transactions, best payer first, and first come first among equals.
    pub queue: Seq<Held>,
    /// Hashes of recently expired transactions, oldest first.
    pub expired: Seq<Seq<char>>,
    pub max_size: usize,
    pub min_fee: u64,
    pub exempt: Set<Seq<char>>,
    pub ttl_ms: u64,
    pub base_fee_per_byte: u64,
}

/// Transactions that wait for a block, best payer first.
pub struct Mempool {
    queue: Vec<Held>,
    expired: VecDeque<String>,
    expired_set: KeySet<String>,
    max_size: usize,
    min_fee: u64,
    fee_exempt_probationers: KeySet<Address>,
    ttl_ms: u64,
    base_fee_per_byte: u64,
}

impl View for Mempool {
    type V = PoolModel;

    closed spec fn view(&self) -> PoolModel {
        PoolModel {
            queue: self.queue@,
            expired: texts(self.expired@),
            max_size: self.max_size,
            min_fee: self.min_fee,
            exempt: self.fee_exempt_probationers@,
            ttl_ms: self.ttl_ms,
            base_fee_per_byte: self.base_fee_per_byte,
        }
    }
}

impl PoolModel {
    /// What every pool keeps.
    pub open spec fn wf(self) -> bool {
        &&& orderly(self.queue)
        &&& self.queue.len() <= self.max_size
        &&& ring_ok(self.expired)
    }

    /// Transactions that pay no base fee: evidence, and the heartbeats of known probationers.
    pub open spec fn is_exempt(self, tx: Transaction) -> bool {
        tx.tx_type is SubmitDoubleSignEvidence || (tx.tx_type is ProbationHeartbeat
            && self.exempt.contains(tx.from@))
    }

    /// The base fee for a transaction's size.
    pub open spec fn base_fee(self, tx: Transaction) -> u64 {
        saturated(self.base_fee_per_byte as int * tx.size_bytes as int)
    }

    /// What a transaction pays the validator.
    pub open spec fn tip(self, tx: Transaction) -> u64 {
        if self.is_exempt(tx) {
            tx.fee
        } else if tx.fee >= self.base_fee(tx) {
            (tx.fee - self.base_fee(tx)) as u64
        } else {
            0
        }
    }

    /// The transaction has waited too long.
    pub open spec fn is_stale(self, h: Held, now: u64) -> bool {
        now >= h.entered + self.ttl_ms || self.ttl_ms == 0
    }

    /// The pool without the transactions that have waited too long; they are remembered.
    pub open spec fn refreshed(self, now: u64) -> PoolModel {
        PoolModel {
            queue: self.queue.filter(|h: Held| !self.is_stale(h, now)),
            expired: ring_after(self, now, self.queue.len()),
            ..self
        }
    }

    /// The pool holds the transaction with this hash.
    pub open spec fn holds(self, hash: Seq<u8>) -> bool {
        exists|i: int| 0 <= i < self.queue.len() && (#[trigger] self.queue[i]).tx.hash@ == hash
    }

    /// The pool holds a transaction for this slot.
    pub open spec fn slot_taken(self, slot: (Seq<char>, u64)) -> bool {
        exists|i: int| 0 <= i < self.queue.len() && slot_of((#[trigger] self.queue[i]).tx) == slot
    }

    /// Why a transaction is not admitted.
    pub open spec fn refusal(
        self,
        tx: Transaction,
        recovery_key: Option<Seq<u8>>,
        chain_id: Seq<u8>,
        account_nonce: Option<u64>,
    ) -> Option<MempoolFault> {
        if tx.fee < self.min_fee && !self.is_exempt(tx) {
            Some(MempoolFault::FeeTooLow { got: tx.fee, min: self.min_fee })
        } else if !self.is_exempt(tx) && tx.fee < self.base_fee(tx) {
            Some(
                MempoolFault::BelowBaseFee {
                    got: tx.fee,
                    need: self.base_fee(tx),
                    size_bytes: tx.size_bytes,
                    base_fee_per_byte: self.base_fee_per_byte,
                },
            )
        } else if self.holds(tx.hash@) {
            Some(MempoolFault::AlreadyExists(hex_chars(tx.hash@)))
        } else if self.slot_taken(slot_of(tx)) {
            Some(MempoolFault::NoncePending { from: tx.from@, nonce: tx.nonce })
        } else if !authentic(tx, recovery_key) {
            Some(MempoolFault::Invalid(forgery(tx, recovery_key)->0))
        } else {
            self.late_refusal(tx, chain_id, account_nonce)
        }
    }

    /// Why an authentic transaction is not admitted after all.
    pub open spec fn late_refusal(
        self,
        tx: Transaction,
        chain_id: Seq<u8>,
        account_nonce: Option<u64>,
    ) -> Option<MempoolFault> {
        if tx.chain_id@ != chain_id {
            Some(
                MempoolFault::ForeignChain {
                    theirs: hex_chars(tx.chain_id@),
                    ours: hex_chars(chain_id),
                },
            )
        } else if account_nonce is Some && tx.nonce < account_nonce->0 {
            Some(
                MempoolFault::NonceSpent {
                    from: tx.from@,
                    nonce: tx.nonce,
                    account_nonce: account_nonce->0,
                },
            )
        } else if self.queue.len() >= self.max_size && !self.outbid_by(self.tip(tx)) {
            Some(MempoolFault::Full(self.max_size))
        } else {
            None
        }
    }

    /// The worst payer in the pool pays less than this tip.
    pub open spec fn outbid_by(self, tip: u64) -> bool {
        self.queue.len() > 0 && tip > self.queue.last().tip
    }

    /// The pool with a place free: if it is full, the worst payer goes, the
    /// earliest among equals.
    pub open spec fn with_room(self) -> PoolModel {
        if self.queue.len() >= self.max_size && self.queue.len() > 0 {
            PoolModel {
                queue: self.queue.remove(rank_from(self.queue, self.queue.last().tip)),
                ..self
            }
        } else {
            self
        }
    }

    /// The pool with one more transaction, behind all that pay at least as much.
    pub open spec fn with(self, h: Held) -> PoolModel {
        PoolModel { queue: self.queue.insert(rank_behind(self.queue, h.tip), h), ..self }
    }

    /// The sender has used the transaction's nonce already.
    pub open spec fn is_spent(h: Held, nonces: Map<Seq<char>, u64>) -> bool {
        nonces.contains_key(h.tx.from@) && h.tx.nonce < nonces[h.tx.from@]
    }

    /// The pool without the transactions whose nonces are spent.
    pub open spec fn unspent(self, nonces: Map<Seq<char>, u64>) -> PoolModel {
        PoolModel {
            queue: self.queue.filter(|h: Held| !PoolModel::is_spent(h, nonces)),
            ..self
        }
    }
}

/// A ring with one more hash, unless it is there; the oldest goes when it is full.
pub open spec fn remembered(ring: Seq<Seq<char>>, hash: Seq<char>) -> Seq<Seq<char>> {
    if ring.contains(hash) {
        ring
    } else if ring.len() >= EXPIRED_MEMORY {
        ring.push(hash).drop_first()
    } else {
        ring.push(hash)
    }
}

/// The ring after the stale among the first `n` transactions are remembered.
pub open spec fn ring_after(p: PoolModel, now: u64, n: nat) -> Seq<Seq<char>>
    decreases n,
{
    if n == 0 {
        p.expired
    } else {
        let before = ring_after(p, now, (n - 1) as nat);
        if p.is_stale(p.queue[n - 1], now) {
            remembered(before, hex_chars(p.queue[n - 1].tx.hash@))
        } else {
            before
        }
    }
}

/// How many transactions at the front of a queue pay at least this tip.
pub open spec fn rank_behind(q: Seq<Held>, tip: u64) -> int
    decreases q.len(),
{
    if q.len() == 0 || q[0].tip < tip {
        0
    } else {
        1 + rank_behind(q.drop_first(), tip)
    }
}

/// How many transactions at the front of a queue pay more than this tip.
pub open spec fn rank_from(q: Seq<Held>, tip: u64) -> int
    decreases q.len(),
{
    if q.len() == 0 || q[0].tip <= tip {
        0
    } else {
        1 + rank_from(q.drop_first(), tip)
    }
}

proof fn rank_behind_is(q: Seq<Held>, tip: u64, n: int)
    requires
        0 <= n <= q.len(),
        forall|i: int| 0 <= i < n ==> (#[trigger] q[i]).tip >= tip,
        n < q.len() ==> q[n].tip < tip,
    ensures
        rank_behind(q, tip) == n,
    decreases q.len(),
{
    if n > 0 {
        assert(q[0].tip >= tip);
        assert forall|i: int| 0 <= i < n - 1 implies (#[trigger] q.drop_first()[i]).tip >= tip by {
            assert(q.drop_first()[i] == q[i + 1]);
        }
        rank_behind_is(q.drop_first(), tip, n - 1);
    }
}

proof fn rank_from_is(q: Seq<Held>, tip: u64, n: int)
    requires
        0 <= n <= q.len(),
        forall|i: int| 0 <= i < n ==> (#[trigger] q[i]).tip > tip,
        n < q.len() ==> q[n].tip <= tip,
    ensures
        rank_from(q, tip) == n,
    decreases q.len(),
{
    if n > 0 {
        assert(q[0].tip > tip);
        assert forall|i: int| 0 <= i < n - 1 implies (#[trigger] q.drop_first()[i]).tip > tip by {
            assert(q.drop_first()[i] == q[i + 1]);
        }
        rank_from_is(q.drop_first(), tip, n - 1);
    }
}

/// Leaving some transactions out keeps a queue orderly.
proof fn filter_keeps_order(q: Seq<Held>, keep: spec_fn(Held) -> bool)
    requires
        orderly(q),
    ensures
        orderly(q.filter(keep)),
        q.filter(keep).len() <= q.len(),
        forall|k: int|
            0 <= k < q.filter(keep).len() ==> exists|i: int|
                0 <= i < q.len() && #[trigger] q[i] == #[trigger] q.filter(keep)[k],
    decreases q.len(),
{
    reveal(Seq::filter);
    if q.len() > 0 {
        let front = q.drop_last();
        assert forall|i: int, j: int| 0 <= i < j < front.len() implies may_precede(
            #[trigger] front[i],
            #[trigger] front[j],
        ) by {
            assert(may_precede(q[i], q[j]));
        }
        filter_keeps_order(front, keep);
        let f = front.filter(keep);
        let g = q.filter(keep);
        let last = q[q.len() - 1];
        assert forall|i: int, j: int| 0 <= i < j < g.len() implies may_precede(
            #[trigger] g[i],
            #[trigger] g[j],
        ) by {
            if j < f.len() {
                assert(may_precede(f[i], f[j]));
            } else {
                let k = choose|k: int| 0 <= k < front.len() && #[trigger] front[k] == f[i];
                assert(may_precede(q[k], last));
            }
        }
        assert forall|k: int| 0 <= k < g.len() implies exists|i: int|
            0 <= i < q.len() && #[trigger] q[i] == #[trigger] g[k] by {
            if k < f.len() {
                let i = choose|i: int| 0 <= i < front.len() && #[trigger] front[i] == f[k];
                assert(q[i] == g[k]);
            } else {
                assert(q[q.len() - 1] == g[k]);
            }
        }
    }
}

/// One step of leaving transactions out of a queue in place.
proof fn sift_step(q: Seq<Held>, k: int, keep: spec_fn(Held) -> bool)
    requires
        0 <= k < q.len(),
    ensures
        q.take(k + 1).filter(keep) == (if keep(q[k]) {
            q.take(k).filter(keep).push(q[k])
        } else {
            q.take(k).filter(keep)
        }),
        q.skip(k).len() > 0,
        q.skip(k)[0] == q[k],
        q.skip(k).drop_first() == q.skip(k + 1),
{
    assert(q.take(k + 1) =~= q.take(k).push(q[k]));
    q.take(k).lemma_filter_push(q[k], keep);
    assert(q.skip(k).drop_first() =~= q.skip(k + 1));
}

proof fn ring_stays_ok(ring: Seq<Seq<char>>, hash: Seq<char>)
    requires
        ring_ok(ring),
    ensures
        ring_ok(remembered(ring, hash)),
{
    if !ring.contains(hash) {
        let longer = ring.push(hash);
        assert(longer.no_duplicates()) by {
            assert forall|i: int, j: int|
                0 <= i < longer.len() && 0 <= j < longer.len() && i != j implies longer[i]
                != longer[j] by {
                if i == ring.len() {
                    assert(longer[j] == ring[j]);
                    assert(ring.contains(ring[j]));
                } else if j == ring.len() {
                    assert(longer[i] == ring[i]);
                    assert(ring.contains(ring[i]));
                }
            }
        }
        let cut = longer.drop_first();
        assert(cut.no_duplicates()) by {
            assert forall|i: int, j: int|
                0 <= i < cut.len() && 0 <= j < cut.len() && i != j implies cut[i] != cut[j] by {
                assert(cut[i] == longer[i + 1] && cut[j] == longer[j + 1]);
            }
        }
    }
}

/// The transactions chosen from the front of a queue: their positions, and how
/// many bytes they make. The first is always taken; a later one that would go
/// over the byte budget is skipped.
pub open spec fn chosen(q: Seq<Held>, n: nat, max_count: nat, max_bytes: u64) -> (Seq<int>, u64)
    decreases n,
{
    if n == 0 {
        (Seq::empty(), 0)
    } else {
        let before = chosen(q, (n - 1) as nat, max_count, max_bytes);
        let bytes = saturated(before.1 + q[n - 1].tx.size_bytes);
        if before.0.len() >= max_count || (before.0.len() > 0 && bytes > max_bytes) {
            before
        } else {
            (before.0.push(n - 1), bytes)
        }
    }
}

/// The slots of the chosen transactions.
pub open spec fn chosen_slots(q: Seq<Held>, picks: Seq<int>) -> Set<(Seq<char>, u64)> {
    picks.map_values(|i: int| slot_of(q[i].tx)).to_set()
}

/// A list of transactions for a block: those chosen, each sender's in nonce order.
pub open spec fn is_selection(q: Seq<Held>, picks: Seq<int>, txs: Seq<Transaction>) -> bool {
    &&& txs.len() == picks.len()
    &&& txs.map_values(|t: Transaction| slot_of(t)) == in_key_order::<Slot>(chosen_slots(q, picks))
    &&& items_ascend::<Slot>(txs.map_values(|t: Transaction| slot_of(t)))
    &&& forall|k: int|
        0 <= k < txs.len() ==> exists|j: int|
            0 <= j < picks.len() && same_transaction(#[trigger] txs[k], (#[trigger] q[picks[j]]).tx)
}

pub(crate) proof fn chosen_facts(q: Seq<Held>, n: nat, max_count: nat, max_bytes: u64)
    requires
        n <= q.len(),
    ensures
        ({
            let picks = chosen(q, n, max_count, max_bytes).0;
            &&& picks.len() <= n
            &&& picks.len() <= max_count
            &&& forall|k: int| 0 <= k < picks.len() ==> 0 <= #[trigger] picks[k] < n
            &&& forall|a: int, b: int|
                0 <= a < b < picks.len() ==> #[trigger] picks[a] < #[trigger] picks[b]
        }),
        n > 0 && max_count > 0 ==> chosen(q, n, max_count, max_bytes).0.len() > 0,
    decreases n,
{
    if n > 0 {
        chosen_facts(q, (n - 1) as nat, max_count, max_bytes);
    }
}

impl Default for Mempool {
    fn default() -> (r: Self)
        ensures
            r.wf(),
            r@ == empty_pool(DEFAULT_MAX_SIZE, DEFAULT_MIN_FEE, DEFAULT_TTL_MS),
    {
        Self::new()
    }
}

impl Mempool {
    /// The pool is in order, and its index of expired hashes is true.
    pub closed spec fn wf(&self) -> bool {
        &&& self@.wf()
        &&& forall|h: Seq<char>| #[trigger]
            self.expired_set@.contains(h) <==> texts(self.expired@).contains(h)
    }

    pub fn new() -> (r: Self)
        ensures
            r.wf(),
            r@ == empty_pool(DEFAULT_MAX_SIZE, DEFAULT_MIN_FEE, DEFAULT_TTL_MS),
    {
        Self::with_limits_and_ttl(DEFAULT_MAX_SIZE, DEFAULT_MIN_FEE, DEFAULT_TTL_MS)
    }

    pub fn with_limits(max_size: usize, min_fee: u64) -> (r: Self)
        ensures
            r.wf(),
            r@ == empty_pool(max_size, min_fee, DEFAULT_TTL_MS),
    {
        Self::with_limits_and_ttl(max_size, min_fee, DEFAULT_TTL_MS)
    }

    pub fn with_limits_and_ttl(max_size: usize, min_fee: u64, ttl_ms: u64) -> (r: Self)
        ensures
            r.wf(),
            r@ == empty_pool(max_size, min_fee, ttl_ms),
    {
        let r = Mempool {
            queue: Vec::new(),
            expired: VecDeque::new(),
            expired_set: KeySet::new(),
            max_size,
            min_fee,
            fee_exempt_probationers: KeySet::new(),
            ttl_ms,
            base_fee_per_byte: INITIAL_BASE_FEE_PER_BYTE,
        };
        proof {
            assert(texts(r.expired@) =~= Seq::empty());
            assert(r.queue@ =~= Seq::empty());
        }
        r
    }

    pub fn with_ttl(ttl_ms: u64) -> (r: Self)
        ensures
            r.wf(),
            r@ == empty_pool(DEFAULT_MAX_SIZE, DEFAULT_MIN_FEE, ttl_ms),
    {
        Self::with_limits_and_ttl(DEFAULT_MAX_SIZE, DEFAULT_MIN_FEE, ttl_ms)
    }

    /// Says what base fee the next block charges. Transactions in the pool keep
    /// the tip that they were admitted with.
    pub fn set_base_fee_per_byte(&mut self, base_fee_per_byte: u64)
        requires
            old(self).wf(),
        ensures
            final(self).wf(),
            final(self)@ == (PoolModel { base_fee_per_byte, ..old(self)@ }),
    {
        self.base_fee_per_byte = base_fee_per_byte;
    }

    pub fn base_fee_per_byte(&self) -> (r: u64)
        ensures
            r == self@.base_fee_per_byte,
    {
        self.base_fee_per_byte
    }

    /// What a transaction pays the validator.
    pub fn tip(&self, tx: &Transaction) -> (r: u64)
        ensures
            r == self@.tip(*tx),
    {
        if self.is_fee_exempt(tx) {
            tx.fee
        } else {
            tx.fee.saturating_sub(saturating_product(self.base_fee_per_byte, tx.size_bytes))
        }
    }

    /// Whether a transaction pays no base fee.
    pub fn is_fee_exempt(&self, tx: &Transaction) -> (r: bool)
        ensures
            r == self@.is_exempt(*tx),
    {
        match tx.tx_type {
            TxType::SubmitDoubleSignEvidence => true,
            TxType::ProbationHeartbeat => self.fee_exempt_probationers.contains(&tx.from),
            _ => false,
        }
    }

    /// Says whose heartbeats are free.
    pub fn set_fee_exempt_probationers(&mut self, probationers: KeySet<Address>)
        requires
            old(self).wf(),
        ensures
            final(self).wf(),
            final(self)@ == (PoolModel { exempt: probationers@, ..old(self)@ }),
    {
        self.fee_exempt_probationers = probationers;
    }

    /// Remembers a hash as expired, forgetting the oldest when there are too many.
    pub fn remember_expired(&mut self, hash: String)
        requires
            old(self).wf(),
        ensures
            final(self).wf(),
            final(self)@ == (PoolModel {
                expired: remembered(old(self)@.expired, hash@),
                ..old(self)@
            }),
    {
        self.note_expired(hash);
    }

    /// Drops the transactions that have waited too long.
    pub fn evict_expired(&mut self, now: u64)
        requires
            old(self).wf(),
        ensures
            final(self).wf(),
            final(self)@ == old(self)@.refreshed(now),
    {
        let ghost p = self@;
        let ghost q = p.queue;
        let ghost keep = |h: Held| !p.is_stale(h, now);
        let ghost mut k: int = 0;
        let mut i: usize = 0;
        proof {
            reveal(Seq::filter);
            assert(q.take(0) =~= Seq::empty());
            assert(q.take(0).filter(keep) =~= Seq::empty());
            assert(q.skip(0) =~= q);
            assert(q.take(0).filter(keep) + q.skip(0) =~= q);
            filter_keeps_order(q, keep);
        }
        while i < self.queue.len()
            invariant
                0 <= k <= q.len(),
                q == p.queue,
                keep == (|h: Held| !p.is_stale(h, now)),
                i == q.take(k).filter(keep).len(),
                self.queue@ == q.take(k).filter(keep) + q.skip(k),
                self@ == (PoolModel {
                    queue: self.queue@,
                    expired: ring_after(p, now, k as nat),
                    ..p
                }),
                ring_ok(self@.expired),
                forall|h: Seq<char>| #[trigger]
                    self.expired_set@.contains(h) <==> texts(self.expired@).contains(h),
                self.ttl_ms == p.ttl_ms,
            decreases q.len() - k,
        {
            proof {
                assert(k < q.len());
                sift_step(q, k, keep);
                assert(self.queue@[i as int] == q[k]);
            }
            let held = &self.queue[i];
            let waited: u64 = now.saturating_sub(held.entered);
            if waited >= self.ttl_ms {
                let hex = held.tx.hash().to_hex();
                self.queue.remove(i);
                proof {
                    assert(self.queue@ =~= q.take(k + 1).filter(keep) + q.skip(k + 1));
                }
                self.note_expired(hex);
            } else {
                proof {
                    assert(self.queue@ =~= q.take(k + 1).filter(keep) + q.skip(k + 1));
                }
                i = i + 1;
            }
            proof {
                k = k + 1;
            }
        }
        proof {
            assert(k == q.len()) by {
                if k < q.len() {
                    sift_step(q, k, keep);
                }
            }
            assert(q.take(k) =~= q);
            assert(q.skip(k) =~= Seq::empty());
            assert(self.queue@ =~= q.filter(keep));
        }
    }

    /// `remember_expired` for a pool whose queue is being changed.
    fn note_expired(&mut self, hash: String)
        requires
            ring_ok(old(self)@.expired),
            forall|h: Seq<char>| #[trigger]
                old(self).expired_set@.contains(h) <==> texts(old(self).expired@).contains(h),
        ensures
            ring_ok(final(self)@.expired),
            forall|h: Seq<char>| #[trigger]
                final(self).expired_set@.contains(h) <==> texts(final(self).expired@).contains(h),
            final(self)@ == (PoolModel {
                expired: remembered(old(self)@.expired, hash@),
                ..old(self)@
            }),
            final(self).queue == old(self).queue,
            final(self).ttl_ms == old(self).ttl_ms,
    {
        let ghost before = texts(self.expired@);
        proof {
            ring_stays_ok(before, hash@);
        }
        if self.expired_set.contains(&hash) {
            return;
        }
        self.expired_set.insert(hash.clone());
        self.expired.push_back(hash);
        proof {
            assert(texts(self.expired@) =~= before.push(hash@));
            assert forall|h: Seq<char>| #[trigger]
                self.expired_set@.contains(h) <==> before.push(hash@).contains(h) by {
                ring_push_contains(before, hash@, h);
            }
        }
        if self.expired.len() > EXPIRED_MEMORY {
            let ghost longer = texts(self.expired@);
            match self.expired.pop_front() {
                Some(oldest) => {
                    self.expired_set.remove(&oldest);
                    proof {
                        let cut = texts(self.expired@);
                        assert(cut =~= longer.drop_first());
                        assert(oldest@ == longer[0]);
                        assert forall|h: Seq<char>| #[trigger]
                            self.expired_set@.contains(h) <==> cut.contains(h) by {
                            ring_drop_contains(longer, h);
                        }
                    }
                },
                None => {},
            }
        }
    }

    /// Whether a transaction was dropped not long ago for having waited too long.
    pub fn expired_recently(&self, hash: &Digest) -> (r: bool)
        requires
            self.wf(),
        ensures
            r == self@.expired.contains(hex_chars(hash@)),
    {
        self.expired_set.contains(&hash.to_hex())
    }

    /// How many expired transactions are remembered.
    pub fn expired_count(&self) -> (r: usize)
        ensures
            r == self@.expired.len(),
    {
        self.expired.len()
    }

    fn find_hash(&self, hash: &Digest) -> (r: Option<usize>)
        ensures
            match r {
                Some(i) => i < self@.queue.len() && self@.queue[i as int].tx.hash@ == hash@,
                None => !self@.holds(hash@),
            },
    {
        let mut i: usize = 0;
        while i < self.queue.len()
            invariant
                i <= self.queue@.len(),
                forall|k: int| 0 <= k < i ==> (#[trigger] self.queue@[k]).tx.hash@ != hash@,
            decreases self.queue.len() - i,
        {
            if self.queue[i].tx.hash.same(hash) {
                return Some(i);
            }
            i = i + 1;
        }
        None
    }

    fn slot_in_use(&self, from: &Address, nonce: u64) -> (r: bool)
        ensures
            r == self@.slot_taken((from@, nonce)),
    {
        let mut i: usize = 0;
        while i < self.queue.len()
            invariant
                i <= self.queue@.len(),
                forall|k: int|
                    0 <= k < i ==> slot_of((#[trigger] self.queue@[k]).tx) != (from@, nonce),
            decreases self.queue.len() - i,
        {
            let held = &self.queue[i];
            if held.tx.nonce == nonce && held.tx.from.same(from) {
                proof {
                    assert(slot_of(self@.queue[i as int].tx) == (from@, nonce));
                }
                return true;
            }
            i = i + 1;
        }
        false
    }

    pub fn len(&self) -> (r: usize)
        ensures
            r == self@.queue.len(),
    {
        self.queue.len()
    }

    pub fn is_empty(&self) -> (r: bool)
        ensures
            r == (self@.queue.len() == 0),
    {
        self.queue.len() == 0
    }

    pub fn contains(&self, hash: &Digest) -> (r: bool)
        ensures
            r == self@.holds(hash@),
    {
        match self.find_hash(hash) {
            Some(i) => {
                proof {
                    assert(self@.queue[i as int].tx.hash@ == hash@);
                }
                true
            },
            None => false,
        }
    }

    /// Takes in a transaction, signed by the key that its sender's address belongs to.
    pub fn add(
        &mut self,
        tx: Transaction,
        chain_id: Digest,
        account_nonce: Option<u64>,
        now: u64,
    ) -> (r: MempoolResult<()>)
        requires
            old(self).wf(),
        ensures
            final(self).wf(),
            admits(old(self)@, final(self)@, tx, None, chain_id@, account_nonce, now, r),
    {
        self.add_inner(tx, None, chain_id, account_nonce, now)
    }

    /// Takes in a transaction of a sender whom guardians may have given another key.
    pub fn add_with_recovery_key(
        &mut self,
        tx: Transaction,
        recovery_key: Option<&PublicKey>,
        chain_id: Digest,
        account_nonce: Option<u64>,
        now: u64,
    ) -> (r: MempoolResult<()>)
        requires
            old(self).wf(),
        ensures
            final(self).wf(),
            admits(
                old(self)@,
                final(self)@,
                tx,
                key_view(recovery_key),
                chain_id@,
                account_nonce,
                now,
                r,
            ),
    {
        self.add_inner(tx, recovery_key, chain_id, account_nonce, now)
    }

    fn add_inner(
        &mut self,
        tx: Transaction,
        recovery_key: Option<&PublicKey>,
        chain_id: Digest,
        account_nonce: Option<u64>,
        now: u64,
    ) -> (r: MempoolResult<()>)
        requires
            old(self).wf(),
        ensures
            final(self).wf(),
            admits(
                old(self)@,
                final(self)@,
                tx,
                key_view(recovery_key),
                chain_id@,
                account_nonce,
                now,
                r,
            ),
    {
        self.evict_expired(now);
        let exempt = self.is_fee_exempt(&tx);
        if tx.fee < self.min_fee && !exempt {
            return Err(MempoolError::FeeTooLow { got: tx.fee, min: self.min_fee });
        }
        if !exempt {
            let need: u64 = saturating_product(self.base_fee_per_byte, tx.size_bytes);
            if tx.fee < need {
                return Err(
                    MempoolError::BelowBaseFee {
                        got: tx.fee,
                        need,
                        size_bytes: tx.size_bytes,
                        base_fee_per_byte: self.base_fee_per_byte,
                    },
                );
            }
        }
        if self.contains(&tx.hash) {
            return Err(MempoolError::AlreadyExists(tx.hash.to_hex()));
        }
        if self.slot_in_use(&tx.from, tx.nonce) {
            return Err(
                MempoolError::NoncePending { from: tx.from.to_string(), nonce: tx.nonce },
            );
        }
        // Before anything is evicted: a fee is only a claim until the signature holds.
        match tx.verify_signature_with_recovery_key(recovery_key) {
            Ok(()) => {},
            Err(words) => {
                return Err(MempoolError::Invalid(words));
            },
        }
        self.admit_authentic(tx, chain_id, account_nonce, now)
    }

    /// Takes in a transaction that has been found authentic and without rival.
    pub fn admit_authentic(
        &mut self,
        tx: Transaction,
        chain_id: Digest,
        account_nonce: Option<u64>,
        now: u64,
    ) -> (r: MempoolResult<()>)
        requires
            old(self).wf(),
            !old(self)@.holds(tx.hash@),
            !old(self)@.slot_taken(slot_of(tx)),
        ensures
            final(self).wf(),
            match r {
                Ok(()) => {
                    &&& old(self)@.late_refusal(tx, chain_id@, account_nonce) is None
                    &&& final(self)@ == old(self)@.with_room().with(
                        Held { tx, tip: old(self)@.tip(tx), entered: now },
                    )
                },
                Err(e) => {
                    &&& old(self)@.late_refusal(tx, chain_id@, account_nonce) == Some(e@)
                    &&& final(self)@ == old(self)@
                },
            },
    {
        if !tx.chain_id.same(&chain_id) {
            return Err(
                MempoolError::ForeignChain {
                    theirs: tx.chain_id.to_hex(),
                    ours: chain_id.to_hex(),
                },
            );
        }
        match account_nonce {
            Some(current) => {
                if tx.nonce < current {
                    return Err(
                        MempoolError::NonceSpent {
                            from: tx.from.to_string(),
                            nonce: tx.nonce,
                            account_nonce: current,
                        },
                    );
                }
            },
            None => {},
        }
        let tip: u64 = self.tip(&tx);
        let ghost p = self@;
        if self.queue.len() >= self.max_size {
            let n: usize = self.queue.len();
            if n == 0 || tip <= self.queue[n - 1].tip {
                return Err(MempoolError::Full(self.max_size));
            }
            self.evict_lowest_tip();
        }
        let ghost q = self.queue@;
        let n: usize = self.queue.len();
        let mut at: usize = 0;
        while at < n && self.queue[at].tip >= tip
            invariant
                at <= n == self.queue@.len(),
                q == self.queue@,
                forall|k: int| 0 <= k < at ==> (#[trigger] q[k]).tip >= tip,
            decreases n - at,
        {
            at = at + 1;
        }
        let held = Held { tx, tip, entered: now };
        proof {
            rank_behind_is(q, tip, at as int);
            room_keeps_out(p, held.tx);
            insert_keeps_order(q, at as int, held);
        }
        self.queue.insert(at, held);
        Ok(())
    }

    /// Drops the transaction that pays least, the earliest among equals.
    fn evict_lowest_tip(&mut self)
        requires
            old(self).wf(),
            old(self)@.queue.len() > 0,
            old(self)@.queue.len() >= old(self)@.max_size,
        ensures
            final(self).wf(),
            final(self)@ == old(self)@.with_room(),
            final(self)@.queue.len() == old(self)@.queue.len() - 1,
    {
        let n: usize = self.queue.len();
        let lowest: u64 = self.queue[n - 1].tip;
        let ghost q = self.queue@;
        let mut at: usize = 0;
        while at < n && self.queue[at].tip > lowest
            invariant
                at <= n == self.queue@.len(),
                q == self.queue@,
                forall|k: int| 0 <= k < at ==> (#[trigger] q[k]).tip > lowest,
            decreases n - at,
        {
            at = at + 1;
        }
        proof {
            if at == n {
                assert(q[n - 1].tip > lowest);
            }
            rank_from_is(q, lowest, at as int);
            remove_keeps_order(q, at as int);
        }
        self.queue.remove(at);
    }

    /// Drops the transactions whose nonces their senders have used since.
    fn drop_spent_nonces(&mut self, account_nonces: &Table<String, u64>)
        requires
            old(self).wf(),
        ensures
            final(self).wf(),
            final(self)@ == old(self)@.unspent(account_nonces@),
    {
        let ghost p = self@;
        let ghost q = p.queue;
        let ghost nonces = account_nonces@;
        let ghost keep = |h: Held| !PoolModel::is_spent(h, nonces);
        let ghost mut k: int = 0;
        let mut i: usize = 0;
        proof {
            reveal(Seq::filter);
            assert(q.take(0).filter(keep) =~= Seq::empty());
            assert(q.take(0).filter(keep) + q.skip(0) =~= q);
            filter_keeps_order(q, keep);
        }
        while i < self.queue.len()
            invariant
                0 <= k <= q.len(),
                q == p.queue,
                nonces == account_nonces@,
                keep == (|h: Held| !PoolModel::is_spent(h, nonces)),
                i == q.take(k).filter(keep).len(),
                self.queue@ == q.take(k).filter(keep) + q.skip(k),
                self@ == (PoolModel { queue: self.queue@, ..p }),
                forall|h: Seq<char>| #[trigger]
                    self.expired_set@.contains(h) <==> texts(self.expired@).contains(h),
            decreases q.len() - k,
        {
            proof {
                assert(k < q.len());
                sift_step(q, k, keep);
                assert(self.queue@[i as int] == q[k]);
            }
            let held = &self.queue[i];
            let spent = match account_nonces.get(&held.tx.from.to_string()) {
                Some(current) => held.tx.nonce < *current,
                None => false,
            };
            if spent {
                self.queue.remove(i);
                proof {
                    assert(self.queue@ =~= q.take(k + 1).filter(keep) + q.skip(k + 1));
                }
            } else {
                proof {
                    assert(self.queue@ =~= q.take(k + 1).filter(keep) + q.skip(k + 1));
                }
                i = i + 1;
            }
            proof {
                k = k + 1;
            }
        }
        proof {
            assert(k == q.len()) by {
                if k < q.len() {
                    sift_step(q, k, keep);
                }
            }
            assert(q.take(k) =~= q);
            assert(self.queue@ =~= q.filter(keep));
        }
    }

    /// Drops transactions that have gone into a block.
    pub fn remove_committed(&mut self, hashes: &[Digest])
        requires
            old(self).wf(),
        ensures
            final(self).wf(),
            final(self)@ == (PoolModel {
                queue: old(self)@.queue.filter(|h: Held| !committed(h, hashes@)),
                ..old(self)@
            }),
    {
        let ghost p = self@;
        let ghost q = p.queue;
        let ghost keep = |h: Held| !committed(h, hashes@);
        let ghost mut k: int = 0;
        let mut i: usize = 0;
        proof {
            reveal(Seq::filter);
            assert(q.take(0).filter(keep) =~= Seq::empty());
            assert(q.take(0).filter(keep) + q.skip(0) =~= q);
            filter_keeps_order(q, keep);
        }
        while i < self.queue.len()
            invariant
                0 <= k <= q.len(),
                q == p.queue,
                keep == (|h: Held| !committed(h, hashes@)),
                i == q.take(k).filter(keep).len(),
                self.queue@ == q.take(k).filter(keep) + q.skip(k),
                self@ == (PoolModel { queue: self.queue@, ..p }),
                forall|h: Seq<char>| #[trigger]
                    self.expired_set@.contains(h) <==> texts(self.expired@).contains(h),
            decreases q.len() - k,
        {
            proof {
                assert(k < q.len());
                sift_step(q, k, keep);
                assert(self.queue@[i as int] == q[k]);
            }
            if is_committed(&self.queue[i], hashes) {
                self.queue.remove(i);
                proof {
                    assert(self.queue@ =~= q.take(k + 1).filter(keep) + q.skip(k + 1));
                }
            } else {
                proof {
                    assert(self.queue@ =~= q.take(k + 1).filter(keep) + q.skip(k + 1));
                }
                i = i + 1;
            }
            proof {
                k = k + 1;
            }
        }
        proof {
            assert(k == q.len()) by {
                if k < q.len() {
                    sift_step(q, k, keep);
                }
            }
            assert(q.take(k) =~= q);
            assert(self.queue@ =~= q.filter(keep));
        }
    }

    /// Up to `max_count` transactions for a block. They stay in the pool until
    /// `remove_committed`.
    pub fn take(&mut self, max_count: usize, account_nonces: &Table<String, u64>, now: u64) -> (r: Vec<
        Transaction,
    >)
        requires
            old(self).wf(),
        ensures
            final(self).wf(),
            final(self)@ == old(self)@.refreshed(now).unspent(account_nonces@),
            is_selection(
                final(self)@.queue,
                chosen(
                    final(self)@.queue,
                    final(self)@.queue.len(),
                    max_count as nat,
                    u64::MAX,
                ).0,
                r@,
            ),
    {
        self.take_within(max_count, u64::MAX, account_nonces, now)
    }

    /// Up to `max_count` transactions and about `max_bytes` of them for a block,
    /// best payers first, each sender's in nonce order.
    pub fn take_within(
        &mut self,
        max_count: usize,
        max_bytes: u64,
        account_nonces: &Table<String, u64>,
        now: u64,
    ) -> (r: Vec<Transaction>)
        requires
            old(self).wf(),
        ensures
            final(self).wf(),
            final(self)@ == old(self)@.refreshed(now).unspent(account_nonces@),
            is_selection(
                final(self)@.queue,
                chosen(
                    final(self)@.queue,
                    final(self)@.queue.len(),
                    max_count as nat,
                    max_bytes,
                ).0,
                r@,
            ),
    {
        self.evict_expired(now);
        self.drop_spent_nonces(account_nonces);
        self.select(max_count, max_bytes)
    }

    /// Chooses transactions from the front of the queue and sorts them.
    fn select(&self, max_count: usize, max_bytes: u64) -> (r: Vec<Transaction>)
        requires
            self.wf(),
        ensures
            is_selection(
                self@.queue,
                chosen(self@.queue, self@.queue.len(), max_count as nat, max_bytes).0,
                r@,
            ),
    {
        let ghost q = self.queue@;
        let n: usize = self.queue.len();
        let mut sorted: Table<Slot, usize> = Table::new();
        let mut count: usize = 0;
        let mut bytes: u64 = 0;
        let mut i: usize = 0;
        proof {
            assert(chosen_slots(q, Seq::empty()) =~= Set::empty());
        }
        while i < n
            invariant
                i <= n == self.queue@.len(),
                q == self.queue@,
                orderly(q),
                bytes == chosen(q, i as nat, max_count as nat, max_bytes).1,
                count == chosen(q, i as nat, max_count as nat, max_bytes).0.len(),
                count <= i,
                is_index(q, chosen(q, i as nat, max_count as nat, max_bytes).0, sorted@),
            decreases n - i,
        {
            let tx = &self.queue[i].tx;
            let ghost picks = chosen(q, i as nat, max_count as nat, max_bytes).0;
            let with_this: u64 = bytes.saturating_add(tx.size_bytes);
            proof {
                chosen_facts(q, i as nat, max_count as nat, max_bytes);
            }
            if count < max_count && !(count > 0 && with_this > max_bytes) {
                let ghost before = sorted@;
                sorted.insert(Slot { from: tx.from.to_string(), nonce: tx.nonce }, i);
                proof {
                    index_grows(q, picks, before, i as int);
                }
                bytes = with_this;
                count = count + 1;
            }
            i = i + 1;
        }
        let ghost picks = chosen(q, n as nat, max_count as nat, max_bytes).0;
        proof {
            chosen_facts(q, n as nat, max_count as nat, max_bytes);
        }
        let m: usize = sorted.len();
        let ghost pairs = sorted.pairs();
        proof {
            map_of_entries(pairs);
            index_is_complete(q, picks, sorted@);
        }
        let mut out: Vec<Transaction> = Vec::new();
        let mut j: usize = 0;
        while j < m
            invariant
                j <= m == pairs.len(),
                pairs == sorted.pairs(),
                q == self.queue@,
                is_index(q, picks, sorted@),
                forall|k: int|
                    0 <= k < pairs.len() ==> sorted@.contains_key((#[trigger] pairs[k]).0)
                        && sorted@[pairs[k].0] == pairs[k].1,
                out@.len() == j,
                forall|k: int|
                    0 <= k < j ==> same_transaction(
                        #[trigger] out@[k],
                        q[pairs[k].1 as int].tx,
                    ),
                forall|k: int|
                    0 <= k < j ==> slot_of(#[trigger] out@[k]) == pairs[k].0,
            decreases m - j,
        {
            let at: usize = *sorted.value_at(j);
            proof {
                assert(sorted@.contains_key(pairs[j as int].0));
                assert(sorted@[pairs[j as int].0] == at);
            }
            out.push(self.queue[at].tx.clone());
            j = j + 1;
        }
        proof {
            selection_is_sorted(q, picks, sorted@, pairs, out@);
        }
        out
    }

    /// The senders of all transactions in the pool, each once, in order.
    pub fn senders(&self) -> (r: Vec<String>)
        ensures
            texts(r@) == in_key_order::<String>(sender_set(self@.queue)),
    {
        let ghost q = self.queue@;
        let mut set: KeySet<String> = KeySet::new();
        let mut i: usize = 0;
        while i < self.queue.len()
            invariant
                i <= self.queue@.len(),
                q == self.queue@,
                forall|a: Seq<char>| #[trigger]
                    set@.contains(a) <==> exists|k: int|
                        0 <= k < i && (#[trigger] q[k]).tx.from@ == a,
            decreases self.queue.len() - i,
        {
            let ghost was = set@;
            set.insert(self.queue[i].tx.from.to_string());
            proof {
                assert forall|a: Seq<char>| #[trigger] set@.contains(a) <==> exists|k: int|
                    0 <= k < i + 1 && (#[trigger] q[k]).tx.from@ == a by {
                    if was.contains(a) {
                        let k = choose|k: int| 0 <= k < i && (#[trigger] q[k]).tx.from@ == a;
                        assert(q[k].tx.from@ == a);
                    }
                    if a == q[i as int].tx.from@ {
                        assert(set@.contains(a));
                    }
                    if exists|k: int| 0 <= k < i + 1 && (#[trigger] q[k]).tx.from@ == a {
                        let k = choose|k: int| 0 <= k < i + 1 && (#[trigger] q[k]).tx.from@ == a;
                        if k < i {
                            assert(was.contains(a));
                        }
                    }
                }
            }
            i = i + 1;
        }
        proof {
            assert(set@ =~= sender_set(q));
        }
        let n: usize = set.len();
        let mut out: Vec<String> = Vec::new();
        let mut j: usize = 0;
        while j < n
            invariant
                j <= n == set.items().len(),
                out@.len() == j,
                forall|k: int| 0 <= k < j ==> (#[trigger] out@[k])@ == set.items()[k],
            decreases n - j,
        {
            out.push(set.item_at(j).clone());
            j = j + 1;
        }
        proof {
            assert(texts(out@) =~= set.items());
        }
        out
    }
}

/// The senders of the transactions in a queue.
pub open spec fn sender_set(q: Seq<Held>) -> Set<Seq<char>> {
    Set::new(|a: Seq<char>| exists|k: int| 0 <= k < q.len() && (#[trigger] q[k]).tx.from@ == a)
}

/// The transaction's hash is in a list.
pub open spec fn committed(h: Held, hashes: Seq<Digest>) -> bool {
    exists|k: int| 0 <= k < hashes.len() && (#[trigger] hashes[k])@ == h.tx.hash@
}

fn is_committed(held: &Held, hashes: &[Digest]) -> (r: bool)
    ensures
        r == committed(*held, hashes@),
{
    let mut i: usize = 0;
    while i < hashes.len()
        invariant
            i <= hashes@.len(),
            forall|k: int| 0 <= k < i ==> (#[trigger] hashes@[k])@ != held.tx.hash@,
        decreases hashes.len() - i,
    {
        if hashes[i].same(&held.tx.hash) {
            return true;
        }
        i = i + 1;
    }
    false
}

/// What taking in a transaction comes to: stale ones are dropped first, and then
/// the transaction is refused, with nothing else changed, or admitted.
pub open spec fn admits(
    before: PoolModel,
    after: PoolModel,
    tx: Transaction,
    recovery_key: Option<Seq<u8>>,
    chain_id: Seq<u8>,
    account_nonce: Option<u64>,
    now: u64,
    r: MempoolResult<()>,
) -> bool {
    let p = before.refreshed(now);
    match r {
        Ok(()) => {
            &&& p.refusal(tx, recovery_key, chain_id, account_nonce) is None
            &&& after == p.with_room().with(Held { tx, tip: p.tip(tx), entered: now })
        },
        Err(e) => {
            &&& p.refusal(tx, recovery_key, chain_id, account_nonce) == Some(e@)
            &&& after == p
        },
    }
}

proof fn insert_keeps_order(q: Seq<Held>, at: int, h: Held)
    requires
        orderly(q),
        0 <= at <= q.len(),
        forall|k: int| 0 <= k < at ==> (#[trigger] q[k]).tip >= h.tip,
        at < q.len() ==> q[at].tip < h.tip,
        forall|k: int| 0 <= k < q.len() ==> (#[trigger] q[k]).tx.hash@ != h.tx.hash@,
        forall|k: int| 0 <= k < q.len() ==> slot_of((#[trigger] q[k]).tx) != slot_of(h.tx),
    ensures
        orderly(q.insert(at, h)),
{
    let t = q.insert(at, h);
    assert forall|i: int, j: int| 0 <= i < j < t.len() implies may_precede(
        #[trigger] t[i],
        #[trigger] t[j],
    ) by {
        let qi = if i < at { i } else { i - 1 };
        let qj = if j < at { j } else { j - 1 };
        if i != at {
            assert(t[i] == q[qi]);
        }
        if j != at {
            assert(t[j] == q[qj]);
        }
        if i != at && j != at {
            assert(may_precede(q[qi], q[qj]));
        } else if i == at && qj > at {
            assert(may_precede(q[at], q[qj]));
        }
    }
}

proof fn remove_keeps_order(q: Seq<Held>, at: int)
    requires
        orderly(q),
        0 <= at < q.len(),
    ensures
        orderly(q.remove(at)),
{
    let t = q.remove(at);
    assert forall|i: int, j: int| 0 <= i < j < t.len() implies may_precede(
        #[trigger] t[i],
        #[trigger] t[j],
    ) by {
        let qi = if i < at { i } else { i + 1 };
        let qj = if j < at { j } else { j + 1 };
        assert(t[i] == q[qi] && t[j] == q[qj]);
        assert(may_precede(q[qi], q[qj]));
    }
}

/// Making room lets no rival in.
proof fn room_keeps_out(p: PoolModel, tx: Transaction)
    requires
        p.wf(),
        !p.holds(tx.hash@),
        !p.slot_taken(slot_of(tx)),
    ensures
        forall|k: int|
            0 <= k < p.with_room().queue.len() ==> (#[trigger] p.with_room().queue[k]).tx.hash@
                != tx.hash@,
        forall|k: int|
            0 <= k < p.with_room().queue.len() ==> slot_of(
                (#[trigger] p.with_room().queue[k]).tx,
            ) != slot_of(tx),
{
    let q = p.queue;
    let t = p.with_room().queue;
    if q.len() >= p.max_size && q.len() > 0 {
        let at = rank_from(q, q.last().tip);
        lowest_rank(q);
        assert forall|k: int| 0 <= k < t.len() implies (#[trigger] t[k]).tx.hash@ != tx.hash@
            && slot_of(t[k].tx) != slot_of(tx) by {
            let qk = if k < at { k } else { k + 1 };
            assert(t[k] == q[qk]);
            assert(p.queue[qk].tx.hash@ != tx.hash@);
            assert(slot_of(p.queue[qk].tx) != slot_of(tx));
        }
    } else {
        assert forall|k: int| 0 <= k < t.len() implies (#[trigger] t[k]).tx.hash@ != tx.hash@
            && slot_of(t[k].tx) != slot_of(tx) by {
            assert(p.queue[k].tx.hash@ != tx.hash@);
            assert(slot_of(p.queue[k].tx) != slot_of(tx));
        }
    }
}

proof fn lowest_rank(q: Seq<Held>)
    requires
        q.len() > 0,
    ensures
        0 <= rank_from(q, q.last().tip) < q.len(),
{
    rank_bounds(q, q.last().tip);
}

proof fn rank_bounds(q: Seq<Held>, tip: u64)
    requires
        q.len() > 0,
        q.last().tip <= tip,
    ensures
        0 <= rank_from(q, tip) < q.len(),
    decreases q.len(),
{
    if q[0].tip > tip {
        assert(q.drop_first().last() == q.last());
        rank_bounds(q.drop_first(), tip);
    }
}

/// A table finds each chosen transaction by its slot.
spec fn is_index(q: Seq<Held>, picks: Seq<int>, m: Map<(Seq<char>, u64), usize>) -> bool {
    &&& forall|j: int|
        0 <= j < picks.len() ==> m.contains_key(slot_of((#[trigger] q[picks[j]]).tx))
    &&& forall|s: (Seq<char>, u64)| #[trigger]
        m.contains_key(s) ==> 0 <= m[s] < q.len() && picks.contains(m[s] as int) && slot_of(
            q[m[s] as int].tx,
        ) == s
}

proof fn index_grows(q: Seq<Held>, picks: Seq<int>, m: Map<(Seq<char>, u64), usize>, i: int)
    requires
        orderly(q),
        0 <= i < q.len(),
        q.len() <= usize::MAX,
        is_index(q, picks, m),
        forall|k: int| 0 <= k < picks.len() ==> 0 <= #[trigger] picks[k] < i,
    ensures
        is_index(q, picks.push(i), m.insert(slot_of(q[i].tx), i as usize)),
{
    let longer = picks.push(i);
    let t = m.insert(slot_of(q[i].tx), i as usize);
    assert forall|j: int| 0 <= j < longer.len() implies t.contains_key(
        slot_of((#[trigger] q[longer[j]]).tx),
    ) by {
        if j < picks.len() {
            assert(m.contains_key(slot_of(q[picks[j]].tx)));
        }
    }
    assert forall|s: (Seq<char>, u64)| #[trigger] t.contains_key(s) implies 0 <= t[s] < q.len()
        && longer.contains(t[s] as int) && slot_of(q[t[s] as int].tx) == s by {
        if s == slot_of(q[i].tx) {
            assert(longer[picks.len() as int] == i);
        } else {
            assert(m.contains_key(s));
            let k = choose|k: int| 0 <= k < picks.len() && picks[k] == m[s] as int;
            assert(longer[k] == t[s] as int);
        }
    }
}

proof fn index_is_complete(q: Seq<Held>, picks: Seq<int>, m: Map<(Seq<char>, u64), usize>)
    requires
        is_index(q, picks, m),
    ensures
        m.dom() == chosen_slots(q, picks),
{
    let slots = picks.map_values(|i: int| slot_of(q[i].tx));
    assert forall|s: (Seq<char>, u64)| m.dom().contains(s) == #[trigger] chosen_slots(
        q,
        picks,
    ).contains(s) by {
        if m.contains_key(s) {
            let k = choose|k: int| 0 <= k < picks.len() && picks[k] == m[s] as int;
            assert(slots[k] == s);
        }
        if slots.contains(s) {
            let k = choose|k: int| 0 <= k < slots.len() && slots[k] == s;
            assert(m.contains_key(slot_of(q[picks[k]].tx)));
        }
    }
    assert(m.dom() =~= chosen_slots(q, picks));
}

proof fn selection_is_sorted(
    q: Seq<Held>,
    picks: Seq<int>,
    m: Map<(Seq<char>, u64), usize>,
    pairs: Seq<((Seq<char>, u64), usize)>,
    out: Seq<Transaction>,
)
    requires
        orderly(q),
        is_index(q, picks, m),
        forall|k: int| 0 <= k < picks.len() ==> 0 <= #[trigger] picks[k] < q.len(),
        forall|a: int, b: int|
            0 <= a < b < picks.len() ==> #[trigger] picks[a] < #[trigger] picks[b],
        keys_ascend::<Slot, usize>(pairs),
        pairs == crate::table::entries_in_order::<Slot, usize>(m),
        m.dom().finite(),
        m.len() == pairs.len(),
        forall|k: int|
            0 <= k < pairs.len() ==> m.contains_key((#[trigger] pairs[k]).0) && m[pairs[k].0]
                == pairs[k].1,
        out.len() == pairs.len(),
        forall|k: int|
            0 <= k < out.len() ==> same_transaction(#[trigger] out[k], q[pairs[k].1 as int].tx),
        forall|k: int| 0 <= k < out.len() ==> slot_of(#[trigger] out[k]) == pairs[k].0,
    ensures
        is_selection(q, picks, out),
{
    index_is_complete(q, picks, m);
    let slots = picks.map_values(|i: int| slot_of(q[i].tx));
    assert(slots.no_duplicates()) by {
        assert forall|a: int, b: int|
            0 <= a < slots.len() && 0 <= b < slots.len() && a != b implies slots[a] != slots[b] by {
            if a < b {
                assert(may_precede(q[picks[a]], q[picks[b]]));
            } else {
                assert(may_precede(q[picks[b]], q[picks[a]]));
            }
        }
    }
    slots.unique_seq_to_set();
    assert(out.len() == picks.len());
    let listed = out.map_values(|t: Transaction| slot_of(t));
    assert(listed =~= in_key_order::<Slot>(m.dom())) by {
        assert forall|k: int| 0 <= k < listed.len() implies listed[k] == in_key_order::<Slot>(
            m.dom(),
        )[k] by {
            assert(pairs[k].0 == in_key_order::<Slot>(m.dom())[k]);
            assert(slot_of(out[k]) == pairs[k].0);
        }
    }
    assert forall|i: int, j: int| 0 <= i < j < listed.len() implies Slot::precedes(
        #[trigger] listed[i],
        #[trigger] listed[j],
    ) by {
        assert(listed[i] == pairs[i].0 && listed[j] == pairs[j].0);
    }
    assert forall|k: int| 0 <= k < out.len() implies exists|j: int|
        0 <= j < picks.len() && same_transaction(#[trigger] out[k], (
        #[trigger] q[picks[j]]).tx) by {
        assert(m.contains_key(pairs[k].0));
        let j = choose|j: int| 0 <= j < picks.len() && picks[j] == m[pairs[k].0] as int;
        assert(same_transaction(out[k], q[picks[j]].tx));
    }
}

/// A pool that holds nothing.
pub open spec fn empty_pool(max_size: usize, min_fee: u64, ttl_ms: u64) -> PoolModel {
    PoolModel {
        queue: Seq::empty(),
        expired: Seq::empty(),
        max_size,
        min_fee,
        exempt: Set::empty(),
        ttl_ms,
        base_fee_per_byte: INITIAL_BASE_FEE_PER_BYTE,
    }
}

proof fn ring_push_contains(ring: Seq<Seq<char>>, hash: Seq<char>, h: Seq<char>)
    ensures
        ring.push(hash).contains(h) <==> ring.contains(h) || h == hash,
{
    let longer = ring.push(hash);
    if ring.contains(h) {
        let i = choose|i: int| 0 <= i < ring.len() && ring[i] == h;
        assert(longer[i] == h);
    }
    if h == hash {
        assert(longer[ring.len() as int] == h);
    }
    if longer.contains(h) {
        let i = choose|i: int| 0 <= i < longer.len() && longer[i] == h;
        if i < ring.len() {
            assert(ring[i] == h);
        }
    }
}

proof fn ring_drop_contains(ring: Seq<Seq<char>>, h: Seq<char>)
    requires
        ring.len() > 0,
        ring.no_duplicates(),
    ensures
        ring.drop_first().contains(h) <==> ring.contains(h) && h != ring[0],
{
    let cut = ring.drop_first();
    if cut.contains(h) {
        let i = choose|i: int| 0 <= i < cut.len() && cut[i] == h;
        assert(ring[i + 1] == h);
        assert(ring[i + 1] != ring[0]);
    }
    if ring.contains(h) && h != ring[0] {
        let i = choose|i: int| 0 <= i < ring.len() && ring[i] == h;
        assert(cut[i - 1] == h);
    }
}

/// A pool never holds one transaction twice, nor two for one sender and nonce, nor
/// more than it has room for; and what it remembers of the past is bounded too.
pub proof fn pools_hold_no_rivals(p: PoolModel, i: int, j: int)
    requires
        p.wf(),
        0 <= i < p.queue.len(),
        0 <= j < p.queue.len(),
        i != j,
    ensures
        p.queue[i].tx.hash@ != p.queue[j].tx.hash@,
        slot_of(p.queue[i].tx) != slot_of(p.queue[j].tx),
        p.queue.len() <= p.max_size,
        p.expired.len() <= EXPIRED_MEMORY,
{
    if i < j {
        assert(may_precede(p.queue[i], p.queue[j]));
    } else {
        assert(may_precede(p.queue[j], p.queue[i]));
    }
}

/// A transaction that is not admitted drives nobody out: the pool is as it was, but
/// for what had waited too long anyway.
pub proof fn refused_transactions_evict_nothing(
    before: PoolModel,
    after: PoolModel,
    tx: Transaction,
    recovery_key: Option<Seq<u8>>,
    chain_id: Seq<u8>,
    account_nonce: Option<u64>,
    now: u64,
    r: MempoolResult<()>,
)
    requires
        admits(before, after, tx, recovery_key, chain_id, account_nonce, now, r),
        !authentic(tx, recovery_key) || tx.chain_id@ != chain_id || (account_nonce is Some
            && tx.nonce < account_nonce->0),
    ensures
        r is Err,
        after == before.refreshed(now),
{
}

/// A transaction that is admitted to a full pool takes the place of one that pays
/// the validator strictly less; every other stays.
pub proof fn only_a_worse_payer_makes_room(p: PoolModel, tip: u64, k: int)
    requires
        p.wf(),
        p.queue.len() >= p.max_size,
        p.outbid_by(tip),
        0 <= k < p.queue.len(),
    ensures
        p.with_room().queue.len() == p.queue.len() - 1,
        p.with_room().queue.contains(p.queue[k]) || p.queue[k].tip < tip,
{
    let q = p.queue;
    let last = q.last().tip;
    rank_from_bounds(q, last);
    let at = rank_from(q, last);
    let rest = q.remove(at);
    if k < at {
        assert(rest[k] == q[k]);
    } else if k > at {
        assert(rest[k - 1] == q[k]);
    }
}

proof fn rank_from_bounds(q: Seq<Held>, tip: u64)
    requires
        q.len() > 0,
        q.last().tip == tip,
    ensures
        0 <= rank_from(q, tip) < q.len(),
        q[rank_from(q, tip)].tip <= tip,
    decreases q.len(),
{
    if q[0].tip > tip {
        rank_from_bounds(q.drop_first(), tip);
    }
}

/// The sizes of some of a queue's transactions, added up.
pub open spec fn bytes_of(q: Seq<Held>, picks: Seq<int>) -> nat
    decreases picks.len(),
{
    if picks.len() == 0 {
        0
    } else {
        bytes_of(q, picks.drop_last()) + q[picks.last()].tx.size_bytes as nat
    }
}

/// A block gets no more transactions than asked for, and if it gets more than one,
/// no more bytes; but it gets at least one if there is any.
pub proof fn selections_keep_the_limits(q: Seq<Held>, n: nat, max_count: nat, max_bytes: u64)
    requires
        n <= q.len(),
    ensures
        ({
            let (picks, bytes) = chosen(q, n, max_count, max_bytes);
            &&& picks.len() <= max_count
            &&& n > 0 && max_count > 0 ==> picks.len() > 0
            &&& bytes == saturated(bytes_of(q, picks) as int)
            &&& picks.len() > 1 ==> bytes <= max_bytes
            &&& picks.len() > 1 && max_bytes < u64::MAX ==> bytes_of(q, picks) <= max_bytes
        }),
    decreases n,
{
    chosen_facts(q, n, max_count, max_bytes);
    if n > 0 {
        selections_keep_the_limits(q, (n - 1) as nat, max_count, max_bytes);
        let before = chosen(q, (n - 1) as nat, max_count, max_bytes);
        let now = chosen(q, n, max_count, max_bytes);
        if now.0 != before.0 {
            assert(now.0.drop_last() =~= before.0);
        }
    }
}

/// Without a byte budget a block gets the best payers: nothing that is left out pays
/// more than anything that is taken.
pub proof fn without_a_budget_the_best_payers_go_first(
    q: Seq<Held>,
    n: nat,
    max_count: nat,
    taken: int,
    left: int,
)
    requires
        orderly(q),
        n <= q.len(),
        chosen(q, n, max_count, u64::MAX).0.contains(taken),
        0 <= left < n,
        !chosen(q, n, max_count, u64::MAX).0.contains(left),
    ensures
        chosen(q, n, max_count, u64::MAX).0.len() == max_count,
        q[taken].tip >= q[left].tip,
{
    unbudgeted_is_a_prefix(q, n, max_count);
    chosen_facts(q, n, max_count, u64::MAX);
    let picks = chosen(q, n, max_count, u64::MAX).0;
    let k = choose|k: int| 0 <= k < picks.len() && picks[k] == taken;
    if left < picks.len() {
        assert(picks[left] == left);
    }
    assert(may_precede(q[taken], q[left]));
}

proof fn unbudgeted_is_a_prefix(q: Seq<Held>, n: nat, max_count: nat)
    requires
        n <= q.len(),
    ensures
        chosen(q, n, max_count, u64::MAX).0 == Seq::new(
            if n <= max_count {
                n
            } else {
                max_count
            },
            |i: int| i,
        ),
    decreases n,
{
    if n > 0 {
        unbudgeted_is_a_prefix(q, (n - 1) as nat, max_count);
    }
    assert(chosen(q, n, max_count, u64::MAX).0 =~= Seq::new(
        if n <= max_count {
            n
        } else {
            max_count
        },
        |i: int| i,
    ));
}

/// In what a block gets, a sender's transactions stand in nonce order.
pub proof fn senders_go_in_nonce_order(
    q: Seq<Held>,
    picks: Seq<int>,
    txs: Seq<Transaction>,
    i: int,
    j: int,
)
    requires
        is_selection(q, picks, txs),
        0 <= i < j < txs.len(),
        txs[i].from@ == txs[j].from@,
    ensures
        txs[i].nonce < txs[j].nonce,
{
    let slots = txs.map_values(|t: Transaction| slot_of(t));
    assert(Slot::precedes(slots[i], slots[j]));
    <String as Key>::order_is_irreflexive(txs[i].from@);
}

/// A transaction whose nonce is spent is never offered for a block again.
pub proof fn spent_nonces_are_not_offered(p: PoolModel, nonces: Map<Seq<char>, u64>, k: int)
    requires
        0 <= k < p.unspent(nonces).queue.len(),
    ensures
        !PoolModel::is_spent(p.unspent(nonces).queue[k], nonces),
        p.queue.contains(p.unspent(nonces).queue[k]),
{
    let keep = |h: Held| !PoolModel::is_spent(h, nonces);
    filter_holds(p.queue, keep, k);
}

/// A transaction that has waited too long is neither offered nor held any longer.
pub proof fn stale_transactions_are_gone(p: PoolModel, now: u64, k: int)
    requires
        0 <= k < p.refreshed(now).queue.len(),
    ensures
        !p.is_stale(p.refreshed(now).queue[k], now),
        p.queue.contains(p.refreshed(now).queue[k]),
{
    let keep = |h: Held| !p.is_stale(h, now);
    filter_holds(p.queue, keep, k);
}

/// What was committed in a block is gone from the pool, and its slot is free again.
pub proof fn committed_transactions_free_their_slots(p: PoolModel, hashes: Seq<Digest>, h: Held)
    requires
        p.wf(),
        p.queue.contains(h),
        committed(h, hashes),
    ensures
        ({
            let left = PoolModel {
                queue: p.queue.filter(|g: Held| !committed(g, hashes)),
                ..p
            };
            &&& !left.holds(h.tx.hash@)
            &&& !left.slot_taken(slot_of(h.tx))
        }),
{
    let keep = |g: Held| !committed(g, hashes);
    let left = PoolModel { queue: p.queue.filter(keep), ..p };
    let at = choose|i: int| 0 <= i < p.queue.len() && p.queue[i] == h;
    assert forall|k: int| 0 <= k < left.queue.len() implies (#[trigger] left.queue[k]).tx.hash@
        != h.tx.hash@ && slot_of(left.queue[k].tx) != slot_of(h.tx) by {
        filter_holds(p.queue, keep, k);
        let i = choose|i: int| 0 <= i < p.queue.len() && p.queue[i] == left.queue[k];
        if i < at {
            assert(may_precede(p.queue[i], p.queue[at]));
        } else if at < i {
            assert(may_precede(p.queue[at], p.queue[i]));
        }
    }
}

pub(crate) proof fn filter_holds(q: Seq<Held>, keep: spec_fn(Held) -> bool, k: int)
    requires
        0 <= k < q.filter(keep).len(),
    ensures
        keep(q.filter(keep)[k]),
        q.contains(q.filter(keep)[k]),
    decreases q.len(),
{
    reveal(Seq::filter);
    if q.len() > 0 {
        let front = q.drop_last();
        let f = front.filter(keep);
        if k < f.len() {
            filter_holds(front, keep, k);
            let i = choose|i: int| 0 <= i < front.len() && front[i] == f[k];
            assert(q[i] == q.filter(keep)[k]);
        } else {
            assert(q[q.len() - 1] == q.filter(keep)[k]);
        }
    }
}

} // verus!
