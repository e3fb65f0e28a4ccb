//! What executing a transaction or a block came to.
use crate::crypto::hash::Digest;
use crate::crypto::hex_text::hex_chars;
use crate::crypto::Address;
use crate::identity::personhood::address_texts;
use vstd::prelude::*;

verus! {

#[derive(Debug)]
pub struct Receipt {
    pub tx_hash: String,
    pub success: bool,
    pub fee_burned: u64,
    pub fee_to_validator: u64,
    pub error: Option<String>,
}

/// A `Receipt` with its texts as characters.
pub struct ReceiptModel {
    pub tx_hash: Seq<char>,
    pub success: bool,
    pub fee_burned: u64,
    pub fee_to_validator: u64,
    pub error: Option<Seq<char>>,
}

impl View for Receipt {
    type V = ReceiptModel;

    open spec fn view(&self) -> ReceiptModel {
        ReceiptModel {
            tx_hash: self.tx_hash@,
            success: self.success,
            fee_burned: self.fee_burned,
            fee_to_validator: self.fee_to_validator,
            error: match self.error {
                Some(e) => Some(e@),
                None => None,
            },
        }
    }
}

/// The receipt of a transaction that took effect.
pub open spec fn success_receipt(tx_hash: Seq<u8>, burned: u64, reward: u64) -> ReceiptModel {
    ReceiptModel {
        tx_hash: hex_chars(tx_hash),
        success: true,
        fee_burned: burned,
        fee_to_validator: reward,
        error: None,
    }
}

/// The receipt of a transaction that did not.
pub open spec fn failure_receipt(
    tx_hash: Seq<u8>,
    reason: Seq<char>,
    burned: u64,
    reward: u64,
) -> ReceiptModel {
    ReceiptModel {
        tx_hash: hex_chars(tx_hash),
        success: false,
        fee_burned: burned,
        fee_to_validator: reward,
        error: Some(reason),
    }
}

impl Receipt {
    pub fn success(tx_hash: Digest, fee_burned: u64, fee_to_validator: u64) -> (r: Self)
        ensures
            r@ == success_receipt(tx_hash@, fee_burned, fee_to_validator),
    {
        Receipt {
            tx_hash: tx_hash.to_hex(),
            success: true,
            fee_burned,
            fee_to_validator,
            error: None,
        }
    }

    pub fn failure(
        tx_hash: Digest,
        reason: &str,
        fee_burned: u64,
        fee_to_validator: u64,
    ) -> (r: Self)
        ensures
            r@ == failure_receipt(tx_hash@, reason@, fee_burned, fee_to_validator),
    {
        Receipt {
            tx_hash: tx_hash.to_hex(),
            success: false,
            fee_burned,
            fee_to_validator,
            error: Some(reason.to_owned()),
        }
    }
}

#[derive(Debug)]
pub struct BlockReceipt {
    pub block_hash: String,
    pub height: u64,
    pub tx_receipts: Vec<Receipt>,
    pub total_burned: u64,
    pub validator_reward: u64,
    /// New value minted for the block, beside the fees.
    pub block_reward_minted: u64,
    /// Validators jailed for downtime by this block.
    pub newly_jailed: Vec<Address>,
}

/// A `BlockReceipt` with its texts as characters.
pub struct BlockReceiptModel {
    pub block_hash: Seq<char>,
    pub height: u64,
    pub tx_receipts: Seq<ReceiptModel>,
    pub total_burned: u64,
    pub validator_reward: u64,
    pub block_reward_minted: u64,
    pub newly_jailed: Seq<Seq<char>>,
}

/// The receipts in a list.
pub open spec fn receipt_models(s: Seq<Receipt>) -> Seq<ReceiptModel> {
    Seq::new(s.len(), |i: int| s[i]@)
}

impl View for BlockReceipt {
    type V = BlockReceiptModel;

    open spec fn view(&self) -> BlockReceiptModel {
        BlockReceiptModel {
            block_hash: self.block_hash@,
            height: self.height,
            tx_receipts: receipt_models(self.tx_receipts@),
            total_burned: self.total_burned,
            validator_reward: self.validator_reward,
            block_reward_minted: self.block_reward_minted,
            newly_jailed: address_texts(self.newly_jailed@),
        }
    }
}

/// How many receipts of a list have the given outcome.
pub open spec fn count_outcome(s: Seq<ReceiptModel>, success: bool) -> nat
    decreases s.len(),
{
    if s.len() == 0 {
        0
    } else {
        count_outcome(s.drop_last(), success) + (if s.last().success == success {
            1nat
        } else {
            0nat
        })
    }
}

impl BlockReceipt {
    fn count(&self, success: bool) -> (r: usize)
        ensures
            r == count_outcome(self@.tx_receipts, success),
    {
        let mut n: usize = 0;
        let mut i: usize = 0;
        while i < self.tx_receipts.len()
            invariant
                i <= self.tx_receipts.len(),
                n <= i,
                n == count_outcome(self@.tx_receipts.take(i as int), success),
            decreases self.tx_receipts.len() - i,
        {
            proof {
                let next = self@.tx_receipts.take(i + 1);
                assert(next.drop_last() =~= self@.tx_receipts.take(i as int));
                assert(next.last() == self.tx_receipts@[i as int]@);
            }
            if self.tx_receipts[i].success == success {
                n = n + 1;
            }
            i = i + 1;
        }
        proof {
            assert(self@.tx_receipts.take(i as int) =~= self@.tx_receipts);
        }
        n
    }

    pub fn successful_txs(&self) -> (r: usize)
        ensures
            r == count_outcome(self@.tx_receipts, true),
    {
        self.count(true)
    }

    pub fn failed_txs(&self) -> (r: usize)
        ensures
            r == count_outcome(self@.tx_receipts, false),
    {
        self.count(false)
    }
}

/// Every transaction of a block either succeeded or failed.
pub proof fn outcomes_add_up(s: Seq<ReceiptModel>)
    ensures
        count_outcome(s, true) + count_outcome(s, false) == s.len(),
    decreases s.len(),
{
    if s.len() > 0 {
        outcomes_add_up(s.drop_last());
    }
}

} // verus!
