//! What the pool takes in, what it drops, and what it offers for a block.
use crate::crypto::hex_text::hex_chars;
use crate::crypto::Digest;
use crate::mempool::{
    admits, bytes_of, chosen, committed, empty_pool, rank_behind, rank_from, remembered, ring_after,
    Held, MempoolResult, PoolModel, DEFAULT_MAX_SIZE, DEFAULT_MIN_FEE, DEFAULT_TTL_MS,
};
use crate::transaction::{authentic, Transaction};
use vstd::prelude::*;

verus! {

/// The transaction pays no base fee: it is evidence, or the heartbeat of a known
/// probationer.
pub open spec fn is_free(p: PoolModel, tx: Transaction) -> bool {
    tx.tx_type is SubmitDoubleSignEvidence || (tx.tx_type is ProbationHeartbeat
        && p.exempt.contains(tx.from@))
}

/// So much for every byte, or the largest number there is.
pub open spec fn price(p: PoolModel, tx: Transaction) -> int {
    if p.base_fee_per_byte * tx.size_bytes <= u64::MAX {
        p.base_fee_per_byte * tx.size_bytes
    } else {
        u64::MAX as int
    }
}

/// What a transaction that covers its price leaves the validator.
pub open spec fn surplus(p: PoolModel, tx: Transaction) -> int {
    if is_free(p, tx) {
        tx.fee as int
    } else {
        tx.fee - price(p, tx)
    }
}

/// The transactions of a pool that have not waited too long.
pub open spec fn live(p: PoolModel, now: u64) -> Seq<Held> {
    p.queue.filter(|h: Held| p.ttl_ms > 0 && now < h.entered + p.ttl_ms)
}

/// A queue with one more, behind all that pay at least as much and before all that
/// pay less.
pub open spec fn queued(before: Seq<Held>, after: Seq<Held>, h: Held) -> bool {
    exists|at: int|
        {
            &&& 0 <= at <= before.len()
            &&& after == #[trigger] before.insert(at, h)
            &&& forall|k: int| 0 <= k < at ==> (#[trigger] before[k]).tip >= h.tip
            &&& forall|k: int| at <= k < before.len() ==> (#[trigger] before[k]).tip < h.tip
        }
}

/// A queue without its worst payer, the earliest among equals.
pub open spec fn relieved(before: Seq<Held>, after: Seq<Held>) -> bool {
    exists|out: int|
        {
            &&& 0 <= out < before.len()
            &&& after == #[trigger] before.remove(out)
            &&& forall|k: int| 0 <= k < before.len() ==> (#[trigger] before[k]).tip >= before[out].tip
            &&& forall|k: int| 0 <= k < out ==> (#[trigger] before[k]).tip > before[out].tip
        }
}

/// What a transaction leaves the validator is what the pool ranks it by.
pub proof fn tips_are_what_is_left(p: PoolModel, tx: Transaction)
    ensures
        p.is_exempt(tx) == is_free(p, tx),
        p.base_fee(tx) == price(p, tx),
        surplus(p, tx) >= 0 ==> p.tip(tx) == surplus(p, tx),
        surplus(p, tx) < 0 ==> p.tip(tx) == 0,
{
}

proof fn refreshed_is_live(p: PoolModel, now: u64)
    ensures
        p.refreshed(now).queue == live(p, now),
{
    assert((|h: Held| !p.is_stale(h, now)) =~= (
    |h: Held| p.ttl_ms > 0 && now < h.entered + p.ttl_ms));
}

proof fn rank_behind_splits(q: Seq<Held>, tip: u64)
    requires
        forall|i: int, j: int| 0 <= i < j < q.len() ==> (#[trigger] q[i]).tip >= (#[trigger] q[j]).tip,
    ensures
        ({
            let at = rank_behind(q, tip);
            &&& 0 <= at <= q.len()
            &&& forall|k: int| 0 <= k < at ==> (#[trigger] q[k]).tip >= tip
            &&& forall|k: int| at <= k < q.len() ==> (#[trigger] q[k]).tip < tip
        }),
    decreases q.len(),
{
    if q.len() > 0 && q[0].tip >= tip {
        let rest = q.drop_first();
        assert forall|i: int, j: int| 0 <= i < j < rest.len() implies (#[trigger] rest[i]).tip >= (
        #[trigger] rest[j]).tip by {
            assert(q[i + 1].tip >= q[j + 1].tip);
        }
        rank_behind_splits(rest, tip);
        let at = rank_behind(q, tip);
        assert forall|k: int| 0 <= k < at implies (#[trigger] q[k]).tip >= tip by {
            if k > 0 {
                assert(rest[k - 1] == q[k]);
            }
        }
        assert forall|k: int| at <= k < q.len() implies (#[trigger] q[k]).tip < tip by {
            assert(rest[k - 1] == q[k]);
        }
    }
}

proof fn rank_from_splits(q: Seq<Held>, tip: u64)
    requires
        q.len() > 0,
        q.last().tip == tip,
    ensures
        ({
            let at = rank_from(q, tip);
            &&& 0 <= at < q.len()
            &&& q[at].tip <= tip
            &&& forall|k: int| 0 <= k < at ==> (#[trigger] q[k]).tip > tip
        }),
    decreases q.len(),
{
    if q[0].tip > tip {
        let rest = q.drop_first();
        rank_from_splits(rest, tip);
        let at = rank_from(q, tip);
        assert(rest[at - 1] == q[at]);
        assert forall|k: int| 0 <= k < at implies (#[trigger] q[k]).tip > tip by {
            if k > 0 {
                assert(rest[k - 1] == q[k]);
            }
        }
    }
}

/// The queue of what has not waited too long is still in order.
proof fn live_is_orderly(p: PoolModel, now: u64)
    requires
        p.wf(),
    ensures
        forall|i: int, j: int|
            0 <= i < j < live(p, now).len() ==> (#[trigger] live(p, now)[i]).tip >= (
            #[trigger] live(p, now)[j]).tip,
{
    let keep = |h: Held| p.ttl_ms > 0 && now < h.entered + p.ttl_ms;
    tips_stay_in_order(p.queue, keep);
    assert forall|i: int, j: int| 0 <= i < j < p.queue.len() implies (#[trigger] p.queue[i]).tip >= (
    #[trigger] p.queue[j]).tip by {
        assert(crate::mempool::may_precede(p.queue[i], p.queue[j]));
    }
}

proof fn tips_stay_in_order(q: Seq<Held>, keep: spec_fn(Held) -> bool)
    ensures
        (forall|i: int, j: int|
            0 <= i < j < q.len() ==> (#[trigger] q[i]).tip >= (#[trigger] q[j]).tip) ==> forall|
            i: int,
            j: int,
        |
            0 <= i < j < q.filter(keep).len() ==> (#[trigger] q.filter(keep)[i]).tip >= (
            #[trigger] q.filter(keep)[j]).tip,
    decreases q.len(),
{
    reveal(Seq::filter);
    if q.len() > 0 && forall|i: int, j: int|
        0 <= i < j < q.len() ==> (#[trigger] q[i]).tip >= (#[trigger] q[j]).tip {
        let front = q.drop_last();
        assert forall|i: int, j: int| 0 <= i < j < front.len() implies (#[trigger] front[i]).tip >= (
        #[trigger] front[j]).tip by {
            assert(q[i].tip >= q[j].tip);
        }
        tips_stay_in_order(front, keep);
        let f = front.filter(keep);
        let all = q.filter(keep);
        assert forall|i: int, j: int| 0 <= i < j < all.len() implies (#[trigger] all[i]).tip >= (
        #[trigger] all[j]).tip by {
            if j < f.len() {
                assert(all[i] == f[i] && all[j] == f[j]);
            } else {
                assert(all[i] == f[i]);
                crate::mempool::filter_holds(front, keep, i);
                let k = choose|k: int| 0 <= k < front.len() && front[k] == f[i];
                assert(q[k].tip >= q[q.len() - 1].tip);
            }
        }
    }
}

/// A transaction is taken in exactly if it is free or pays at least the minimum and
/// its price, is not there yet, has no rival for its sender and nonce, is authentic,
/// is meant for this chain, has a nonce that is not spent, and finds a place: there is
/// room, or it leaves the validator more than somebody in the pool. It then stands
/// behind all that pay at least as much. If there was no room, the worst payer is
/// gone, the earliest among equals, and nobody else. A transaction that is refused
/// changes nothing but that what has waited too long is dropped, which comes first in
/// either case.
pub proof fn the_pool_takes_what_pays(
    p: PoolModel,
    q: PoolModel,
    tx: Transaction,
    recovery_key: Option<Seq<u8>>,
    chain_id: Seq<u8>,
    account_nonce: Option<u64>,
    now: u64,
    r: MempoolResult<()>,
)
    requires
        p.wf(),
        admits(p, q, tx, recovery_key, chain_id, account_nonce, now, r),
    ensures
        ({
            let old = live(p, now);
            let h = Held { tx, tip: surplus(p, tx) as u64, entered: now };
            &&& r is Ok <==> {
                &&& is_free(p, tx) || (tx.fee >= p.min_fee && tx.fee >= price(p, tx))
                &&& forall|k: int| 0 <= k < old.len() ==> (#[trigger] old[k]).tx.hash@ != tx.hash@
                &&& forall|k: int|
                    0 <= k < old.len() ==> (#[trigger] old[k]).tx.from@ != tx.from@ || old[k].tx.nonce
                        != tx.nonce
                &&& authentic(tx, recovery_key)
                &&& tx.chain_id@ == chain_id
                &&& account_nonce is None || tx.nonce >= account_nonce->0
                &&& old.len() < p.max_size || exists|k: int|
                    0 <= k < old.len() && (#[trigger] old[k]).tip < surplus(p, tx)
            }
            &&& r is Err ==> q.queue == old
            &&& r is Ok && old.len() < p.max_size ==> queued(old, q.queue, h)
            &&& r is Ok && old.len() >= p.max_size ==> exists|rest: Seq<Held>|
                relieved(old, rest) && #[trigger] queued(rest, q.queue, h)
            &&& q.max_size == p.max_size && q.min_fee == p.min_fee && q.exempt == p.exempt
                && q.ttl_ms == p.ttl_ms && q.base_fee_per_byte == p.base_fee_per_byte
            &&& r is Err && r->Err_0@ is FeeTooLow ==> tx.fee < p.min_fee
            &&& r is Err && r->Err_0@ is BelowBaseFee ==> tx.fee < price(p, tx)
            &&& r is Err && r->Err_0@ is Full ==> old.len() >= p.max_size
            &&& r is Err && r->Err_0@ is ForeignChain ==> tx.chain_id@ != chain_id
            &&& r is Err && r->Err_0@ is Invalid ==> !authentic(tx, recovery_key)
            &&& r is Err && r->Err_0@ is NonceSpent ==> account_nonce is Some && tx.nonce
                < account_nonce->0
            &&& r is Err && r->Err_0@ is AlreadyExists ==> exists|k: int|
                0 <= k < old.len() && (#[trigger] old[k]).tx.hash@ == tx.hash@
            &&& r is Err && r->Err_0@ is NoncePending ==> exists|k: int|
                0 <= k < old.len() && (#[trigger] old[k]).tx.from@ == tx.from@ && old[k].tx.nonce
                    == tx.nonce
        }),
{
    refreshed_is_live(p, now);
    live_is_orderly(p, now);
    let f = p.refreshed(now);
    let old = live(p, now);
    tips_are_what_is_left(f, tx);
    let tip = f.tip(tx);
    if old.len() > 0 {
        rank_from_splits(old, old.last().tip);
        if exists|k: int| 0 <= k < old.len() && (#[trigger] old[k]).tip < surplus(p, tx) {
            let k = choose|k: int| 0 <= k < old.len() && (#[trigger] old[k]).tip < surplus(p, tx);
            assert(old[k].tip >= old[old.len() - 1].tip);
        }
        assert(old[old.len() - 1] == old.last());
    }
    if f.holds(tx.hash@) {
        let k = choose|i: int| 0 <= i < f.queue.len() && (#[trigger] f.queue[i]).tx.hash@ == tx.hash@;
        assert(old[k].tx.hash@ == tx.hash@);
    }
    if f.slot_taken(crate::mempool::slot_of(tx)) {
        let k = choose|i: int|
            0 <= i < f.queue.len() && crate::mempool::slot_of((#[trigger] f.queue[i]).tx)
                == crate::mempool::slot_of(tx);
        assert(old[k].tx.from@ == tx.from@ && old[k].tx.nonce == tx.nonce);
    }
    assert forall|k: int| 0 <= k < old.len() && (#[trigger] old[k]).tx.hash@ == tx.hash@ implies f.holds(
        tx.hash@,
    ) by {
        assert(f.queue[k].tx.hash@ == tx.hash@);
    }
    assert forall|k: int|
        0 <= k < old.len() && (#[trigger] old[k]).tx.from@ == tx.from@ && old[k].tx.nonce
            == tx.nonce implies f.slot_taken(crate::mempool::slot_of(tx)) by {
        assert(crate::mempool::slot_of(f.queue[k].tx) == crate::mempool::slot_of(tx));
    }
    if r is Ok {
        let h = Held { tx, tip: surplus(p, tx) as u64, entered: now };
        if old.len() >= p.max_size {
            let out = rank_from(old, old.last().tip);
            let rest = old.remove(out);
            assert forall|k: int| 0 <= k < old.len() implies (#[trigger] old[k]).tip
                >= old[out].tip by {
                if k < old.len() - 1 {
                    assert(old[k].tip >= old[old.len() - 1].tip);
                }
            }
            if out < old.len() - 1 {
                assert(old[out].tip >= old[old.len() - 1].tip);
            }
            assert(relieved(old, rest));
            assert forall|i: int, j: int| 0 <= i < j < rest.len() implies (#[trigger] rest[i]).tip
                >= (#[trigger] rest[j]).tip by {
                let a = if i < out { i } else { i + 1 };
                let b = if j < out { j } else { j + 1 };
                assert(rest[i] == old[a] && rest[j] == old[b]);
            }
            rank_behind_splits(rest, h.tip);
            assert(q.queue == rest.insert(rank_behind(rest, h.tip), h));
            assert(queued(rest, q.queue, h));
        } else {
            rank_behind_splits(old, h.tip);
            assert(q.queue == old.insert(rank_behind(old, h.tip), h));
            assert(queued(old, q.queue, h));
        }
    }
}

/// Remembering a hash forgets nothing while there is room, and only the oldest when
/// there is none. Four thousand and ninety-six are remembered.
pub proof fn the_oldest_is_forgotten_first(ring: Seq<Seq<char>>, hash: Seq<char>)
    requires
        ring.len() <= 4096,
    ensures
        ({
            let t = remembered(ring, hash);
            &&& t.contains(hash)
            &&& t.len() <= 4096
            &&& ring.contains(hash) ==> t == ring
            &&& !ring.contains(hash) && ring.len() < 4096 ==> t == ring.push(hash)
            &&& !ring.contains(hash) && ring.len() == 4096 ==> t == ring.skip(1).push(hash)
        }),
{
    let t = remembered(ring, hash);
    if !ring.contains(hash) {
        assert(t.last() == hash);
        assert(t[t.len() - 1] == hash);
        if ring.len() == 4096 {
            assert(t =~= ring.skip(1).push(hash));
        }
    }
}

/// Every transaction that is dropped for having waited too long is remembered, as
/// far as the memory reaches; what has not waited too long is not remembered for it.
pub proof fn what_is_dropped_is_remembered(p: PoolModel, now: u64, n: nat, hash: Seq<char>)
    requires
        n <= p.queue.len(),
        p.expired.len() + n <= 4096,
    ensures
        ring_after(p, now, n).len() <= p.expired.len() + n,
        ring_after(p, now, n).contains(hash) <==> p.expired.contains(hash) || exists|k: int|
            0 <= k < n && hex_chars((#[trigger] p.queue[k]).tx.hash@) == hash && (p.ttl_ms == 0
                || now >= p.queue[k].entered + p.ttl_ms),
    decreases n,
{
    if n > 0 {
        let m = (n - 1) as nat;
        what_is_dropped_is_remembered(p, now, m, hash);
        let before = ring_after(p, now, m);
        let h = hex_chars(p.queue[n - 1].tx.hash@);
        if p.is_stale(p.queue[n - 1], now) {
            the_oldest_is_forgotten_first(before, h);
            let after = before.push(h);
            assert(after.contains(hash) <==> before.contains(hash) || hash == h) by {
                if before.contains(hash) {
                    let i = choose|i: int| 0 <= i < before.len() && before[i] == hash;
                    assert(after[i] == hash);
                }
                assert(after[before.len() as int] == h);
                if after.contains(hash) {
                    let i = choose|i: int| 0 <= i < after.len() && after[i] == hash;
                    if i < before.len() {
                        assert(before[i] == hash);
                    }
                }
            }
        }
        if exists|k: int|
            0 <= k < n && hex_chars((#[trigger] p.queue[k]).tx.hash@) == hash && (p.ttl_ms == 0 || now
                >= p.queue[k].entered + p.ttl_ms) {
            let k = choose|k: int|
                0 <= k < n && hex_chars((#[trigger] p.queue[k]).tx.hash@) == hash && (p.ttl_ms == 0
                    || now >= p.queue[k].entered + p.ttl_ms);
            if k < m {
                assert(hex_chars(p.queue[k].tx.hash@) == hash);
            }
        }
    }
}

/// The transactions that are kept because their nonces are not spent, in order.
pub proof fn only_spent_nonces_are_dropped(p: PoolModel, nonces: Map<Seq<char>, u64>)
    ensures
        p.unspent(nonces) == (PoolModel {
            queue: p.queue.filter(
                |h: Held|
                    !nonces.contains_key(h.tx.from@) || h.tx.nonce >= nonces[h.tx.from@],
            ),
            ..p
        }),
{
    assert((|h: Held| !PoolModel::is_spent(h, nonces)) =~= (
    |h: Held| !nonces.contains_key(h.tx.from@) || h.tx.nonce >= nonces[h.tx.from@]));
}

/// A transaction counts as committed exactly if its hash is among those committed.
pub proof fn committed_means_listed(h: Held, hashes: Seq<Digest>)
    ensures
        committed(h, hashes) <==> hashes.map_values(|d: Digest| d@).contains(h.tx.hash@),
{
    let all = hashes.map_values(|d: Digest| d@);
    if committed(h, hashes) {
        let k = choose|k: int| 0 <= k < hashes.len() && (#[trigger] hashes[k])@ == h.tx.hash@;
        assert(all[k] == h.tx.hash@);
    }
    if all.contains(h.tx.hash@) {
        let k = choose|k: int| 0 <= k < all.len() && all[k] == h.tx.hash@;
        assert(hashes[k]@ == h.tx.hash@);
    }
}

/// Going down the queue, a transaction is chosen exactly while there is room for
/// another and, unless it is the first, its bytes fit with those chosen before it.
pub proof fn whatever_fits_is_chosen(q: Seq<Held>, n: nat, max_count: nat, max_bytes: u64, k: int)
    requires
        n <= q.len(),
        0 <= k < n,
    ensures
        ({
            let picks = chosen(q, n, max_count, max_bytes).0;
            let before = chosen(q, k as nat, max_count, max_bytes).0;
            &&& picks.contains(k) <==> before.len() < max_count && (before.len() == 0 || max_bytes
                == u64::MAX || bytes_of(q, before) + q[k].tx.size_bytes <= max_bytes)
            &&& before.is_prefix_of(picks)
            &&& forall|i: int| 0 <= i < before.len() ==> #[trigger] before[i] < k
        }),
    decreases n,
{
    crate::mempool::selections_keep_the_limits(q, k as nat, max_count, max_bytes);
    crate::mempool::chosen_facts(q, k as nat, max_count, max_bytes);
    crate::mempool::chosen_facts(q, n, max_count, max_bytes);
    let before = chosen(q, k as nat, max_count, max_bytes).0;
    let picks = chosen(q, n, max_count, max_bytes).0;
    if n == k + 1 {
        if picks.len() > before.len() {
            assert(picks[before.len() as int] == k);
        }
        if picks.contains(k) && picks == before {
            let i = choose|i: int| 0 <= i < picks.len() && picks[i] == k;
            assert(before[i] < k);
        }
        assert(before =~= picks.take(before.len() as int));
    } else {
        let m = (n - 1) as nat;
        whatever_fits_is_chosen(q, m, max_count, max_bytes, k);
        let mid = chosen(q, m, max_count, max_bytes).0;
        if mid.contains(k) {
            let i = choose|i: int| 0 <= i < mid.len() && mid[i] == k;
            assert(picks[i] == k);
        }
        if picks.contains(k) {
            let i = choose|i: int| 0 <= i < picks.len() && picks[i] == k;
            if i < mid.len() {
                assert(mid[i] == k);
            }
        }
        assert(before =~= picks.take(before.len() as int));
    }
}

/// A new pool is empty, asks one unit for every byte, and by default holds ten
/// thousand transactions that pay at least a thousand, for half an hour.
pub proof fn new_pools_are_empty(max_size: usize, min_fee: u64, ttl_ms: u64)
    ensures
        ({
            let p = empty_pool(max_size, min_fee, ttl_ms);
            &&& p.queue.len() == 0
            &&& p.expired.len() == 0
            &&& p.max_size == max_size
            &&& p.min_fee == min_fee
            &&& p.ttl_ms == ttl_ms
            &&& p.exempt == Set::<Seq<char>>::empty()
            &&& p.base_fee_per_byte == 1
        }),
        DEFAULT_MAX_SIZE == 10_000,
        DEFAULT_MIN_FEE == 1_000,
        DEFAULT_TTL_MS == 1_800_000,
{
}

} // verus!
