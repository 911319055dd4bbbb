//! The ledger: an append-only chain of validated blocks and the set of
//! unspent transaction output hashes they have created and not yet consumed.
//! `update_with_block` is the only mutating entry point; it validates a
//! candidate block and, only on success, appends it and commits its effect
//! on the unspent set.

use vstd::prelude::*;
use crate::block::{Block, block_digest, meets_difficulty, zero_hash, zero_hash_vec, check_difficulty};
use crate::hash_list::{hash_list_set, all_contained, none_contained, push_all, remove_all};
use crate::hashing::Hashable;
use crate::transaction::{
    Output, Transaction, hashes_of, input_hash_set, output_hash, output_hash_set, sum_values,
    lemma_sum_values_bound,
};
use crate::bytes::bytes_eq;

verus! {

/// Every way a candidate block can be rejected.
#[derive(Clone, Copy, PartialEq, Eq, Structural, Debug)]
pub enum BlockValidationErr {
    MismatchedIndex,
    InvalidHash,
    AchronTimeStamp,
    MismatchedPrevHash,
    InvalidGenesisBlockFormat,
    InvalidInput,
    InsufficientInputValue,
    InvalidCoinbaseTxn,
}

/// The chain state: accepted blocks, in order, and the hashes of the outputs
/// they created that no accepted transaction has spent.
pub struct Blockchain {
    pub blocks: Vec<Block>,
    pub unspent_outputs: Vec<Vec<u8>>,
}

/// A block's transactions past the first: the ones that must spend existing
/// outputs. Empty when the block carries no transactions at all.
pub open spec fn rest_txns(b: Block) -> Seq<Transaction> {
    b.transactions@.drop_first()
}

/// All hashes the given transactions spend.
pub open spec fn spent_of(txns: Seq<Transaction>) -> Set<Seq<u8>> {
    Set::new(|h: Seq<u8>| exists|j: int| 0 <= j < txns.len() && input_hash_set(#[trigger] txns[j]).contains(h))
}

/// All hashes the given transactions create.
pub open spec fn created_of(txns: Seq<Transaction>) -> Set<Seq<u8>> {
    Set::new(|h: Seq<u8>| exists|j: int| 0 <= j < txns.len() && output_hash_set(#[trigger] txns[j]).contains(h))
}

/// The hashes a block's acceptance removes from the unspent set.
pub open spec fn block_spent(b: Block) -> Set<Seq<u8>> {
    if b.transactions@.len() == 0 {
        Set::empty()
    } else {
        spent_of(rest_txns(b))
    }
}

/// The hashes a block's acceptance adds to the unspent set: those created by
/// its non-coinbase transactions and by its coinbase transaction.
pub open spec fn block_created(b: Block) -> Set<Seq<u8>> {
    if b.transactions@.len() == 0 {
        Set::empty()
    } else {
        created_of(rest_txns(b)).union(output_hash_set(b.transactions@.first()))
    }
}

/// The unspent set after a block is accepted: unchanged when the block
/// carries no transactions, else the committed set difference and union.
pub open spec fn apply_block(unspent: Set<Seq<u8>>, b: Block) -> Set<Seq<u8>> {
    if b.transactions@.len() == 0 {
        unspent
    } else {
        unspent.difference(block_spent(b)).union(block_created(b))
    }
}

/// The unspent set a chain of accepted blocks leaves behind, block by block.
pub open spec fn chain_unspent(chain: Seq<Block>) -> Set<Seq<u8>>
    decreases chain.len(),
{
    if chain.len() == 0 {
        Set::empty()
    } else {
        apply_block(chain_unspent(chain.drop_last()), chain.last())
    }
}

/// Every hash ever created by the chain's blocks.
pub open spec fn chain_created(chain: Seq<Block>) -> Set<Seq<u8>> {
    Set::new(|h: Seq<u8>| exists|k: int| 0 <= k < chain.len() && block_created(#[trigger] chain[k]).contains(h))
}

/// Every hash ever spent by the chain's blocks.
pub open spec fn chain_spent(chain: Seq<Block>) -> Set<Seq<u8>> {
    Set::new(|h: Seq<u8>| exists|k: int| 0 <= k < chain.len() && block_spent(#[trigger] chain[k]).contains(h))
}

/// Block `k` of a chain is sound in its place: indices count up from zero,
/// the recomputed digest meets the block's own difficulty, the genesis block
/// points at the zero hash, and every later block points at its
/// predecessor's cached hash with a strictly later timestamp.
pub open spec fn chain_link_ok(chain: Seq<Block>, k: int) -> bool {
    &&& chain[k].index as int == k
    &&& meets_difficulty(block_digest(chain[k]), chain[k].difficulty)
    &&& if k == 0 {
        chain[k].prev_block_hash@ == zero_hash()
    } else {
        chain[k].timestamp > chain[k - 1].timestamp
            && chain[k].prev_block_hash@ == chain[k - 1].hash@
    }
}

/// The whole chain is sound.
pub open spec fn chain_ok(chain: Seq<Block>) -> bool {
    forall|k: int| 0 <= k < chain.len() ==> chain_link_ok(chain, k)
}

/// The outcome of the header checks alone, in their fixed order: index,
/// proof of work, then genesis shape or timestamp and linkage.
pub open spec fn header_check(chain: Seq<Block>, b: Block) -> Result<(), BlockValidationErr> {
    if b.index as int != chain.len() {
        Err(BlockValidationErr::MismatchedIndex)
    } else if !meets_difficulty(block_digest(b), b.difficulty) {
        Err(BlockValidationErr::InvalidHash)
    } else if chain.len() != 0 {
        if b.timestamp <= chain.last().timestamp {
            Err(BlockValidationErr::AchronTimeStamp)
        } else if b.prev_block_hash@ != chain.last().hash@ {
            Err(BlockValidationErr::MismatchedPrevHash)
        } else {
            Ok(())
        }
    } else if b.prev_block_hash@ != zero_hash() {
        Err(BlockValidationErr::InvalidGenesisBlockFormat)
    } else {
        Ok(())
    }
}

/// The outcome of checking the non-coinbase transactions in order, given the
/// ledger's unspent set and the hashes spent so far within the same block:
/// each transaction must spend only unspent hashes not already spent in this
/// block, and must not create more value than it consumes.
pub open spec fn txns_check(
    txns: Seq<Transaction>,
    unspent: Set<Seq<u8>>,
    spent: Set<Seq<u8>>,
) -> Result<(), BlockValidationErr>
    decreases txns.len(),
{
    if txns.len() == 0 {
        Ok(())
    } else {
        let t = txns.first();
        if !input_hash_set(t).subset_of(unspent) || !input_hash_set(t).disjoint(spent) {
            Err(BlockValidationErr::InvalidInput)
        } else if sum_values(t.outputs@) > sum_values(t.inputs@) {
            Err(BlockValidationErr::InsufficientInputValue)
        } else {
            txns_check(txns.drop_first(), unspent, spent.union(input_hash_set(t)))
        }
    }
}

/// The fee the given transactions collectively leave for the coinbase: the
/// sum of each one's input value minus its output value.
pub open spec fn total_fee(txns: Seq<Transaction>) -> int
    decreases txns.len(),
{
    if txns.len() == 0 {
        0
    } else {
        total_fee(txns.drop_last()) + sum_values(txns.last().inputs@)
            - sum_values(txns.last().outputs@)
    }
}

/// The outcome of the transaction checks of a block: a block with no
/// transactions passes outright; otherwise the first transaction must be a
/// coinbase, the rest must check out in order, and the coinbase's output
/// value must cover the collected fee.
pub open spec fn body_check(unspent: Set<Seq<u8>>, b: Block) -> Result<(), BlockValidationErr> {
    if b.transactions@.len() == 0 {
        Ok(())
    } else if b.transactions@.first().inputs@.len() != 0 {
        Err(BlockValidationErr::InvalidCoinbaseTxn)
    } else if txns_check(rest_txns(b), unspent, Set::empty()) is Err {
        txns_check(rest_txns(b), unspent, Set::empty())
    } else if sum_values(b.transactions@.first().outputs@) < total_fee(rest_txns(b)) {
        Err(BlockValidationErr::InvalidCoinbaseTxn)
    } else {
        Ok(())
    }
}

/// The full validation outcome for a candidate block against a chain state:
/// the header checks first, then the transaction checks.
pub open spec fn validate(
    chain: Seq<Block>,
    unspent: Set<Seq<u8>>,
    b: Block,
) -> Result<(), BlockValidationErr> {
    if header_check(chain, b) is Err {
        header_check(chain, b)
    } else {
        body_check(unspent, b)
    }
}

impl Blockchain {
    /// The set of unspent output hashes the ledger currently holds.
    pub open spec fn unspent_set(self) -> Set<Seq<u8>> {
        hash_list_set(self.unspent_outputs@)
    }

    /// The ledger invariant: the chain is sound and the unspent set is
    /// exactly what replaying the accepted blocks leaves behind.
    pub open spec fn wf(self) -> bool {
        &&& chain_ok(self.blocks@)
        &&& self.unspent_set() == chain_unspent(self.blocks@)
    }

    /// An empty ledger: no blocks, no unspent outputs.
    pub fn new() -> (r: Blockchain)
        ensures
            r.wf(),
            r.blocks@.len() == 0,
            r.unspent_set() == Set::<Seq<u8>>::empty(),
    {
        let r = Blockchain { blocks: Vec::new(), unspent_outputs: Vec::new() };
        proof {
            assert(r.unspent_set() =~= Set::<Seq<u8>>::empty());
        }
        r
    }

    /// The unspent output hashes, as a list; its set view is the ledger's
    /// unspent set.
    pub fn unspent_hashes(&self) -> (r: &Vec<Vec<u8>>)
        ensures
            hash_list_set(r@) == self.unspent_set(),
    {
        &self.unspent_outputs
    }

    /// Validates a candidate block against the current chain state and, only
    /// if every check passes, appends it and commits its spent and created
    /// hashes to the unspent set. On failure the ledger is unchanged and the
    /// first failing check's error is returned.
    #[verifier::loop_isolation(false)]
    pub fn update_with_block(&mut self, block: Block) -> (res: Result<(), BlockValidationErr>)
        requires
            old(self).wf(),
        ensures
            final(self).wf(),
            res == validate(old(self).blocks@, old(self).unspent_set(), block),
            res is Ok ==> final(self).blocks@ == old(self).blocks@.push(block)
                && final(self).unspent_set() == apply_block(old(self).unspent_set(), block),
            res is Err ==> final(self).blocks@ == old(self).blocks@
                && final(self).unspent_set() == old(self).unspent_set(),
            block.index as int != old(self).blocks@.len()
                ==> res == Err::<(), BlockValidationErr>(BlockValidationErr::MismatchedIndex),
            old(self).blocks@.len() == 0 && block.index as int == 0
                && meets_difficulty(block_digest(block), block.difficulty)
                && block.prev_block_hash@ != zero_hash()
                ==> res == Err::<(), BlockValidationErr>(BlockValidationErr::InvalidGenesisBlockFormat),
            old(self).blocks@.len() > 0 && block.index as int == old(self).blocks@.len()
                && meets_difficulty(block_digest(block), block.difficulty)
                && block.timestamp <= old(self).blocks@.last().timestamp
                ==> res == Err::<(), BlockValidationErr>(BlockValidationErr::AchronTimeStamp),
            header_check(old(self).blocks@, block) is Ok && block.transactions@.len() > 0
                && block.transactions@.first().inputs@.len() == 0
                && txns_check(rest_txns(block), old(self).unspent_set(), Set::empty()) is Ok
                ==> (res is Ok <==> sum_values(block.transactions@.first().outputs@)
                        >= total_fee(rest_txns(block))),
            header_check(old(self).blocks@, block) is Ok && block.transactions@.len() > 0
                && block.transactions@.first().inputs@.len() == 0
                && txns_check(rest_txns(block), old(self).unspent_set(), Set::empty()) is Ok
                && sum_values(block.transactions@.first().outputs@) < total_fee(rest_txns(block))
                ==> res == Err::<(), BlockValidationErr>(BlockValidationErr::InvalidCoinbaseTxn),
    {
        let ghost chain0 = self.blocks@;
        let ghost unspent0 = self.unspent_set();
        let i = self.blocks.len();
        if (block.index as usize) != i {
            return Err(BlockValidationErr::MismatchedIndex);
        }
        let digest = block.hash();
        if !check_difficulty(&digest, block.difficulty) {
            return Err(BlockValidationErr::InvalidHash);
        }
        if i != 0 {
            let prev = &self.blocks[i - 1];
            if block.timestamp <= prev.timestamp {
                return Err(BlockValidationErr::AchronTimeStamp);
            }
            if !bytes_eq(&block.prev_block_hash, &prev.hash) {
                return Err(BlockValidationErr::MismatchedPrevHash);
            }
        } else {
            let zeros = zero_hash_vec();
            if !bytes_eq(&block.prev_block_hash, &zeros) {
                return Err(BlockValidationErr::InvalidGenesisBlockFormat);
            }
        }
        proof {
            assert(header_check(chain0, block) is Ok);
        }
        if block.transactions.len() > 0 {
            let ghost rest = rest_txns(block);
            if !block.transactions[0].is_coinbase() {
                return Err(BlockValidationErr::InvalidCoinbaseTxn);
            }
            let mut spent_list: Vec<Vec<u8>> = Vec::new();
            let mut created_list: Vec<Vec<u8>> = Vec::new();
            let mut fee_acc: u128 = 0;
            proof {
                assert(rest.skip(0) =~= rest);
                assert(rest.take(0) =~= Seq::<Transaction>::empty());
                assert(hash_list_set(spent_list@) =~= spent_of(rest.take(0)));
                assert(hash_list_set(spent_list@) =~= Set::<Seq<u8>>::empty());
                assert(hash_list_set(created_list@) =~= created_of(rest.take(0)));
            }
            let mut t: usize = 1;
            while t < block.transactions.len()
                invariant
                    1 <= t <= block.transactions@.len(),
                    rest == rest_txns(block),
                    hash_list_set(spent_list@) == spent_of(rest.take(t - 1)),
                    hash_list_set(created_list@) == created_of(rest.take(t - 1)),
                    txns_check(rest, unspent0, Set::empty())
                        == txns_check(rest.skip(t - 1), unspent0, hash_list_set(spent_list@)),
                    forall|j: int| 0 <= j < t - 1
                        ==> sum_values(#[trigger] rest[j].outputs@) <= sum_values(rest[j].inputs@),
                    0 <= total_fee(rest.take(t - 1)),
                    total_fee(rest.take(t - 1)) <= u128::MAX
                        ==> fee_acc == total_fee(rest.take(t - 1)),
                    total_fee(rest.take(t - 1)) > u128::MAX ==> fee_acc == u128::MAX,
                decreases block.transactions@.len() - t,
            {
                let ghost p = t - 1;
                let txn = &block.transactions[t];
                proof {
                    assert(rest[p as int] == block.transactions@[t as int]);
                    assert(rest.skip(p as int).first() == rest[p as int]);
                }
                let in_hashes = txn.input_hashes();
                proof {
                    lemma_hash_vec_as_set(in_hashes@, txn.inputs@);
                }
                let ok_in = all_contained(&in_hashes, &self.unspent_outputs);
                let ok_new = none_contained(&in_hashes, &spent_list);
                if !ok_in || !ok_new {
                    proof {
                        assert(txns_check(rest.skip(t - 1), unspent0, hash_list_set(spent_list@))
                            == Err::<(), BlockValidationErr>(BlockValidationErr::InvalidInput));
                        assert(body_check(unspent0, block)
                            == Err::<(), BlockValidationErr>(BlockValidationErr::InvalidInput));
                    }
                    return Err(BlockValidationErr::InvalidInput);
                }
                let in_val = txn.input_value();
                let out_val = txn.output_value();
                if out_val > in_val {
                    proof {
                        assert(txns_check(rest.skip(t - 1), unspent0, hash_list_set(spent_list@))
                            == Err::<(), BlockValidationErr>(BlockValidationErr::InsufficientInputValue));
                        assert(body_check(unspent0, block)
                            == Err::<(), BlockValidationErr>(BlockValidationErr::InsufficientInputValue));
                    }
                    return Err(BlockValidationErr::InsufficientInputValue);
                }
                let fee = in_val - out_val;
                fee_acc = match fee_acc.checked_add(fee) {
                    Some(v) => v,
                    None => u128::MAX,
                };
                push_all(&mut spent_list, &in_hashes);
                let out_hashes = txn.output_hashes();
                proof {
                    lemma_hash_vec_as_set(out_hashes@, txn.outputs@);
                }
                push_all(&mut created_list, &out_hashes);
                t = t + 1;
                proof {
                    lemma_take_step(rest, p as int + 1);
                    assert(rest.skip(p as int).drop_first() =~= rest.skip(p as int + 1));
                    assert(rest.take(p as int + 1).drop_last() =~= rest.take(p as int));
                    assert(rest.take(p as int + 1).last() == rest[p as int]);
                }
            }
            proof {
                assert(rest.skip(t - 1) =~= Seq::<Transaction>::empty());
                assert(txns_check(rest, unspent0, Set::empty()) is Ok);
                assert(rest.take(t - 1) =~= rest);
            }
            let cb_val = block.transactions[0].output_value();
            let cb_len = block.transactions[0].outputs.len();
            proof {
                let cb_outs = block.transactions@.first().outputs@;
                lemma_sum_values_bound(cb_outs);
                assert(cb_outs.len() == cb_len);
                assert(cb_outs.len() * u64::MAX < u128::MAX) by (nonlinear_arith)
                    requires cb_outs.len() <= u64::MAX;
            }
            if cb_val < fee_acc {
                return Err(BlockValidationErr::InvalidCoinbaseTxn);
            }
            let cb_hashes = block.transactions[0].output_hashes();
            proof {
                lemma_hash_vec_as_set(cb_hashes@, block.transactions@.first().outputs@);
            }
            push_all(&mut created_list, &cb_hashes);
            remove_all(&mut self.unspent_outputs, &spent_list);
            push_all(&mut self.unspent_outputs, &created_list);
            proof {
                assert(self.unspent_set() =~= apply_block(unspent0, block));
            }
        }
        self.blocks.push(block);
        proof {
            let c2 = self.blocks@;
            assert(c2.drop_last() =~= chain0);
            assert(c2.last() == block);
            assert forall|k: int| 0 <= k < c2.len() implies chain_link_ok(c2, k) by {
                if k < chain0.len() {
                    assert(chain_link_ok(chain0, k));
                    assert(c2[k] == chain0[k]);
                    if k > 0 {
                        assert(c2[k - 1] == chain0[k - 1]);
                    }
                } else {
                    if k > 0 {
                        assert(c2[k - 1] == chain0[k - 1]);
                        assert(chain0.last() == chain0[k - 1]);
                    }
                }
            }
        }
        Ok(())
    }
}

/// Conservation: as long as no block creates a hash that the chain up to and
/// including it has already spent, the unspent set a chain leaves behind is
/// exactly the set of hashes its blocks ever created minus the set of hashes
/// they ever spent.
pub proof fn lemma_conservation(chain: Seq<Block>)
    requires
        forall|k: int| 0 <= k < chain.len()
            ==> block_created(#[trigger] chain[k]).disjoint(chain_spent(chain.take(k + 1))),
    ensures
        chain_unspent(chain) == chain_created(chain).difference(chain_spent(chain)),
    decreases chain.len(),
{
    if chain.len() == 0 {
        assert(chain_unspent(chain) =~= chain_created(chain).difference(chain_spent(chain)));
    } else {
        let pre = chain.drop_last();
        let b = chain.last();
        let cp = chain_created(pre);
        let sp = chain_spent(pre);
        let c = block_created(b);
        let s = block_spent(b);
        assert forall|k: int| 0 <= k < pre.len()
            implies block_created(#[trigger] pre[k]).disjoint(chain_spent(pre.take(k + 1))) by {
            assert(pre[k] == chain[k]);
            assert(pre.take(k + 1) =~= chain.take(k + 1));
        }
        lemma_conservation(pre);
        assert forall|h: Seq<u8>| chain_created(chain).contains(h) == cp.union(c).contains(h) by {
            if chain_created(chain).contains(h) {
                let k = choose|k: int| 0 <= k < chain.len()
                    && block_created(#[trigger] chain[k]).contains(h);
                if k < pre.len() {
                    assert(block_created(pre[k]).contains(h));
                } else {
                    assert(chain[k] == b);
                }
            }
            if cp.contains(h) {
                let k = choose|k: int| 0 <= k < pre.len()
                    && block_created(#[trigger] pre[k]).contains(h);
                assert(block_created(chain[k]).contains(h));
            }
            if c.contains(h) {
                assert(block_created(chain[chain.len() - 1]).contains(h));
            }
        }
        assert(chain_created(chain) =~= cp.union(c));
        assert forall|h: Seq<u8>| chain_spent(chain).contains(h) == sp.union(s).contains(h) by {
            if chain_spent(chain).contains(h) {
                let k = choose|k: int| 0 <= k < chain.len()
                    && block_spent(#[trigger] chain[k]).contains(h);
                if k < pre.len() {
                    assert(block_spent(pre[k]).contains(h));
                } else {
                    assert(chain[k] == b);
                }
            }
            if sp.contains(h) {
                let k = choose|k: int| 0 <= k < pre.len()
                    && block_spent(#[trigger] pre[k]).contains(h);
                assert(block_spent(chain[k]).contains(h));
            }
            if s.contains(h) {
                assert(block_spent(chain[chain.len() - 1]).contains(h));
            }
        }
        assert(chain_spent(chain) =~= sp.union(s));
        assert(chain.take(chain.len() as int) =~= chain);
        assert(chain[chain.len() - 1] == b);
        assert(c.disjoint(chain_spent(chain)));
        assert(chain_unspent(chain) == apply_block(cp.difference(sp), b));
        if b.transactions@.len() == 0 {
            assert(s =~= Set::<Seq<u8>>::empty());
            assert(c =~= Set::<Seq<u8>>::empty());
        }
        assert forall|h: Seq<u8>|
            chain_unspent(chain).contains(h)
                == chain_created(chain).difference(chain_spent(chain)).contains(h) by {
            if c.contains(h) {
                assert(!sp.union(s).contains(h));
            }
        }
        assert(chain_unspent(chain) =~= chain_created(chain).difference(chain_spent(chain)));
    }
}

/// Double-spend rejection: two transactions in one block that both spend a
/// common hash, each one fit to be accepted on its own — its inputs drawn
/// from the unspent set and its outputs no larger than its inputs — still
/// fail the block's transaction checks with `InvalidInput`, at the second.
pub proof fn lemma_double_spend(
    t1: Transaction,
    t2: Transaction,
    unspent: Set<Seq<u8>>,
    h: Seq<u8>,
)
    requires
        input_hash_set(t1).contains(h),
        input_hash_set(t2).contains(h),
        input_hash_set(t1).subset_of(unspent),
        input_hash_set(t2).subset_of(unspent),
        sum_values(t1.outputs@) <= sum_values(t1.inputs@),
        sum_values(t2.outputs@) <= sum_values(t2.inputs@),
    ensures
        txns_check(seq![t1, t2], unspent, Set::empty())
            == Err::<(), BlockValidationErr>(BlockValidationErr::InvalidInput),
{
    let s = seq![t1, t2];
    assert(s.first() == t1);
    assert(s.drop_first() =~= seq![t2]);
    assert(input_hash_set(t1).disjoint(Set::empty()));
    let spent1 = Set::empty().union(input_hash_set(t1));
    assert(spent1.contains(h));
    assert(!input_hash_set(t2).disjoint(spent1));
    assert(seq![t2].first() == t2);
    assert(txns_check(seq![t2], unspent, spent1)
        == Err::<(), BlockValidationErr>(BlockValidationErr::InvalidInput));
}

/// The set a list of output hashes holds is exactly the set of hashes of
/// the outputs it was derived from.
proof fn lemma_hash_vec_as_set(hs: Seq<Vec<u8>>, os: Seq<Output>)
    requires
        hs.len() == os.len(),
        forall|i: int| 0 <= i < hs.len() ==> hs[i]@ == output_hash(os[i]),
    ensures
        hash_list_set(hs) == hashes_of(os),
{
    assert forall|h: Seq<u8>| hash_list_set(hs).contains(h) == hashes_of(os).contains(h) by {
        if hash_list_set(hs).contains(h) {
            let j = choose|j: int| 0 <= j < hs.len() && hs[j]@ == h;
            assert(h == output_hash(os[j]));
        }
        if hashes_of(os).contains(h) {
            let j = choose|j: int| 0 <= j < os.len() && h == output_hash(os[j]);
            assert(hs[j]@ == h);
        }
    }
    assert(hash_list_set(hs) =~= hashes_of(os));
}

/// Extending the checked prefix by one transaction extends its spent and
/// created sets by that transaction's input and output hashes.
proof fn lemma_take_step(txns: Seq<Transaction>, p: int)
    requires
        0 < p <= txns.len(),
    ensures
        spent_of(txns.take(p)) == spent_of(txns.take(p - 1)).union(input_hash_set(txns[p - 1])),
        created_of(txns.take(p)) == created_of(txns.take(p - 1)).union(output_hash_set(txns[p - 1])),
{
    assert forall|h: Seq<u8>|
        spent_of(txns.take(p)).contains(h)
            == spent_of(txns.take(p - 1)).union(input_hash_set(txns[p - 1])).contains(h) by {
        if spent_of(txns.take(p)).contains(h) {
            let j = choose|j: int| 0 <= j < p && input_hash_set(#[trigger] txns.take(p)[j]).contains(h);
            if j < p - 1 {
                assert(input_hash_set(txns.take(p - 1)[j]).contains(h));
            } else {
                assert(txns.take(p)[j] == txns[p - 1]);
            }
        }
        if spent_of(txns.take(p - 1)).contains(h) {
            let j = choose|j: int| 0 <= j < p - 1 && input_hash_set(#[trigger] txns.take(p - 1)[j]).contains(h);
            assert(input_hash_set(txns.take(p)[j]).contains(h));
        }
        if input_hash_set(txns[p - 1]).contains(h) {
            assert(input_hash_set(txns.take(p)[p - 1]).contains(h));
        }
    }
    assert(spent_of(txns.take(p)) =~= spent_of(txns.take(p - 1)).union(input_hash_set(txns[p - 1])));
    assert forall|h: Seq<u8>|
        created_of(txns.take(p)).contains(h)
            == created_of(txns.take(p - 1)).union(output_hash_set(txns[p - 1])).contains(h) by {
        if created_of(txns.take(p)).contains(h) {
            let j = choose|j: int| 0 <= j < p && output_hash_set(#[trigger] txns.take(p)[j]).contains(h);
            if j < p - 1 {
                assert(output_hash_set(txns.take(p - 1)[j]).contains(h));
            } else {
                assert(txns.take(p)[j] == txns[p - 1]);
            }
        }
        if created_of(txns.take(p - 1)).contains(h) {
            let j = choose|j: int| 0 <= j < p - 1 && output_hash_set(#[trigger] txns.take(p - 1)[j]).contains(h);
            assert(output_hash_set(txns.take(p)[j]).contains(h));
        }
        if output_hash_set(txns[p - 1]).contains(h) {
            assert(output_hash_set(txns.take(p)[p - 1]).contains(h));
        }
    }
    assert(created_of(txns.take(p)) =~= created_of(txns.take(p - 1)).union(
        output_hash_set(txns[p - 1]),
    ));
}

} // verus!
