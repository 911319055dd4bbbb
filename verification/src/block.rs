//! Blocks: the header-plus-payload container of the chain, its canonical
//! serialization and digest, the proof-of-work predicate, and the nonce
//! search ("mining") that satisfies it.

use vstd::prelude::*;
use crate::bytes::{u32_le, u64_le, u128_le, push_u32_le, push_u64_le, push_u128_le, push_bytes};
use crate::hashing::{Hashable, sha256, sha256_of};
use crate::transaction::{Transaction, txn_bytes};

verus! {

/// A block: header fields, a list of transactions as payload, and a cached
/// digest that mining fills in. The cached `hash` field never enters the
/// block's own serialization; the digest is always recomputed from the other
/// fields.
#[derive(Clone, Debug)]
pub struct Block {
    pub index: u32,
    pub timestamp: u128,
    pub hash: Vec<u8>,
    pub prev_block_hash: Vec<u8>,
    pub nonce: u64,
    pub transactions: Vec<Transaction>,
    pub difficulty: u128,
}

/// Serialization of a list of transactions, in order.
pub open spec fn txns_bytes(ts: Seq<Transaction>) -> Seq<u8>
    decreases ts.len(),
{
    if ts.len() == 0 {
        Seq::empty()
    } else {
        txns_bytes(ts.drop_last()) + txn_bytes(ts.last())
    }
}

/// Canonical serialization of a block: every field except the cached hash,
/// in a fixed order, integers in fixed-width little-endian form.
pub open spec fn block_bytes(b: Block) -> Seq<u8> {
    u32_le(b.index) + u128_le(b.timestamp) + b.prev_block_hash@ + u64_le(b.nonce)
        + txns_bytes(b.transactions@) + u128_le(b.difficulty)
}

/// The digest of a block, recomputed over its serialization.
pub open spec fn block_digest(b: Block) -> Seq<u8> {
    sha256_of(block_bytes(b))
}

/// The proof-of-work value of a 32-byte digest: its trailing 16 bytes read
/// as an unsigned integer, the last byte most significant.
pub open spec fn pow_value(h: Seq<u8>) -> int {
    (h[16] as int)
    + (h[17] as int) * 0x100
    + (h[18] as int) * 0x1_0000
    + (h[19] as int) * 0x100_0000
    + (h[20] as int) * 0x1_0000_0000
    + (h[21] as int) * 0x100_0000_0000
    + (h[22] as int) * 0x1_0000_0000_0000
    + (h[23] as int) * 0x100_0000_0000_0000
    + (h[24] as int) * 0x1_0000_0000_0000_0000
    + (h[25] as int) * 0x100_0000_0000_0000_0000
    + (h[26] as int) * 0x1_0000_0000_0000_0000_0000
    + (h[27] as int) * 0x100_0000_0000_0000_0000_0000
    + (h[28] as int) * 0x1_0000_0000_0000_0000_0000_0000
    + (h[29] as int) * 0x100_0000_0000_0000_0000_0000_0000
    + (h[30] as int) * 0x1_0000_0000_0000_0000_0000_0000_0000
    + (h[31] as int) * 0x100_0000_0000_0000_0000_0000_0000_0000
}

/// A digest meets a difficulty target iff its proof-of-work value does not
/// exceed the target.
pub open spec fn meets_difficulty(h: Seq<u8>, difficulty: u128) -> bool {
    pow_value(h) <= difficulty
}

/// Decides the proof-of-work predicate on a 32-byte digest: the digest's
/// numeric value must not exceed the difficulty target.
pub fn check_difficulty(hash: &Vec<u8>, difficulty: u128) -> (r: bool)
    requires
        hash@.len() == 32,
    ensures
        r == meets_difficulty(hash@, difficulty),
{
    let v: u128 = (hash[16] as u128)
        + (hash[17] as u128) * 0x100
        + (hash[18] as u128) * 0x1_0000
        + (hash[19] as u128) * 0x100_0000
        + (hash[20] as u128) * 0x1_0000_0000
        + (hash[21] as u128) * 0x100_0000_0000
        + (hash[22] as u128) * 0x1_0000_0000_0000
        + (hash[23] as u128) * 0x100_0000_0000_0000
        + (hash[24] as u128) * 0x1_0000_0000_0000_0000
        + (hash[25] as u128) * 0x100_0000_0000_0000_0000
        + (hash[26] as u128) * 0x1_0000_0000_0000_0000_0000
        + (hash[27] as u128) * 0x100_0000_0000_0000_0000_0000
        + (hash[28] as u128) * 0x1_0000_0000_0000_0000_0000_0000
        + (hash[29] as u128) * 0x100_0000_0000_0000_0000_0000_0000
        + (hash[30] as u128) * 0x1_0000_0000_0000_0000_0000_0000_0000
        + (hash[31] as u128) * 0x100_0000_0000_0000_0000_0000_0000_0000;
    v <= difficulty
}

/// The 32-byte all-zero digest, the required previous hash of a genesis
/// block and the placeholder a new block's hash field starts from.
pub open spec fn zero_hash() -> Seq<u8> {
    Seq::new(32, |i: int| 0u8)
}

/// Builds the 32-byte all-zero hash.
pub fn zero_hash_vec() -> (r: Vec<u8>)
    ensures
        r@ == zero_hash(),
{
    let mut out: Vec<u8> = Vec::new();
    let mut i: usize = 0;
    while i < 32
        invariant
            i <= 32,
            out@ =~= Seq::new(i as nat, |j: int| 0u8),
        decreases 32 - i,
    {
        out.push(0u8);
        i = i + 1;
    }
    assert(out@ =~= zero_hash());
    out
}

/// The digest a block would have if its nonce were `n` and its other
/// serialized fields kept their values.
pub open spec fn digest_with_nonce(b: Block, n: u64) -> Seq<u8> {
    block_digest(Block { nonce: n, ..b })
}

impl Hashable for Block {
    open spec fn bytes_spec(&self) -> Seq<u8> {
        block_bytes(*self)
    }

    fn bytes(&self) -> (r: Vec<u8>) {
        let mut out: Vec<u8> = Vec::new();
        push_u32_le(&mut out, self.index);
        push_u128_le(&mut out, self.timestamp);
        push_bytes(&mut out, &self.prev_block_hash);
        push_u64_le(&mut out, self.nonce);
        let ts = txns_bytes_vec(&self.transactions);
        push_bytes(&mut out, &ts);
        push_u128_le(&mut out, self.difficulty);
        out
    }

    fn hash(&self) -> (r: Vec<u8>) {
        sha256(&self.bytes())
    }
}

/// Serializes a list of transactions in order.
fn txns_bytes_vec(ts: &Vec<Transaction>) -> (r: Vec<u8>)
    ensures
        r@ == txns_bytes(ts@),
{
    let mut out: Vec<u8> = Vec::new();
    let mut i: usize = 0;
    while i < ts.len()
        invariant
            i <= ts@.len(),
            out@ == txns_bytes(ts@.take(i as int)),
        decreases ts@.len() - i,
    {
        let piece = ts[i].bytes();
        push_bytes(&mut out, &piece);
        i = i + 1;
        assert(ts@.take(i as int).drop_last() =~= ts@.take(i as int - 1));
        assert(ts@.take(i as int).last() == ts@[i as int - 1]);
    }
    assert(ts@.take(ts@.len() as int) =~= ts@);
    out
}

impl Block {
    /// Constructs a block with a zero nonce and a 32-byte zero placeholder
    /// in the cached hash field.
    pub fn new(
        index: u32,
        timestamp: u128,
        prev_block_hash: Vec<u8>,
        transactions: Vec<Transaction>,
        difficulty: u128,
    ) -> (r: Block)
        ensures
            r.index == index,
            r.timestamp == timestamp,
            r.prev_block_hash == prev_block_hash,
            r.nonce == 0,
            r.transactions == transactions,
            r.difficulty == difficulty,
            r.hash@ == zero_hash(),
    {
        let hash = zero_hash_vec();
        Block { index, timestamp, hash, prev_block_hash, nonce: 0, transactions, difficulty }
    }

    /// Searches nonces upward from the current one until the recomputed
    /// digest meets the block's difficulty target, then caches that digest in
    /// the hash field. If no nonce up to the largest representable one
    /// satisfies the target, the block is left at the exhausted nonce with
    /// its hash field untouched.
    pub fn mine(&mut self)
        ensures
            final(self).index == old(self).index,
            final(self).timestamp == old(self).timestamp,
            final(self).prev_block_hash == old(self).prev_block_hash,
            final(self).transactions == old(self).transactions,
            final(self).difficulty == old(self).difficulty,
            final(self).nonce >= old(self).nonce,
            forall|m: u64|
                old(self).nonce <= m < final(self).nonce
                    ==> !meets_difficulty(digest_with_nonce(*old(self), m), old(self).difficulty),
            meets_difficulty(digest_with_nonce(*old(self), final(self).nonce), old(self).difficulty)
                ==> final(self).hash@ == digest_with_nonce(*old(self), final(self).nonce)
                    && final(self).hash@.len() == 32,
            !meets_difficulty(digest_with_nonce(*old(self), final(self).nonce), old(self).difficulty)
                ==> final(self).nonce == u64::MAX && final(self).hash == old(self).hash,
    {
        loop
            invariant
                self.index == old(self).index,
                self.timestamp == old(self).timestamp,
                self.prev_block_hash == old(self).prev_block_hash,
                self.transactions == old(self).transactions,
                self.difficulty == old(self).difficulty,
                self.hash == old(self).hash,
                self.nonce >= old(self).nonce,
                forall|m: u64|
                    old(self).nonce <= m < self.nonce
                        ==> !meets_difficulty(digest_with_nonce(*old(self), m), old(self).difficulty),
            decreases u64::MAX - self.nonce,
        {
            let digest = self.hash();
            proof {
                assert(Block { nonce: self.nonce, ..*old(self) } == *self);
            }
            if check_difficulty(&digest, self.difficulty) {
                self.hash = digest;
                return;
            }
            if self.nonce == u64::MAX {
                return;
            }
            self.nonce = self.nonce + 1;
        }
    }
}

} // verus!
