use ledger_core::{Block, BlockValidationErr, Blockchain, Hashable, Output, Transaction};
use ledger_core::block::check_difficulty;

/// A difficulty every digest meets: the trailing-16-byte value of a digest
/// can never exceed it.
const EASY: u128 = u128::MAX;

/// The difficulty the demonstration driver uses; roughly one nonce in 273
/// meets it, so mining stays fast.
const DEMO: u128 = 0xefffffffffffffffffffffffffffff;

fn out(addr: &str, value: u64) -> Output {
    Output { to_addr: addr.to_owned(), value }
}

fn coinbase(outputs: Vec<Output>) -> Transaction {
    Transaction { inputs: vec![], outputs }
}

fn genesis(transactions: Vec<Transaction>, difficulty: u128) -> Block {
    Block::new(0, 0, vec![0; 32], transactions, difficulty)
}

#[test]
fn empty_block_accepted() {
    let mut chain = Blockchain::new();
    let mut block = genesis(vec![], EASY);
    block.mine();
    assert!(chain.update_with_block(block).is_ok());
    assert_eq!(chain.blocks.len(), 1);
    assert!(chain.unspent_hashes().is_empty());
}

#[test]
fn genesis_with_coinbase_fills_unspent() {
    let mut chain = Blockchain::new();
    let cb = coinbase(vec![out("Alice", 50), out("Bob", 7)]);
    let expected: Vec<Vec<u8>> = cb.output_hashes();
    let mut block = genesis(vec![cb], EASY);
    block.mine();
    assert!(chain.update_with_block(block).is_ok());
    let unspent = chain.unspent_hashes();
    assert_eq!(unspent.len(), 2);
    assert!(unspent.contains(&expected[0]));
    assert!(unspent.contains(&expected[1]));
    assert_ne!(expected[0], expected[1]);
}

#[test]
fn index_mismatch_rejected() {
    let mut chain = Blockchain::new();
    let mut block = Block::new(1, 0, vec![0; 32], vec![], EASY);
    block.mine();
    assert!(matches!(
        chain.update_with_block(block),
        Err(BlockValidationErr::MismatchedIndex)
    ));
    // A repeated index is rejected the same way.
    let mut first = genesis(vec![], EASY);
    first.mine();
    let prev = first.hash.clone();
    assert!(chain.update_with_block(first).is_ok());
    let mut repeat = Block::new(0, 1, prev, vec![], EASY);
    repeat.mine();
    assert!(matches!(
        chain.update_with_block(repeat),
        Err(BlockValidationErr::MismatchedIndex)
    ));
}

#[test]
fn failed_proof_of_work_rejected() {
    let mut chain = Blockchain::new();
    // Difficulty zero: only an all-zero trailing half would pass.
    let block = genesis(vec![], 0);
    assert!(matches!(
        chain.update_with_block(block),
        Err(BlockValidationErr::InvalidHash)
    ));
}

#[test]
fn genesis_with_nonzero_prev_hash_rejected() {
    let mut chain = Blockchain::new();
    // Proof of work passes under the easy difficulty; the shape check alone fails.
    let mut block = Block::new(0, 0, vec![1; 32], vec![], EASY);
    block.mine();
    assert!(matches!(
        chain.update_with_block(block),
        Err(BlockValidationErr::InvalidGenesisBlockFormat)
    ));
}

#[test]
fn stale_timestamp_rejected() {
    let mut chain = Blockchain::new();
    let mut first = Block::new(0, 5, vec![0; 32], vec![], EASY);
    first.mine();
    let prev = first.hash.clone();
    assert!(chain.update_with_block(first).is_ok());
    // Equal timestamp, valid linkage and proof of work: still rejected.
    let mut second = Block::new(1, 5, prev, vec![], EASY);
    second.mine();
    assert!(matches!(
        chain.update_with_block(second),
        Err(BlockValidationErr::AchronTimeStamp)
    ));
}

#[test]
fn broken_linkage_rejected() {
    let mut chain = Blockchain::new();
    let mut first = Block::new(0, 5, vec![0; 32], vec![], EASY);
    first.mine();
    assert!(chain.update_with_block(first).is_ok());
    let mut second = Block::new(1, 6, vec![9; 32], vec![], EASY);
    second.mine();
    assert!(matches!(
        chain.update_with_block(second),
        Err(BlockValidationErr::MismatchedPrevHash)
    ));
}

#[test]
fn first_transaction_must_be_coinbase() {
    let mut chain = Blockchain::new();
    let spender = Transaction {
        inputs: vec![out("Alice", 50)],
        outputs: vec![out("Bob", 50)],
    };
    let mut block = genesis(vec![spender], EASY);
    block.mine();
    assert!(matches!(
        chain.update_with_block(block),
        Err(BlockValidationErr::InvalidCoinbaseTxn)
    ));
}

#[test]
fn unknown_input_rejected() {
    let mut chain = Blockchain::new();
    let mut first = genesis(vec![coinbase(vec![out("Alice", 50)])], EASY);
    first.mine();
    let prev = first.hash.clone();
    assert!(chain.update_with_block(first).is_ok());
    // Spends an output nobody created.
    let spender = Transaction {
        inputs: vec![out("Mallory", 50)],
        outputs: vec![out("Bob", 50)],
    };
    let mut second = Block::new(1, 1, prev, vec![coinbase(vec![]), spender], EASY);
    second.mine();
    assert!(matches!(
        chain.update_with_block(second),
        Err(BlockValidationErr::InvalidInput)
    ));
}

#[test]
fn double_spend_within_block_rejected() {
    let mut chain = Blockchain::new();
    let mut first = genesis(vec![coinbase(vec![out("Alice", 50)])], EASY);
    first.mine();
    let prev = first.hash.clone();
    assert!(chain.update_with_block(first).is_ok());
    // Each transaction alone spends Alice's output and balances; together
    // the second one double-spends.
    let t1 = Transaction {
        inputs: vec![out("Alice", 50)],
        outputs: vec![out("Carol", 50)],
    };
    let t2 = Transaction {
        inputs: vec![out("Alice", 50)],
        outputs: vec![out("Dave", 50)],
    };
    let mut second = Block::new(1, 1, prev, vec![coinbase(vec![]), t1, t2], EASY);
    second.mine();
    assert!(matches!(
        chain.update_with_block(second),
        Err(BlockValidationErr::InvalidInput)
    ));
}

#[test]
fn overspending_transaction_rejected() {
    let mut chain = Blockchain::new();
    let mut first = genesis(vec![coinbase(vec![out("Alice", 50)])], EASY);
    first.mine();
    let prev = first.hash.clone();
    assert!(chain.update_with_block(first).is_ok());
    let spender = Transaction {
        inputs: vec![out("Alice", 50)],
        outputs: vec![out("Bob", 51)],
    };
    let mut second = Block::new(1, 1, prev, vec![coinbase(vec![]), spender], EASY);
    second.mine();
    assert!(matches!(
        chain.update_with_block(second),
        Err(BlockValidationErr::InsufficientInputValue)
    ));
}

#[test]
fn coinbase_covering_exact_fee_accepted() {
    let mut chain = Blockchain::new();
    let mut first = genesis(vec![coinbase(vec![out("Alice", 50)])], EASY);
    first.mine();
    let prev = first.hash.clone();
    assert!(chain.update_with_block(first).is_ok());
    // Fee is 50 - 45 = 5; the coinbase mints exactly 5.
    let spender = Transaction {
        inputs: vec![out("Alice", 50)],
        outputs: vec![out("Bob", 45)],
    };
    let mut second = Block::new(1, 1, prev, vec![coinbase(vec![out("Miner", 5)]), spender], EASY);
    second.mine();
    assert!(chain.update_with_block(second).is_ok());
}

#[test]
fn coinbase_short_of_fee_rejected() {
    let mut chain = Blockchain::new();
    let mut first = genesis(vec![coinbase(vec![out("Alice", 50)])], EASY);
    first.mine();
    let prev = first.hash.clone();
    assert!(chain.update_with_block(first).is_ok());
    // Fee is 5 but the coinbase mints only 4.
    let spender = Transaction {
        inputs: vec![out("Alice", 50)],
        outputs: vec![out("Bob", 45)],
    };
    let mut second = Block::new(1, 1, prev, vec![coinbase(vec![out("Miner", 4)]), spender], EASY);
    second.mine();
    assert!(matches!(
        chain.update_with_block(second),
        Err(BlockValidationErr::InvalidCoinbaseTxn)
    ));
}

#[test]
fn conservation_across_blocks() {
    let mut chain = Blockchain::new();
    let cb1 = coinbase(vec![out("Alice", 50), out("Bob", 7)]);
    let created1 = cb1.output_hashes();
    let mut first = genesis(vec![cb1], EASY);
    first.mine();
    let prev = first.hash.clone();
    assert!(chain.update_with_block(first).is_ok());
    let cb2 = coinbase(vec![out("Miner", 5)]);
    let spender = Transaction {
        inputs: vec![out("Alice", 50)],
        outputs: vec![out("Carol", 30), out("Dave", 15)],
    };
    let created2 = cb2.output_hashes();
    let created3 = spender.output_hashes();
    let spent = spender.input_hashes();
    let mut second = Block::new(1, 1, prev, vec![cb2, spender], EASY);
    second.mine();
    assert!(chain.update_with_block(second).is_ok());
    // Everything ever created, minus everything ever spent.
    let mut expected: Vec<Vec<u8>> = vec![];
    for h in created1.iter().chain(created2.iter()).chain(created3.iter()) {
        if !spent.contains(h) {
            expected.push(h.clone());
        }
    }
    let unspent = chain.unspent_hashes();
    assert_eq!(unspent.len(), expected.len());
    for h in &expected {
        assert!(unspent.contains(h));
    }
    assert!(!unspent.contains(&spent[0]));
}

#[test]
fn demo_scenario_end_to_end() {
    let mut chain = Blockchain::new();
    let cb = coinbase(vec![out("Alice", 50), out("Bob", 7)]);
    let expected = cb.output_hashes();
    let mut first = genesis(vec![cb], DEMO);
    first.mine();
    let prev = first.hash.clone();
    assert!(chain.update_with_block(first).is_ok());
    let unspent = chain.unspent_hashes().clone();
    assert_eq!(unspent.len(), 2);
    assert!(unspent.contains(&expected[0]));
    assert!(unspent.contains(&expected[1]));
    // The second block tries to spend Alice's 50 into 372: rejected.
    let spender = Transaction {
        inputs: vec![out("Alice", 50)],
        outputs: vec![out("Alice", 360), out("Bob", 12)],
    };
    let mut second = Block::new(1, 1, prev, vec![coinbase(vec![out("Chris", 536)]), spender], DEMO);
    second.mine();
    assert!(matches!(
        chain.update_with_block(second),
        Err(BlockValidationErr::InsufficientInputValue)
    ));
    // The rejection left the ledger untouched.
    assert_eq!(chain.blocks.len(), 1);
    assert_eq!(chain.unspent_hashes(), &unspent);
}

#[test]
fn output_serialization_is_exact() {
    let o = out("Alice", 50);
    let mut expected: Vec<u8> = b"Alice".to_vec();
    expected.extend_from_slice(&[50, 0, 0, 0, 0, 0, 0, 0]);
    assert_eq!(o.bytes(), expected);
}

#[test]
fn digests_are_32_bytes() {
    let o = out("Alice", 50);
    // The serialization is 13 bytes; the digest is not the input handed back.
    assert_eq!(o.bytes().len(), 13);
    assert_eq!(o.hash().len(), 32);
    let t = coinbase(vec![out("Alice", 50)]);
    assert_eq!(t.output_hashes()[0].len(), 32);
    let b = genesis(vec![t], EASY);
    assert_eq!(b.hash().len(), 32);
    // Different fields give different digests.
    assert_ne!(out("Alice", 50).hash(), out("Alice", 51).hash());
    assert_ne!(out("Alice", 50).hash(), out("Alicf", 50).hash());
}

#[test]
fn difficulty_value_reads_trailing_bytes() {
    let mut h = vec![0u8; 32];
    h[16] = 1;
    // The value of the trailing half is exactly 1.
    assert!(check_difficulty(&h, 1));
    assert!(!check_difficulty(&h, 0));
    // The leading half of the digest does not matter.
    let mut g = vec![0xffu8; 16];
    g.extend_from_slice(&[0u8; 16]);
    assert!(check_difficulty(&g, 0));
    // The last byte is the most significant one.
    let mut m = vec![0u8; 32];
    m[31] = 1;
    let v = 1u128 << 120;
    assert!(check_difficulty(&m, v));
    assert!(!check_difficulty(&m, v - 1));
}

#[test]
fn mining_caches_the_digest() {
    let mut block = genesis(vec![coinbase(vec![out("Alice", 50)])], DEMO);
    assert_eq!(block.hash, vec![0; 32]);
    block.mine();
    assert_eq!(block.hash, block.hash());
    assert!(check_difficulty(&block.hash, DEMO));
}

#[test]
fn transaction_values_and_coinbase() {
    let t = Transaction {
        inputs: vec![out("Alice", 50), out("Alice", 50)],
        outputs: vec![out("Bob", 7)],
    };
    assert_eq!(t.input_value(), 100);
    assert_eq!(t.output_value(), 7);
    assert!(!t.is_coinbase());
    assert!(coinbase(vec![out("Bob", 7)]).is_coinbase());
}
