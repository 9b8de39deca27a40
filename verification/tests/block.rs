use powchain::block::{Block, BlockHash};
use powchain::transaction::{Transaction, TransactionAction};
use powchain::wallet::PubKey;
use sha2::{Digest, Sha256};

/// A digest that ends in exactly `zeros` zero bits: ones everywhere else.
fn digest_with_trailing_zeros(zeros: u32) -> BlockHash {
    let mut bytes = [0xffu8; 32];
    let whole = (zeros / 8) as usize;
    for i in 0..whole {
        bytes[31 - i] = 0;
    }
    if whole < 32 {
        bytes[31 - whole] = 0xffu8 << (zeros % 8);
    }
    BlockHash(bytes)
}

#[test]
fn digest_meets_exactly_its_trailing_zeros() {
    for d in 0..=32u32 {
        let digest = digest_with_trailing_zeros(d);
        assert!(digest.is_valid(d), "difficulty {d}");
        assert!(!digest.is_valid(d + 1), "difficulty {}", d + 1);
        for easier in 0..d {
            assert!(digest.is_valid(easier));
        }
    }
}

#[test]
fn digest_difficulty_over_the_whole_width() {
    for d in 33..=255u32 {
        let digest = digest_with_trailing_zeros(d);
        assert!(digest.is_valid(d));
        assert!(!digest.is_valid(d + 1));
    }
    let zero = BlockHash([0u8; 32]);
    assert!(zero.is_valid(256));
    assert!(!zero.is_valid(257));
    assert!(!zero.is_valid(u32::MAX));
}

#[test]
fn a_set_bit_ends_the_count_of_zeros() {
    // The last byte has three trailing zeros; the zero byte before it does not count.
    let mut bytes = [0u8; 32];
    bytes[31] = 0b0000_1000;
    let digest = BlockHash(bytes);
    assert!(digest.is_valid(3));
    assert!(!digest.is_valid(4));
    // An odd last byte gives no zeros at all, whatever comes before.
    bytes[31] = 1;
    assert!(BlockHash(bytes).is_valid(0));
    assert!(!BlockHash(bytes).is_valid(1));
    // A zero last byte gives eight and lets the byte before it count.
    bytes[31] = 0;
    bytes[30] = 0b0100_0000;
    assert!(BlockHash(bytes).is_valid(14));
    assert!(!BlockHash(bytes).is_valid(15));
}

#[test]
fn default_digest_is_all_zero() {
    assert_eq!(BlockHash::default(), BlockHash([0u8; 32]));
    assert_ne!(BlockHash::default(), BlockHash([1u8; 32]));
    let mut almost = [0u8; 32];
    almost[31] = 1;
    assert_ne!(BlockHash::default(), BlockHash(almost));
}

#[test]
fn genesis_digest_is_the_sha256_of_its_fields() {
    let genesis = Block::new(0, BlockHash::default(), 0, vec![]);
    assert_eq!(
        genesis.hash().hex_encode(),
        "d4817aa5497628e7c77e6b606107042bbba3130888c5f47a375e6179be789fbb"
    );
    assert_eq!(genesis.height(), 0);
    assert_eq!(*genesis.prev_hash(), BlockHash::default());
    assert_eq!(genesis.guess(), 0);
}

#[test]
fn digest_covers_height_parent_and_nonce_big_endian() {
    let mut parent = [0u8; 32];
    for (i, byte) in parent.iter_mut().enumerate() {
        *byte = i as u8;
    }
    let block = Block::new(
        0x0102030405060708,
        BlockHash(parent),
        0x1112131415161718191a1b1c1d1e1f20,
        vec![],
    );
    assert_eq!(
        block.hash().hex_encode(),
        "b1923ed8285ba5792ce62e8b9bc52acb9cb790abec94f724ae5cbc127c28709c"
    );

    let mut hasher = Sha256::new();
    hasher.update(0x0102030405060708u64.to_be_bytes());
    hasher.update(parent);
    hasher.update(0x1112131415161718191a1b1c1d1e1f20u128.to_be_bytes());
    let expected: [u8; 32] = hasher.finalize().into();
    assert_eq!(*block.hash(), BlockHash(expected));
}

#[test]
fn digest_changes_with_each_hashed_field() {
    let base = Block::new(1, BlockHash([3u8; 32]), 7, vec![]);
    assert_ne!(*base.hash(), *Block::new(2, BlockHash([3u8; 32]), 7, vec![]).hash());
    assert_ne!(*base.hash(), *Block::new(1, BlockHash([4u8; 32]), 7, vec![]).hash());
    assert_ne!(*base.hash(), *Block::new(1, BlockHash([3u8; 32]), 8, vec![]).hash());
    assert_eq!(*base.hash(), *Block::new(1, BlockHash([3u8; 32]), 7, vec![]).hash());
    // Transactions are not hashed.
    let paid = Block::new(1, BlockHash([3u8; 32]), 7, vec![Transaction::block_reward(PubKey([9u8; 65]))]);
    assert_eq!(*base.hash(), *paid.hash());
    assert_eq!(paid.transactions().len(), 1);
}

#[test]
fn block_validity_counts_reward_actions() {
    let receiver = PubKey([4u8; 65]);
    let none = Block::new(1, BlockHash::default(), 0, vec![]);
    assert!(none.is_valid(0));

    let one = Block::new(1, BlockHash::default(), 0, vec![Transaction::block_reward(receiver)]);
    assert!(one.is_valid(0));

    let two = Block::new(
        1,
        BlockHash::default(),
        0,
        vec![Transaction::block_reward(receiver), Transaction::block_reward(receiver)],
    );
    assert!(!two.is_valid(0));

    let mut double = Transaction::block_reward(receiver);
    double.actions.push(double.actions[0]);
    let in_one_transaction = Block::new(1, BlockHash::default(), 0, vec![double]);
    assert!(!in_one_transaction.is_valid(0));

    let empty_transactions = Block::new(
        1,
        BlockHash::default(),
        0,
        vec![Transaction { actions: vec![] }, Transaction::block_reward(receiver), Transaction { actions: vec![] }],
    );
    assert!(empty_transactions.is_valid(0));
}

#[test]
fn block_validity_needs_the_proof_of_work() {
    // The digest of this block ends in ...bb: no trailing zero bit.
    let genesis = Block::new(0, BlockHash::default(), 0, vec![]);
    assert!(genesis.is_valid(0));
    assert!(!genesis.is_valid(1));
    // Nonce 45 on the genesis block gives six trailing zero bits.
    let child = Block::new(1, *genesis.hash(), 45, vec![]);
    assert!(child.is_valid(6));
    assert!(!child.is_valid(7));
}

#[test]
fn block_reward_transaction_holds_one_action() {
    let receiver = PubKey([7u8; 65]);
    let transaction = Transaction::block_reward(receiver);
    assert_eq!(transaction.actions.len(), 1);
    match transaction.actions[0] {
        TransactionAction::BlockReward(action) => assert_eq!(action.receiver.0, receiver.0),
    }
    assert!(transaction.is_valid());
    assert!(Transaction { actions: vec![] }.is_valid());
    let copy = transaction.clone();
    assert_eq!(copy.actions.len(), 1);
}

#[test]
fn cloned_block_keeps_every_field() {
    let block = Block::new(3, BlockHash([5u8; 32]), 99, vec![Transaction::block_reward(PubKey([1u8; 65]))]);
    let copy = block.clone();
    assert_eq!(copy.height(), 3);
    assert_eq!(copy.prev_hash(), block.prev_hash());
    assert_eq!(copy.guess(), 99);
    assert_eq!(*copy.hash(), *block.hash());
    assert_eq!(copy.transactions().len(), 1);
}
