use powchain::block::{Block, BlockHash};
use powchain::network::{Network, NetworkMessageData};
use powchain::node::{Node, HASH_DIFFICULTY};
use powchain::transaction::Transaction;
use powchain::wallet::PubKey;

fn genesis() -> Block {
    Block::new(0, BlockHash::default(), 0, vec![])
}

/// A node at `difficulty` that knows the genesis block, connected to `network`.
fn node_on(network: &mut Network, difficulty: u32) -> Node {
    let connection = network.connect();
    Node::with_difficulty(genesis(), connection, difficulty)
}

fn lone_node(difficulty: u32) -> Node {
    let mut network = Network::new();
    node_on(&mut network, difficulty)
}

#[test]
fn new_node_knows_its_start_block_only() {
    let mut network = Network::new();
    let connection = network.connect();
    let id = connection.id;
    let node = Node::new(genesis(), connection);
    assert_eq!(node.block_count(), 1);
    assert_eq!(node.last_block_hash(), *genesis().hash());
    assert_eq!(node.id(), id);
    assert!(node.block(genesis().hash()).is_some());
    assert!(node.block(&BlockHash([1u8; 32])).is_none());
    assert_eq!(HASH_DIFFICULTY, 20);
    // Nonce 45 gives six trailing zero bits, which is not enough at the default difficulty.
    assert!(node.attempt_block(45).is_none());
}

#[test]
fn mined_child_is_accepted_and_becomes_head() {
    let mut node = lone_node(0);
    let child = node.attempt_block(7).expect("every digest meets difficulty 0");
    assert_eq!(child.height(), 1);
    assert_eq!(*child.prev_hash(), *genesis().hash());
    assert_eq!(child.guess(), 7);
    assert_eq!(
        child.hash().hex_encode(),
        "872a47c0920ebe26cc2eeb3332bd21149d69c3caa411aea3c0e773a9c2ca44ef"
    );
    assert!(child.transactions().is_empty());
    let child_hash = *child.hash();
    assert!(node.is_block_valid(&child));
    node.add_block(child);
    assert_eq!(node.last_block_hash(), child_hash);
    assert_eq!(node.block_count(), 2);
    assert_eq!(node.block(&child_hash).unwrap().height(), 1);
}

#[test]
fn block_with_unknown_parent_is_rejected() {
    let mut node = lone_node(0);
    let child = node.attempt_block(7).unwrap();
    let child_hash = *child.hash();
    node.add_block(child);

    let stranger = Block::new(5, BlockHash([0xabu8; 32]), 1, vec![]);
    let stranger_hash = *stranger.hash();
    assert!(!node.is_block_valid(&stranger));
    node.add_block(stranger);
    assert_eq!(node.block_count(), 2);
    assert_eq!(node.last_block_hash(), child_hash);
    assert!(node.block(&stranger_hash).is_none());
}

#[test]
fn block_with_wrong_height_is_rejected() {
    let mut node = lone_node(0);
    for height in [0u64, 2, 3, u64::MAX] {
        let block = Block::new(height, *genesis().hash(), 1, vec![]);
        assert!(!node.is_block_valid(&block), "height {height}");
        node.add_block(block);
    }
    assert_eq!(node.block_count(), 1);
    assert_eq!(node.last_block_hash(), *genesis().hash());
    assert!(node.is_block_valid(&Block::new(1, *genesis().hash(), 1, vec![])));
}

#[test]
fn block_without_proof_of_work_is_rejected() {
    let mut node = lone_node(4);
    // Nonce 0 on the genesis block gives no trailing zero bit, nonce 8 gives four.
    let weak = Block::new(1, *genesis().hash(), 0, vec![]);
    assert!(!node.is_block_valid(&weak));
    node.add_block(weak);
    assert_eq!(node.block_count(), 1);
    assert!(node.attempt_block(0).is_none());

    let strong = node.attempt_block(8).expect("four trailing zero bits");
    let strong_hash = *strong.hash();
    node.add_block(strong);
    assert_eq!(node.block_count(), 2);
    assert_eq!(node.last_block_hash(), strong_hash);
}

#[test]
fn block_with_two_reward_transactions_is_rejected() {
    let mut node = lone_node(0);
    let receiver = PubKey([2u8; 65]);
    let greedy = Block::new(
        1,
        *genesis().hash(),
        3,
        vec![Transaction::block_reward(receiver), Transaction::block_reward(receiver)],
    );
    assert!(greedy.hash().is_valid(0));
    assert!(!node.is_block_valid(&greedy));
    node.add_block(greedy);
    assert_eq!(node.block_count(), 1);
    assert_eq!(node.last_block_hash(), *genesis().hash());

    let modest = Block::new(1, *genesis().hash(), 3, vec![Transaction::block_reward(receiver)]);
    assert!(node.is_block_valid(&modest));
    node.add_block(modest);
    assert_eq!(node.block_count(), 2);
}

#[test]
fn adding_a_block_twice_changes_nothing() {
    let mut node = lone_node(0);
    let child = Block::new(1, *genesis().hash(), 11, vec![]);
    node.add_block(child.clone());
    let head = node.last_block_hash();
    let count = node.block_count();
    node.add_block(child.clone());
    assert_eq!(node.last_block_hash(), head);
    assert_eq!(node.block_count(), count);
    assert_eq!(count, 2);

    // The same holds of a block that is not the head.
    let grandchild = Block::new(2, *child.hash(), 5, vec![]);
    node.add_block(grandchild.clone());
    node.add_block(child);
    assert_eq!(node.last_block_hash(), *grandchild.hash());
    assert_eq!(node.block_count(), 3);
}

#[test]
fn first_of_two_siblings_stays_head() {
    let left = Block::new(1, *genesis().hash(), 1, vec![]);
    let right = Block::new(1, *genesis().hash(), 2, vec![]);
    assert_ne!(*left.hash(), *right.hash());

    let mut node = lone_node(0);
    node.add_block(left.clone());
    assert_eq!(node.last_block_hash(), *left.hash());
    node.add_block(right.clone());
    assert_eq!(node.last_block_hash(), *left.hash());
    assert_eq!(node.block_count(), 3);

    let mut node = lone_node(0);
    node.add_block(right.clone());
    node.add_block(left.clone());
    assert_eq!(node.last_block_hash(), *right.hash());
    assert_eq!(node.block_count(), 3);
    assert!(node.block(left.hash()).is_some());
    assert!(node.block(right.hash()).is_some());
}

#[test]
fn longer_branch_takes_the_head() {
    let mut node = lone_node(0);
    let left = Block::new(1, *genesis().hash(), 1, vec![]);
    let right = Block::new(1, *genesis().hash(), 2, vec![]);
    let right_child = Block::new(2, *right.hash(), 3, vec![]);
    node.add_block(left.clone());
    node.add_block(right.clone());
    assert_eq!(node.last_block_hash(), *left.hash());
    node.add_block(right_child.clone());
    assert_eq!(node.last_block_hash(), *right_child.hash());
    // A block that only draws level does not move the head back.
    let left_child = Block::new(2, *left.hash(), 4, vec![]);
    node.add_block(left_child);
    assert_eq!(node.last_block_hash(), *right_child.hash());
    assert_eq!(node.block_count(), 5);
}

#[test]
fn parents_lead_from_the_head_to_genesis() {
    let mut network = Network::new();
    let mut node = node_on(&mut network, 0);
    for guess in 0..6u128 {
        node.mine_with(&mut network, guess);
    }
    // A side branch that does not become the head.
    node.add_block(Block::new(1, *genesis().hash(), 77, vec![]));
    assert_eq!(node.block_count(), 8);

    let mut at = node.last_block_hash();
    let mut expected_height = 6u64;
    loop {
        let block = node.block(&at).expect("every parent is known");
        assert_eq!(block.height(), expected_height);
        assert_eq!(*block.hash(), at);
        if block.height() == 0 {
            assert_eq!(*block.prev_hash(), BlockHash([0u8; 32]));
            break;
        }
        at = *block.prev_hash();
        expected_height -= 1;
    }
    assert_eq!(expected_height, 0);
}

#[test]
fn mining_publishes_what_it_finds() {
    let mut network = Network::new();
    let mut miner = node_on(&mut network, 4);
    let mut listener = node_on(&mut network, 4);

    // Nonce 0 finds nothing: nothing changes and nothing is sent.
    miner.mine_with(&mut network, 0);
    assert_eq!(miner.block_count(), 1);
    network.work();
    assert!(network.receive(listener.id()).is_err());

    // Nonce 8 finds a block, which the miner keeps and publishes.
    miner.mine_with(&mut network, 8);
    assert_eq!(miner.block_count(), 2);
    assert_eq!(
        miner.last_block_hash().hex_encode(),
        "60543116762ae16b503c78381a86d5bcb36beab18abbe6a86e45107ccedd5ad0"
    );
    network.work();
    listener.drain(&mut network);
    assert_eq!(listener.block_count(), 2);
    assert_eq!(listener.last_block_hash(), miner.last_block_hash());
    // The miner gets nothing back.
    assert!(network.receive(miner.id()).is_err());
}

#[test]
fn draining_takes_messages_in_order() {
    let mut network = Network::new();
    let mut node = node_on(&mut network, 0);
    let peer = network.connect();

    let first = Block::new(1, *genesis().hash(), 1, vec![]);
    let second = Block::new(2, *first.hash(), 2, vec![]);
    let orphan = Block::new(9, BlockHash([9u8; 32]), 3, vec![]);
    // One message leaves an endpoint per tick.
    for block in [first.clone(), orphan, second.clone()] {
        network.send(peer.id, NetworkMessageData::PublishBlock(block)).unwrap();
    }
    network.work();
    network.work();
    network.work();
    node.drain(&mut network);
    assert_eq!(node.block_count(), 3);
    assert_eq!(node.last_block_hash(), *second.hash());
    assert!(network.receive(node.id()).is_err());

    // In the other order the child comes before its parent and is dropped.
    let mut late = node_on(&mut network, 0);
    network.send(peer.id, NetworkMessageData::PublishBlock(second)).unwrap();
    network.send(peer.id, NetworkMessageData::PublishBlock(first.clone())).unwrap();
    network.work();
    network.work();
    late.drain(&mut network);
    assert_eq!(late.block_count(), 2);
    assert_eq!(late.last_block_hash(), *first.hash());
}

#[test]
fn a_round_of_work_mines_then_listens() {
    let mut network = Network::new();
    let mut a = node_on(&mut network, 0);
    let mut b = node_on(&mut network, 0);

    a.work_with(&mut network, 1);
    assert_eq!(a.block_count(), 2);
    network.work();
    // b mines its own child of genesis first, then hears of a's: a tie, b keeps its own.
    b.work_with(&mut network, 2);
    assert_eq!(b.block_count(), 3);
    assert_eq!(b.last_block_hash(), *Block::new(1, *genesis().hash(), 2, vec![]).hash());
    network.work();
    // a builds on its own head, then hears of b's first block.
    a.work_with(&mut network, 3);
    assert_eq!(a.block_count(), 4);
    let a_head = a.last_block_hash();
    assert_eq!(a.block(&a_head).unwrap().height(), 2);
    assert_eq!(*a.block(&a_head).unwrap().prev_hash(), *Block::new(1, *genesis().hash(), 1, vec![]).hash());
}

#[test]
fn work_with_a_random_nonce_grows_the_chain_at_difficulty_zero() {
    let mut network = Network::new();
    let mut node = node_on(&mut network, 0);
    for round in 1..=5usize {
        node.work(&mut network);
        assert_eq!(node.block_count(), round + 1);
        let head = node.last_block_hash();
        assert_eq!(node.block(&head).unwrap().height(), round as u64);
        // Keep the outbound queue from filling up.
        network.work();
    }
    node.mine(&mut network);
    assert_eq!(node.block_count(), 7);
}

#[test]
fn a_node_without_an_endpoint_still_mines() {
    let mut network = Network::new();
    let connection = network.connect();
    let id = connection.id;
    let mut node = Node::with_difficulty(genesis(), connection, 0);
    network.close(id);
    network.work();
    assert!(!network.is_registered(id));
    node.work_with(&mut network, 5);
    assert_eq!(node.block_count(), 2);
    assert_eq!(network.endpoint_count(), 0);
}
