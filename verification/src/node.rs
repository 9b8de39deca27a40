//! A node: the blocks it has accepted, and the loop in which it mines and
//! listens.

use crate::block::{Block, BlockHash, BlockView};
use crate::chain::ChainView;
use crate::network::{
    after_send,
    can_send,
    endpoint,
    index_of,
    network_wf,
    registered,
    ConnectionId,
    Network,
    NetworkConnection,
    NetworkEndpointView,
    NetworkMessageData,
    NetworkMessageDataView,
    NetworkMessageView,
};
use crate::transaction::{Transaction, TransactionAction};
use vstd::prelude::*;

verus! {

/// The registry after the node behind `id` has published what one mining
/// attempt found: a block that was found is queued, unless the endpoint
/// cannot send, in which case it is dropped.
pub open spec fn after_publishing(
    net: Seq<NetworkEndpointView>,
    id: ConnectionId,
    found: Option<BlockView>,
) -> Seq<NetworkEndpointView> {
    match found {
        Some(block) => if can_send(net, id) {
            after_send(net, id, NetworkMessageDataView::PublishBlock(block))
        } else {
            net
        },
        None => net,
    }
}

/// The messages that wait for `id`, the oldest first.
pub open spec fn inbox(net: Seq<NetworkEndpointView>, id: ConnectionId) -> Seq<NetworkMessageView> {
    if registered(net, id) {
        endpoint(net, id).inbound
    } else {
        Seq::empty()
    }
}

/// The registry after the node behind `id` has taken every message that
/// waited for it.
pub open spec fn after_draining(net: Seq<NetworkEndpointView>, id: ConnectionId) -> Seq<
    NetworkEndpointView,
> {
    if registered(net, id) {
        net.update(
            index_of(net, id),
            NetworkEndpointView { inbound: Seq::empty(), ..endpoint(net, id) },
        )
    } else {
        net
    }
}

/// The chain of a node after one round of its loop in which it drew the
/// nonce `guess`: first it mines, then it takes in what waits for it.
pub open spec fn chain_after_work(
    chain: ChainView,
    net: Seq<NetworkEndpointView>,
    id: ConnectionId,
    difficulty: u32,
    guess: u128,
) -> ChainView {
    chain.after_mining(difficulty, guess).absorb(
        inbox(after_publishing(net, id, chain.mined(difficulty, guess)), id),
        difficulty,
    )
}

/// The registry after one round of the loop of the node behind `id` in which
/// it drew the nonce `guess`.
pub open spec fn net_after_work(
    chain: ChainView,
    net: Seq<NetworkEndpointView>,
    id: ConnectionId,
    difficulty: u32,
    guess: u128,
) -> Seq<NetworkEndpointView> {
    after_draining(after_publishing(net, id, chain.mined(difficulty, guess)), id)
}

/// The difficulty at which a node mines and validates unless it is told
/// another.
pub const HASH_DIFFICULTY: u32 = 20;

/// A block with digest `hash` is among `blocks`.
pub open spec fn holds(blocks: Seq<BlockView>, hash: Seq<u8>) -> bool {
    exists|i: int| 0 <= i < blocks.len() && (#[trigger] blocks[i]).hash == hash
}

/// The place of a block with digest `hash` among `blocks`.
pub open spec fn slot(blocks: Seq<BlockView>, hash: Seq<u8>) -> int {
    choose|i: int| 0 <= i < blocks.len() && (#[trigger] blocks[i]).hash == hash
}

/// No two of `blocks` have the same digest.
pub open spec fn distinct_digests(blocks: Seq<BlockView>) -> bool {
    forall|i: int, j: int|
        0 <= i < j < blocks.len() ==> (#[trigger] blocks[i]).hash != (#[trigger] blocks[j]).hash
}

/// The blocks of a list, by digest.
pub open spec fn block_map(blocks: Seq<BlockView>) -> Map<Seq<u8>, BlockView> {
    Map::new(|hash: Seq<u8>| holds(blocks, hash), |hash: Seq<u8>| blocks[slot(blocks, hash)])
}

/// Among blocks with distinct digests, a digest names one place.
pub proof fn lemma_slot(blocks: Seq<BlockView>, i: int)
    requires
        distinct_digests(blocks),
        0 <= i < blocks.len(),
    ensures
        holds(blocks, blocks[i].hash),
        slot(blocks, blocks[i].hash) == i,
        block_map(blocks)[blocks[i].hash] == blocks[i],
{
    let chosen = slot(blocks, blocks[i].hash);
    assert(blocks[chosen].hash == blocks[i].hash);
}

/// Appending a block with a new digest stores it under that digest and
/// leaves the rest as it was.
pub proof fn lemma_block_map_push(blocks: Seq<BlockView>, block: BlockView)
    requires
        distinct_digests(blocks),
        !holds(blocks, block.hash),
    ensures
        distinct_digests(blocks.push(block)),
        block_map(blocks.push(block)) == block_map(blocks).insert(block.hash, block),
{
    let longer = blocks.push(block);
    assert forall|hash: Seq<u8>| holds(longer, hash) == (holds(blocks, hash) || hash
        == block.hash) by {
        if holds(blocks, hash) {
            let i = slot(blocks, hash);
            assert(longer[i].hash == hash);
        }
        if hash == block.hash {
            assert(longer[blocks.len() as int].hash == hash);
        }
        if holds(longer, hash) {
            let i = slot(longer, hash);
            if i < blocks.len() {
                assert(blocks[i].hash == hash);
            }
        }
    }
    assert forall|hash: Seq<u8>| holds(longer, hash) implies #[trigger] block_map(longer)[hash]
        == block_map(blocks).insert(block.hash, block)[hash] by {
        let i = slot(longer, hash);
        if i < blocks.len() {
            assert(blocks[i].hash == hash);
        }
    }
}

/// The digests of a list of blocks with distinct digests are as many as the
/// blocks.
pub proof fn lemma_block_map_len(blocks: Seq<BlockView>)
    requires
        distinct_digests(blocks),
    ensures
        block_map(blocks).dom().finite(),
        block_map(blocks).dom().len() == blocks.len(),
    decreases blocks.len(),
{
    if blocks.len() == 0 {
        assert(block_map(blocks).dom() =~= Set::<Seq<u8>>::empty());
    } else {
        let front = blocks.drop_last();
        let last = blocks.last();
        assert(!holds(front, last.hash)) by {
            if holds(front, last.hash) {
                let i = slot(front, last.hash);
                assert(blocks[i].hash != blocks[blocks.len() - 1].hash);
            }
        }
        lemma_block_map_len(front);
        lemma_block_map_push(front, last);
        assert(front.push(last) =~= blocks);
    }
}

/// A node of the network.
#[derive(Debug)]
pub struct Node {
    connection: NetworkConnection,
    blocks: Vec<Block>,
    last_block_hash: BlockHash,
    hash_difficulty: u32,
}

impl Node {
    /// The accepted blocks as plain values, in the order of their acceptance.
    pub closed spec fn accepted(self) -> Seq<BlockView> {
        self.blocks@.map_values(|block: Block| block@)
    }

    /// The node's view of the chain.
    pub closed spec fn chain(self) -> ChainView {
        ChainView { blocks: block_map(self.accepted()), head: self.last_block_hash@ }
    }

    /// The difficulty at which the node mines and validates.
    pub closed spec fn difficulty(self) -> u32 {
        self.hash_difficulty
    }

    /// The name of the node's endpoint.
    pub closed spec fn connection_id(self) -> ConnectionId {
        self.connection.id
    }

    /// What holds of every node: no two accepted blocks have the same
    /// digest, and the head is one of them.
    pub closed spec fn wf(self) -> bool {
        &&& distinct_digests(self.accepted())
        &&& holds(self.accepted(), self.last_block_hash@)
    }

    /// The chain of a node is well formed.
    pub proof fn lemma_chain_wf(self)
        requires
            self.wf(),
        ensures
            self.chain().wf(),
    {
        let blocks = self.accepted();
        assert forall|hash: Seq<u8>| self.chain().blocks.dom().contains(hash) implies (
        #[trigger] self.chain().blocks[hash]).hash == hash by {
            let i = slot(blocks, hash);
            assert(blocks[i].hash == hash);
        }
    }

    /// A node that knows `start_block` alone and works at the default
    /// difficulty.
    pub fn new(start_block: Block, connection: NetworkConnection) -> (node: Node)
        ensures
            node.wf(),
            node.chain() == ChainView::starting_at(start_block@),
            node.difficulty() == HASH_DIFFICULTY,
            node.connection_id() == connection.id,
    {
        Node::with_difficulty(start_block, connection, HASH_DIFFICULTY)
    }

    /// A node that knows `start_block` alone and works at `hash_difficulty`.
    pub fn with_difficulty(
        start_block: Block,
        connection: NetworkConnection,
        hash_difficulty: u32,
    ) -> (node: Node)
        ensures
            node.wf(),
            node.chain() == ChainView::starting_at(start_block@),
            node.difficulty() == hash_difficulty,
            node.connection_id() == connection.id,
    {
        let last_block_hash = *start_block.hash();
        let mut blocks: Vec<Block> = Vec::new();
        blocks.push(start_block);
        proof {
            let views = blocks@.map_values(|block: Block| block@);
            assert(views =~= Seq::<BlockView>::empty().push(start_block@));
            lemma_block_map_push(Seq::<BlockView>::empty(), start_block@);
            assert(block_map(Seq::<BlockView>::empty()) =~= Map::<Seq<u8>, BlockView>::empty());
            assert(views[0].hash == last_block_hash@);
        }
        Node { connection, blocks, last_block_hash, hash_difficulty }
    }

    /// Looks up the place of the block with digest `hash`.
    fn find_block(&self, hash: &BlockHash) -> (found: Option<usize>)
        requires
            self.wf(),
        ensures
            match found {
                Some(i) => i < self.blocks@.len() && self.blocks@[i as int]@.hash == hash@
                    && self.chain().blocks.dom().contains(hash@) && self.chain().blocks[hash@]
                    == self.blocks@[i as int]@,
                None => !self.chain().blocks.dom().contains(hash@),
            },
    {
        let mut i: usize = 0;
        while i < self.blocks.len()
            invariant
                i <= self.blocks@.len(),
                distinct_digests(self.accepted()),
                forall|k: int| 0 <= k < i ==> (#[trigger] self.accepted()[k]).hash != hash@,
            decreases self.blocks@.len() - i,
        {
            if *self.blocks[i].hash() == *hash {
                proof {
                    assert(self.accepted()[i as int] == self.blocks@[i as int]@);
                }
                return Some(i);
            }
            i = i + 1;
        }
        None
    }

    /// The name of the node's endpoint.
    pub fn id(&self) -> (id: ConnectionId)
        ensures
            id == self.connection_id(),
    {
        self.connection.id
    }

    /// The digest of the block that the node builds on.
    pub fn last_block_hash(&self) -> (hash: BlockHash)
        ensures
            hash@ == self.chain().head,
    {
        self.last_block_hash
    }

    /// The number of blocks that the node has accepted, the first included.
    pub fn block_count(&self) -> (count: usize)
        requires
            self.wf(),
        ensures
            self.chain().blocks.dom().finite(),
            count == self.chain().blocks.dom().len(),
    {
        proof {
            lemma_block_map_len(self.accepted());
        }
        self.blocks.len()
    }

    /// The accepted block with digest `hash`, if there is one.
    pub fn block(&self, hash: &BlockHash) -> (found: Option<&Block>)
        requires
            self.wf(),
        ensures
            match found {
                Some(block) => self.chain().blocks.dom().contains(hash@) && block@
                    == self.chain().blocks[hash@],
                None => !self.chain().blocks.dom().contains(hash@),
            },
    {
        match self.find_block(hash) {
            Some(i) => Some(&self.blocks[i]),
            None => None,
        }
    }

    /// Whether the node accepts `block`.
    pub fn is_block_valid(&self, block: &Block) -> (valid: bool)
        requires
            self.wf(),
        ensures
            valid == self.chain().validate(block@, self.difficulty()),
    {
        match self.find_block(block.prev_hash()) {
            Some(i) => {
                let prev_height = self.blocks[i].height();
                prev_height < u64::MAX && block.height() == prev_height + 1 && block.is_valid(
                    self.hash_difficulty,
                )
            },
            None => false,
        }
    }

    /// Offers `new_block` to the node, which stores it and may make it its
    /// head.
    pub fn add_block(&mut self, new_block: Block)
        requires
            old(self).wf(),
        ensures
            final(self).wf(),
            final(self).chain() == old(self).chain().add_block(new_block@, old(self).difficulty()),
            final(self).difficulty() == old(self).difficulty(),
            final(self).connection_id() == old(self).connection_id(),
    {
        let ghost block = new_block@;
        if !self.is_block_valid(&new_block) {
            return;
        }
        let new_block_hash = *new_block.hash();
        let new_block_height = new_block.height();
        let known = self.find_block(&new_block_hash);
        let head = self.find_block(&self.last_block_hash);
        let head_height = match head {
            Some(i) => self.blocks[i].height(),
            None => 0,
        };
        if known.is_none() {
            proof {
                lemma_block_map_push(self.accepted(), block);
                let i = slot(self.accepted(), self.last_block_hash@);
                assert(self.accepted().push(block)[i].hash == self.last_block_hash@);
                assert(self.blocks@.push(new_block).map_values(|block: Block| block@)
                    =~= self.accepted().push(block));
            }
            self.blocks.push(new_block);
        }
        if new_block_height > head_height {
            proof {
                if known is None {
                    assert(self.accepted()[self.accepted().len() - 1].hash == block.hash);
                }
            }
            self.last_block_hash = new_block_hash;
        }
    }

    /// One mining attempt with the nonce `guess`: the child of the head with
    /// that nonce, if the head leaves room for a child and the child's digest
    /// meets the node's difficulty.
    pub fn attempt_block(&self, guess: u128) -> (found: Option<Block>)
        requires
            self.wf(),
        ensures
            match found {
                Some(block) => self.chain().mined(self.difficulty(), guess) == Some(block@),
                None => self.chain().mined(self.difficulty(), guess) is None,
            },
    {
        let prev_block: &Block = match self.find_block(&self.last_block_hash) {
            Some(i) => &self.blocks[i],
            None => {
                return None;
            },
        };
        if prev_block.height() == u64::MAX {
            return None;
        }
        let transactions: Vec<Transaction> = Vec::new();
        let new_block = Block::new(prev_block.height() + 1, *prev_block.hash(), guess, transactions);
        proof {
            assert(new_block@.transactions =~= Seq::<Seq<TransactionAction>>::empty());
        }
        if new_block.hash().is_valid(self.hash_difficulty) {
            Some(new_block)
        } else {
            None
        }
    }

    /// One mining attempt with the nonce `guess`. A block that is found is
    /// offered to the node's own chain and then published.
    pub fn mine_with(&mut self, network: &mut Network, guess: u128)
        requires
            old(self).wf(),
        ensures
            final(self).wf(),
            final(self).difficulty() == old(self).difficulty(),
            final(self).connection_id() == old(self).connection_id(),
            final(self).chain() == old(self).chain().after_mining(old(self).difficulty(), guess),
            final(network)@ == after_publishing(
                old(network)@,
                old(self).connection_id(),
                old(self).chain().mined(old(self).difficulty(), guess),
            ),
            network_wf(final(network)@),
    {
        match self.attempt_block(guess) {
            Some(new_block) => {
                let published = new_block.clone();
                self.add_block(new_block);
                let _ = self.connection.send(network, NetworkMessageData::PublishBlock(published));
            },
            None => {
                proof {
                    use_type_invariant(&*network);
                }
            },
        }
    }

    /// Takes in every message that waits for the node, without waiting for
    /// more.
    pub fn drain(&mut self, network: &mut Network)
        requires
            old(self).wf(),
        ensures
            final(self).wf(),
            final(self).difficulty() == old(self).difficulty(),
            final(self).connection_id() == old(self).connection_id(),
            final(self).chain() == old(self).chain().absorb(
                inbox(old(network)@, old(self).connection_id()),
                old(self).difficulty(),
            ),
            final(network)@ == after_draining(old(network)@, old(self).connection_id()),
            network_wf(final(network)@),
    {
        let ghost id = self.connection.id;
        let ghost difficulty = self.hash_difficulty;
        let ghost chain0 = self.chain();
        let ghost net0 = network@;
        proof {
            use_type_invariant(&*network);
            if registered(net0, id) {
                assert(net0 =~= net0.update(
                    index_of(net0, id),
                    NetworkEndpointView { inbound: inbox(net0, id), ..endpoint(net0, id) },
                ));
            }
        }
        loop
            invariant
                self.wf(),
                self.difficulty() == difficulty,
                self.connection_id() == id,
                id == self.connection.id,
                network_wf(net0),
                network_wf(network@),
                registered(network@, id) == registered(net0, id),
                registered(net0, id) ==> index_of(network@, id) == index_of(net0, id)
                    && network@ == net0.update(
                    index_of(net0, id),
                    NetworkEndpointView { inbound: inbox(network@, id), ..endpoint(net0, id) },
                ),
                !registered(net0, id) ==> network@ == net0,
                self.chain().absorb(inbox(network@, id), difficulty) == chain0.absorb(
                    inbox(net0, id),
                    difficulty,
                ),
            ensures
                self.wf(),
                self.difficulty() == difficulty,
                self.connection_id() == id,
                self.chain() == chain0.absorb(inbox(net0, id), difficulty),
                network@ == after_draining(net0, id),
                network_wf(network@),
            decreases inbox(network@, id).len(),
        {
            match self.connection.receive(network) {
                Ok(message) => {
                    proof {
                        let i = index_of(net0, id);
                        assert(network@[i].id == id);
                        assert(network@ =~= net0.update(
                            i,
                            NetworkEndpointView { inbound: inbox(network@, id), ..endpoint(net0, id) },
                        ));
                    }
                    match message.data {
                        NetworkMessageData::PublishBlock(new_block) => {
                            self.add_block(new_block);
                        },
                    }
                },
                Err(_) => {
                    proof {
                        assert(inbox(network@, id) =~= Seq::<NetworkMessageView>::empty());
                    }
                    break ;
                },
            }
        }
    }

    /// One round of the node's loop with the nonce `guess`: it mines, then
    /// takes in what waits for it.
    pub fn work_with(&mut self, network: &mut Network, guess: u128)
        requires
            old(self).wf(),
        ensures
            final(self).wf(),
            final(self).difficulty() == old(self).difficulty(),
            final(self).connection_id() == old(self).connection_id(),
            final(self).chain() == chain_after_work(
                old(self).chain(),
                old(network)@,
                old(self).connection_id(),
                old(self).difficulty(),
                guess,
            ),
            final(network)@ == net_after_work(
                old(self).chain(),
                old(network)@,
                old(self).connection_id(),
                old(self).difficulty(),
                guess,
            ),
            network_wf(final(network)@),
    {
        self.mine_with(network, guess);
        self.drain(network);
    }

    /// One mining attempt with a nonce drawn at random.
    pub fn mine(&mut self, network: &mut Network)
        requires
            old(self).wf(),
        ensures
            final(self).wf(),
            final(self).difficulty() == old(self).difficulty(),
            final(self).connection_id() == old(self).connection_id(),
            exists|guess: u128|
                final(self).chain() == #[trigger] old(self).chain().after_mining(
                    old(self).difficulty(),
                    guess,
                ) && final(network)@ == after_publishing(
                    old(network)@,
                    old(self).connection_id(),
                    old(self).chain().mined(old(self).difficulty(), guess),
                ),
            network_wf(final(network)@),
    {
        let guess = random_guess();
        self.mine_with(network, guess);
    }

    /// One round of the node's loop: it mines with a nonce drawn at random,
    /// then takes in what waits for it.
    pub fn work(&mut self, network: &mut Network)
        requires
            old(self).wf(),
        ensures
            final(self).wf(),
            final(self).difficulty() == old(self).difficulty(),
            final(self).connection_id() == old(self).connection_id(),
            exists|guess: u128|
                final(self).chain() == #[trigger] chain_after_work(
                    old(self).chain(),
                    old(network)@,
                    old(self).connection_id(),
                    old(self).difficulty(),
                    guess,
                ) && final(network)@ == net_after_work(
                    old(self).chain(),
                    old(network)@,
                    old(self).connection_id(),
                    old(self).difficulty(),
                    guess,
                ),
            network_wf(final(network)@),
    {
        let guess = random_guess();
        self.work_with(network, guess);
    }
}

/// Draws a nonce with `rand::random`, which takes it from the thread's
/// generator. Nothing is promised of the value.
#[verifier::external_body]
fn random_guess() -> u128 {
    rand::random()
}

} // verus!
