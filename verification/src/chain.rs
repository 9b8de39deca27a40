//! A node's view of the chain and the rule by which it grows: which blocks
//! are accepted, where they are stored, and when the head moves.
//!
//! Everything here is mathematics. `Node` keeps such a view in memory, and
//! its operations are stated over the functions of this module.

use crate::block::{block_digest, meets_difficulty, total_reward_actions, BlockView};
use crate::network::{NetworkMessageDataView, NetworkMessageView};
use crate::transaction::reward_actions;
use vstd::prelude::*;

verus! {

/// The digest that stands for "no parent": 32 zero bytes.
pub open spec fn no_parent() -> Seq<u8> {
    Seq::new(32, |i: int| 0u8)
}

/// What a node knows of the chain: the blocks it has accepted, by digest, and
/// the digest of the block it builds on.
pub struct ChainView {
    pub blocks: Map<Seq<u8>, BlockView>,
    pub head: Seq<u8>,
}

impl ChainView {
    /// The head is a known block, and every block is stored under its own
    /// digest.
    pub open spec fn wf(self) -> bool {
        &&& self.blocks.dom().contains(self.head)
        &&& forall|hash: Seq<u8>|
            self.blocks.dom().contains(hash) ==> (#[trigger] self.blocks[hash]).hash == hash
    }

    /// The block that the node builds on.
    pub open spec fn head_block(self) -> BlockView {
        self.blocks[self.head]
    }

    /// The chain that holds `start` alone.
    pub open spec fn starting_at(start: BlockView) -> ChainView {
        ChainView { blocks: Map::empty().insert(start.hash, start), head: start.hash }
    }

    /// Whether `block` is accepted at `difficulty`: its parent is known, its
    /// height is the parent's plus one, and the block is valid on its own.
    pub open spec fn validate(self, block: BlockView, difficulty: u32) -> bool {
        &&& self.blocks.dom().contains(block.prev_hash)
        &&& block.height == self.blocks[block.prev_hash].height + 1
        &&& block.valid(difficulty)
    }

    /// The chain after `block` was offered to it. A block that is not accepted
    /// changes nothing. An accepted block is stored under its digest unless a
    /// block is stored there already, and becomes the head if it is strictly
    /// higher than the head.
    pub open spec fn add_block(self, block: BlockView, difficulty: u32) -> ChainView {
        if !self.validate(block, difficulty) {
            self
        } else {
            ChainView {
                blocks: if self.blocks.dom().contains(block.hash) {
                    self.blocks
                } else {
                    self.blocks.insert(block.hash, block)
                },
                head: if block.height > self.head_block().height {
                    block.hash
                } else {
                    self.head
                },
            }
        }
    }

    /// The block that a miner proposes with nonce `guess`: a child of the
    /// head without transactions.
    pub open spec fn candidate(self, guess: u128) -> BlockView {
        let height = (self.head_block().height + 1) as u64;
        let prev_hash = self.head_block().hash;
        BlockView {
            height,
            prev_hash,
            guess,
            hash: block_digest(height, prev_hash, guess),
            transactions: Seq::empty(),
        }
    }

    /// What one mining attempt with nonce `guess` yields: the candidate, if
    /// the head leaves room for a child and the candidate's digest meets the
    /// difficulty.
    pub open spec fn mined(self, difficulty: u32, guess: u128) -> Option<BlockView> {
        if self.head_block().height < u64::MAX && meets_difficulty(
            self.candidate(guess).hash,
            difficulty,
        ) {
            Some(self.candidate(guess))
        } else {
            None
        }
    }

    /// The chain after one mining attempt with nonce `guess`: a block that was
    /// found is offered to the chain.
    pub open spec fn after_mining(self, difficulty: u32, guess: u128) -> ChainView {
        match self.mined(difficulty, guess) {
            Some(block) => self.add_block(block, difficulty),
            None => self,
        }
    }

    /// Every block of height 0 has no parent, and every other block has its
    /// parent in the chain, one lower. A chain that started from a genesis
    /// block stays so.
    pub open spec fn rooted(self) -> bool {
        forall|hash: Seq<u8>|
            self.blocks.dom().contains(hash) ==> {
                let block = #[trigger] self.blocks[hash];
                if block.height == 0 {
                    block.prev_hash == no_parent()
                } else {
                    &&& self.blocks.dom().contains(block.prev_hash)
                    &&& self.blocks[block.prev_hash].height + 1 == block.height
                }
            }
    }

    /// Every stored block above height 0 is valid on its own at `difficulty`:
    /// it carries its proof of work and pays at most one reward. This holds
    /// of every chain that a node working at `difficulty` has built on a
    /// block of height 0.
    pub open spec fn proven(self, difficulty: u32) -> bool {
        forall|hash: Seq<u8>|
            self.blocks.dom().contains(hash) && (#[trigger] self.blocks[hash]).height > 0
                ==> self.blocks[hash].valid(difficulty)
    }

    /// The digest reached from `hash` by following parents `hops` times.
    pub open spec fn ancestor(self, hash: Seq<u8>, hops: nat) -> Seq<u8>
        decreases hops,
    {
        if hops == 0 {
            hash
        } else {
            self.ancestor(self.blocks[hash].prev_hash, (hops - 1) as nat)
        }
    }

    /// A block with the digest of `block` is stored at a lower height than
    /// that of `block`, and `block` is higher than the head. Offering such a
    /// block moves the head to the stored block. It takes two different
    /// hash inputs with one digest for a block to shadow another.
    pub open spec fn shadows(self, block: BlockView) -> bool {
        &&& self.blocks.dom().contains(block.hash)
        &&& self.blocks[block.hash].height < block.height
        &&& block.height > self.head_block().height
    }

    /// The chain after a message was taken in.
    pub open spec fn deliver(self, message: NetworkMessageView, difficulty: u32) -> ChainView {
        match message.data {
            NetworkMessageDataView::PublishBlock(block) => self.add_block(block, difficulty),
        }
    }

    /// The chain after `messages` were taken in, the first of them first.
    pub open spec fn absorb(self, messages: Seq<NetworkMessageView>, difficulty: u32) -> ChainView
        decreases messages.len(),
    {
        if messages.len() == 0 {
            self
        } else {
            self.deliver(messages[0], difficulty).absorb(messages.drop_first(), difficulty)
        }
    }
}

/// Offering blocks keeps a chain well formed, and a block that is stored is
/// never changed nor dropped.
pub proof fn lemma_add_block_wf(chain: ChainView, block: BlockView, difficulty: u32)
    requires
        chain.wf(),
    ensures
        chain.add_block(block, difficulty).wf(),
        forall|hash: Seq<u8>|
            chain.blocks.dom().contains(hash) ==> chain.add_block(
                block,
                difficulty,
            ).blocks.dom().contains(hash) && chain.add_block(block, difficulty).blocks[hash]
                == chain.blocks[hash],
{
}

/// Offering blocks keeps a chain rooted.
pub proof fn lemma_add_block_rooted(chain: ChainView, block: BlockView, difficulty: u32)
    requires
        chain.wf(),
        chain.rooted(),
    ensures
        chain.add_block(block, difficulty).rooted(),
{
    let after = chain.add_block(block, difficulty);
    assert forall|hash: Seq<u8>| after.blocks.dom().contains(hash) implies {
        let stored = #[trigger] after.blocks[hash];
        if stored.height == 0 {
            stored.prev_hash == no_parent()
        } else {
            &&& after.blocks.dom().contains(stored.prev_hash)
            &&& after.blocks[stored.prev_hash].height + 1 == stored.height
        }
    } by {}
}

/// Offering blocks at one difficulty keeps every stored block above height
/// 0 valid at that difficulty.
pub proof fn lemma_add_block_proven(chain: ChainView, block: BlockView, difficulty: u32)
    requires
        chain.wf(),
        chain.proven(difficulty),
    ensures
        chain.add_block(block, difficulty).proven(difficulty),
{
    let after = chain.add_block(block, difficulty);
    assert forall|hash: Seq<u8>|
        after.blocks.dom().contains(hash) && (#[trigger] after.blocks[hash]).height
            > 0 implies after.blocks[hash].valid(difficulty) by {}
}

/// A chain that holds one block alone is well formed. If that block is a
/// genesis block, of height 0 and without a parent, the chain is rooted, and
/// nothing in it is left to prove at any difficulty.
pub proof fn lemma_starting_chain(start: BlockView, difficulty: u32)
    ensures
        ChainView::starting_at(start).wf(),
        start.height == 0 && start.prev_hash == no_parent() ==> ChainView::starting_at(
            start,
        ).rooted(),
        start.height == 0 ==> ChainView::starting_at(start).proven(difficulty),
{
}

/// Offering a block a second time changes nothing: neither the head nor the
/// blocks that are stored.
pub proof fn lemma_add_block_idempotent(chain: ChainView, block: BlockView, difficulty: u32)
    requires
        chain.wf(),
    ensures
        chain.add_block(block, difficulty).add_block(block, difficulty) == chain.add_block(
            block,
            difficulty,
        ),
{
}

/// Of two different blocks of one height on one parent, both acceptable, the
/// one that is offered second never moves the head: where the first became
/// the head, it stays the head. Both end up known. The first must not shadow
/// a stored block.
pub proof fn lemma_fork_tie_break(
    chain: ChainView,
    first: BlockView,
    second: BlockView,
    difficulty: u32,
)
    requires
        chain.wf(),
        chain.validate(first, difficulty),
        chain.validate(second, difficulty),
        first.height == second.height,
        first.prev_hash == second.prev_hash,
        first.hash != second.hash,
        !chain.shadows(first),
    ensures
        chain.add_block(first, difficulty).add_block(second, difficulty).head == chain.add_block(
            first,
            difficulty,
        ).head,
        first.height > chain.head_block().height ==> chain.add_block(first, difficulty).add_block(
            second,
            difficulty,
        ).head == first.hash,
        chain.add_block(first, difficulty).add_block(second, difficulty).blocks.dom().contains(
            first.hash,
        ),
        chain.add_block(first, difficulty).add_block(second, difficulty).blocks.dom().contains(
            second.hash,
        ),
{
}

/// In a rooted chain every block's line of parents is unbroken: `hops`
/// parents up from a block of height `h`, for `hops <= h`, stands a known
/// block of height `h - hops`.
pub proof fn lemma_ancestors(chain: ChainView, hash: Seq<u8>, hops: nat)
    requires
        chain.wf(),
        chain.rooted(),
        chain.blocks.dom().contains(hash),
        hops <= chain.blocks[hash].height,
    ensures
        chain.blocks.dom().contains(chain.ancestor(hash, hops)),
        chain.blocks[chain.ancestor(hash, hops)].height == chain.blocks[hash].height - hops,
    decreases hops,
{
    if hops > 0 {
        let block = chain.blocks[hash];
        lemma_ancestors(chain, block.prev_hash, (hops - 1) as nat);
    }
}

/// Walking from the head along the parents, the heights go down by one with
/// each hop, every block on the way is known, and the walk ends after as many
/// hops as the head is high, at a block of height 0 without a parent.
pub proof fn lemma_chain_continuity(chain: ChainView)
    requires
        chain.wf(),
        chain.rooted(),
    ensures
        forall|hops: nat|
            hops <= chain.head_block().height ==> chain.blocks.dom().contains(
                #[trigger] chain.ancestor(chain.head, hops),
            ) && chain.blocks[chain.ancestor(chain.head, hops)].height == chain.head_block().height
                - hops,
        forall|hops: nat|
            hops < chain.head_block().height ==> chain.ancestor(chain.head, hops + 1)
                == chain.blocks[#[trigger] chain.ancestor(chain.head, hops)].prev_hash,
        chain.blocks[chain.ancestor(chain.head, chain.head_block().height as nat)].height == 0,
        chain.blocks[chain.ancestor(chain.head, chain.head_block().height as nat)].prev_hash
            == no_parent(),
{
    assert forall|hops: nat| hops <= chain.head_block().height implies chain.blocks.dom().contains(
        #[trigger] chain.ancestor(chain.head, hops),
    ) && chain.blocks[chain.ancestor(chain.head, hops)].height == chain.head_block().height
        - hops by {
        lemma_ancestors(chain, chain.head, hops);
    }
    assert forall|hops: nat| hops < chain.head_block().height implies chain.ancestor(
        chain.head,
        hops + 1,
    ) == chain.blocks[#[trigger] chain.ancestor(chain.head, hops)].prev_hash by {
        lemma_ancestor_step(chain, chain.head, hops);
    }
}

/// One more hop leads to the parent of where the hops before it led.
pub proof fn lemma_ancestor_step(chain: ChainView, hash: Seq<u8>, hops: nat)
    ensures
        chain.ancestor(hash, hops + 1) == chain.blocks[chain.ancestor(hash, hops)].prev_hash,
    decreases hops,
{
    if hops > 0 {
        lemma_ancestor_step(chain, chain.blocks[hash].prev_hash, (hops - 1) as nat);
        assert(chain.ancestor(hash, hops + 1) == chain.ancestor(
            chain.blocks[hash].prev_hash,
            hops,
        ));
    } else {
        assert(chain.ancestor(hash, 1) == chain.ancestor(chain.blocks[hash].prev_hash, 0));
    }
}

/// A mining attempt and the messages taken in afterwards keep a chain well
/// formed, rooted and proven: all three hold of every chain that a node
/// reaches from a genesis block.
pub proof fn lemma_work_keeps_chain(
    chain: ChainView,
    messages: Seq<NetworkMessageView>,
    difficulty: u32,
    guess: u128,
)
    requires
        chain.wf(),
    ensures
        chain.after_mining(difficulty, guess).wf(),
        chain.absorb(messages, difficulty).wf(),
        chain.rooted() ==> chain.after_mining(difficulty, guess).rooted(),
        chain.rooted() ==> chain.absorb(messages, difficulty).rooted(),
        chain.proven(difficulty) ==> chain.after_mining(difficulty, guess).proven(difficulty),
        chain.proven(difficulty) ==> chain.absorb(messages, difficulty).proven(difficulty),
    decreases messages.len(),
{
    if messages.len() > 0 {
        let next = chain.deliver(messages[0], difficulty);
        lemma_work_keeps_chain(next, messages.drop_first(), difficulty, guess);
    }
}

/// A block that was mined on the head is accepted and becomes the head.
pub proof fn lemma_mined_block_becomes_head(chain: ChainView, difficulty: u32, guess: u128)
    requires
        chain.wf(),
        chain.mined(difficulty, guess) is Some,
    ensures
        chain.validate(chain.candidate(guess), difficulty),
        chain.add_block(chain.candidate(guess), difficulty).head == chain.candidate(guess).hash,
        chain.add_block(chain.candidate(guess), difficulty).blocks.dom().contains(
            chain.candidate(guess).hash,
        ),
{
}

/// A block whose parent is not known is not accepted, and offering it changes
/// nothing.
pub proof fn lemma_unknown_parent_rejected(chain: ChainView, block: BlockView, difficulty: u32)
    requires
        !chain.blocks.dom().contains(block.prev_hash),
    ensures
        !chain.validate(block, difficulty),
        chain.add_block(block, difficulty) == chain,
{
}

/// A block with two transactions that each pay a reward is not accepted,
/// whatever its digest.
pub proof fn lemma_two_rewards_rejected(chain: ChainView, block: BlockView, difficulty: u32)
    requires
        block.transactions.len() == 2,
        reward_actions(block.transactions[0]) >= 1,
        reward_actions(block.transactions[1]) >= 1,
    ensures
        !block.valid(difficulty),
        !chain.validate(block, difficulty),
        chain.add_block(block, difficulty) == chain,
{
    reveal_with_fuel(total_reward_actions, 3);
}

} // verus!
