//! Blocks, their digests and the proof-of-work test.

use crate::transaction::{reward_actions, transaction_valid, Transaction, TransactionAction};
use crate::utils::bit_manipulation::bit_at;
use crate::utils::hex_text::{hex_encode, hex_text};
use sha2::{Digest, Sha256};
use vstd::prelude::*;
use vstd::std_specs::bits::u8_trailing_zeros;

verus! {

/// The SHA-256 digest of `data`.
pub uninterp spec fn sha256_digest(data: Seq<u8>) -> Seq<u8>;

/// Hashes `data` with `sha2::Sha256` (`new`, one `update`, `finalize`). The
/// contract only gives the digest its name: the same bytes always hash to the
/// same 32 bytes.
#[verifier::external_body]
fn sha256(data: &[u8]) -> (digest: [u8; 32])
    ensures
        digest@ == sha256_digest(data@),
{
    let mut hasher = Sha256::new();
    hasher.update(data);
    hasher.finalize().into()
}

/// The `count` low-order bytes of `value`, the most significant first.
pub open spec fn be_bytes(value: nat, count: nat) -> Seq<u8>
    decreases count,
{
    if count == 0 {
        Seq::empty()
    } else {
        be_bytes(value / 256, (count - 1) as nat).push((value % 256) as u8)
    }
}

/// The bytes that are hashed for a block: the height in eight bytes, the
/// parent's digest, and the nonce in sixteen bytes, integers big-endian.
pub open spec fn hash_input(height: u64, prev_hash: Seq<u8>, guess: u128) -> Seq<u8> {
    be_bytes(height as nat, 8) + prev_hash + be_bytes(guess as nat, 16)
}

/// The digest of a block with these fields.
pub open spec fn block_digest(height: u64, prev_hash: Seq<u8>, guess: u128) -> Seq<u8> {
    sha256_digest(hash_input(height, prev_hash, guess))
}

/// The number of zero bits at the end of `bytes`, read as one number whose
/// last byte is the least significant: eight for each zero byte at the end,
/// and the trailing zero bits of the first byte before them that is not zero.
pub open spec fn trailing_zero_bits(bytes: Seq<u8>) -> nat
    decreases bytes.len(),
{
    if bytes.len() == 0 {
        0
    } else if bytes.last() == 0 {
        8 + trailing_zero_bits(bytes.drop_last())
    } else {
        u8_trailing_zeros(bytes.last()) as nat
    }
}

/// Whether a digest meets `difficulty`: it ends in at least that many zero
/// bits.
pub open spec fn meets_difficulty(digest: Seq<u8>, difficulty: u32) -> bool {
    trailing_zero_bits(digest) >= difficulty
}

/// Bit `k` of a digest read as one number, the last byte being the least
/// significant and bit 0 the lowest bit of that byte.
pub open spec fn digest_bit(digest: Seq<u8>, k: nat) -> bool {
    k < 8 * digest.len() && bit_at(digest[digest.len() - 1 - k / 8] as nat, k % 8)
}

/// The digest ends in exactly `zeros` zero bits: its lowest `zeros` bits are
/// clear and the next one, if there is one, is set.
pub open spec fn ends_in_exactly(digest: Seq<u8>, zeros: nat) -> bool {
    &&& zeros <= 8 * digest.len()
    &&& forall|k: nat| k < zeros ==> !#[trigger] digest_bit(digest, k)
    &&& zeros < 8 * digest.len() ==> digest_bit(digest, zeros)
}

/// Shifting a byte right by `k` and masking tests the bit that `bit_at`
/// speaks of.
proof fn lemma_byte_bit(byte: u8, k: u8)
    requires
        k < 8,
    ensures
        ((byte >> k) & 1u8 == 1u8) == bit_at(byte as nat, k as nat),
        ((byte >> k) & 1u8 == 0u8) == !bit_at(byte as nat, k as nat),
{
    let shifted: u8 = byte >> k;
    assert(shifted & 1u8 == shifted % 2) by (bit_vector);
    vstd::bits::lemma_u8_shr_is_div(byte, k);
}

/// A digest that ends in exactly `zeros` zero bits has `zeros` as its count
/// of trailing zero bits.
pub proof fn lemma_exact_trailing_zeros(digest: Seq<u8>, zeros: nat)
    requires
        ends_in_exactly(digest, zeros),
    ensures
        trailing_zero_bits(digest) == zeros,
    decreases digest.len(),
{
    if digest.len() > 0 {
        let last = digest.last();
        let count = u8_trailing_zeros(last);
        assert forall|k: nat| k < 8 implies digest_bit(digest, k) == bit_at(last as nat, k) by {}
        if last == 0 {
            assert forall|k: nat| k < 8 implies !digest_bit(digest, k) by {
                let shift: u8 = k as u8;
                lemma_byte_bit(last, shift);
            }
            let front = digest.drop_last();
            assert forall|k: nat| digest_bit(front, k) == digest_bit(digest, k + 8) by {}
            assert(ends_in_exactly(front, (zeros - 8) as nat)) by {
                if zeros - 8 < 8 * front.len() {
                    assert(digest_bit(front, (zeros - 8) as nat) == digest_bit(
                        digest,
                        (zeros - 8) as nat + 8,
                    ));
                }
            }
            lemma_exact_trailing_zeros(front, (zeros - 8) as nat);
        } else {
            lemma_byte_bit(last, count as u8);
            if zeros < count {
                lemma_byte_bit(last, zeros as u8);
            }
        }
    }
}

/// A digest that ends in exactly `zeros` zero bits meets a difficulty exactly
/// when the difficulty is at most `zeros`. So it meets `zeros` itself and
/// fails `zeros + 1`.
pub proof fn lemma_difficulty_threshold(digest: Seq<u8>, zeros: nat, difficulty: u32)
    requires
        ends_in_exactly(digest, zeros),
    ensures
        meets_difficulty(digest, difficulty) <==> difficulty <= zeros,
{
    lemma_exact_trailing_zeros(digest, zeros);
}

/// Appends to `out` the `count` low-order bytes of `value`, big-endian.
fn push_be_bytes(out: &mut Vec<u8>, value: u128, count: usize)
    ensures
        final(out)@ == old(out)@ + be_bytes(value as nat, count as nat),
{
    let ghost before = out@;
    let mut filled: usize = 0;
    while filled < count
        invariant
            filled <= count,
            out@.len() == before.len() + filled,
            out@.take(before.len() as int) == before,
        decreases count - filled,
    {
        out.push(0);
        filled = filled + 1;
    }
    let start: usize = out.len() - count;
    let mut rest: u128 = value;
    let mut i: usize = count;
    while i > 0
        invariant
            i <= count,
            start == before.len(),
            start + count == out.len(),
            out@.len() == before.len() + count,
            out@.take(before.len() as int) == before,
            be_bytes(value as nat, count as nat) == be_bytes(rest as nat, i as nat) + out@.skip(
                start + i,
            ),
        decreases i,
    {
        i = i - 1;
        let ghost previous = out@;
        out.set(start + i, (rest % 256) as u8);
        proof {
            assert(out@.skip(start + i) =~= seq![(rest % 256) as u8] + previous.skip(
                start + i + 1,
            ));
            assert(be_bytes(rest as nat, (i + 1) as nat) == be_bytes(
                (rest / 256) as nat,
                i as nat,
            ).push((rest % 256) as u8));
            assert(be_bytes((rest / 256) as nat, i as nat).push((rest % 256) as u8) + previous.skip(
                start + i + 1,
            ) =~= be_bytes((rest / 256) as nat, i as nat) + out@.skip(start + i));
        }
        rest = rest / 256;
    }
}

/// A 32-byte digest.
#[derive(Clone, Copy, Debug, Eq, Hash)]
pub struct BlockHash(pub [u8; 32]);

impl View for BlockHash {
    type V = Seq<u8>;

    open spec fn view(&self) -> Seq<u8> {
        self.0@
    }
}

impl PartialEq for BlockHash {
    fn eq(&self, other: &Self) -> (equal: bool) {
        let mut i: usize = 0;
        while i < 32
            invariant
                i <= 32,
                forall|k: int| 0 <= k < i ==> self.0@[k] == other.0@[k],
            decreases 32 - i,
        {
            if self.0[i] != other.0[i] {
                return false;
            }
            i = i + 1;
        }
        assert(self.0@ =~= other.0@);
        true
    }
}

impl vstd::std_specs::cmp::PartialEqSpecImpl for BlockHash {
    open spec fn obeys_eq_spec() -> bool {
        true
    }

    open spec fn eq_spec(&self, other: &Self) -> bool {
        self@ == other@
    }
}

impl Default for BlockHash {
    /// The digest that is 32 zero bytes, which stands for "no parent".
    fn default() -> (hash: Self)
        ensures
            hash@ == Seq::new(32, |i: int| 0u8),
    {
        let hash = BlockHash([0u8; 32]);
        hash
    }
}

impl BlockHash {
    /// The digest as hexadecimal text.
    pub fn hex_encode(&self) -> (text: String)
        ensures
            text@ == hex_text(self@),
    {
        hex_encode(self.0.as_slice())
    }

    /// Whether the digest ends in at least `difficulty` zero bits.
    pub fn is_valid(&self, difficulty: u32) -> (valid: bool)
        ensures
            valid == meets_difficulty(self@, difficulty),
    {
        let mut trailing_zeros: u32 = 0;
        let mut i: usize = 32;
        assert(self@.take(32) =~= self@);
        while i > 0
            invariant
                i <= 32,
                trailing_zeros == 8 * (32 - i),
                trailing_zero_bits(self@) == trailing_zeros + trailing_zero_bits(
                    self@.take(i as int),
                ),
            decreases i,
        {
            i = i - 1;
            let digit: u8 = self.0[i];
            let zeros: u32 = digit.trailing_zeros();
            proof {
                let front = self@.take(i + 1);
                assert(front.drop_last() =~= self@.take(i as int));
            }
            trailing_zeros = trailing_zeros + zeros;
            if zeros != 8 {
                return trailing_zeros >= difficulty;
            }
        }
        trailing_zeros >= difficulty
    }
}

/// What a block holds, as plain values.
pub struct BlockView {
    pub height: u64,
    pub prev_hash: Seq<u8>,
    pub guess: u128,
    pub hash: Seq<u8>,
    pub transactions: Seq<Seq<TransactionAction>>,
}

/// The number of reward actions in all of `transactions` together.
pub open spec fn total_reward_actions(transactions: Seq<Seq<TransactionAction>>) -> nat
    decreases transactions.len(),
{
    if transactions.len() == 0 {
        0
    } else {
        total_reward_actions(transactions.drop_last()) + reward_actions(transactions.last())
    }
}

impl BlockView {
    /// The digest is the one that the other fields hash to.
    pub open spec fn sealed(self) -> bool {
        self.hash == block_digest(self.height, self.prev_hash, self.guess)
    }

    /// The block is acceptable on its own at `difficulty`: its digest meets the
    /// difficulty, it pays at most one reward, and each transaction is valid.
    pub open spec fn valid(self, difficulty: u32) -> bool {
        &&& meets_difficulty(self.hash, difficulty)
        &&& total_reward_actions(self.transactions) <= 1
        &&& forall|i: int|
            0 <= i < self.transactions.len() ==> transaction_valid(#[trigger] self.transactions[i])
    }
}

/// The actions of each of `transactions`, in order.
pub open spec fn transactions_view(transactions: Seq<Transaction>) -> Seq<Seq<TransactionAction>> {
    transactions.map_values(|t: Transaction| t@)
}

/// One block of the chain. Its digest is computed when the block is made,
/// and a block does not change afterwards.
#[derive(Debug)]
pub struct Block {
    height: u64,
    prev_hash: BlockHash,
    guess: u128,
    hash: BlockHash,
    transactions: Vec<Transaction>,
}

impl View for Block {
    type V = BlockView;

    closed spec fn view(&self) -> BlockView {
        BlockView {
            height: self.height,
            prev_hash: self.prev_hash@,
            guess: self.guess,
            hash: self.hash@,
            transactions: transactions_view(self.transactions@),
        }
    }
}

/// Adding actions to the last transaction, or transactions to a block, never
/// lowers the number of reward actions.
pub proof fn lemma_reward_actions_grow(
    transactions: Seq<Seq<TransactionAction>>,
    whole: int,
    part: int,
)
    requires
        0 <= whole < transactions.len(),
        0 <= part <= transactions[whole].len(),
    ensures
        total_reward_actions(transactions.take(whole)) + reward_actions(
            transactions[whole].take(part),
        ) <= total_reward_actions(transactions),
    decreases transactions.len(), transactions[whole].len() - part,
{
    let last = transactions.len() - 1;
    if whole < last {
        lemma_reward_actions_grow(transactions.drop_last(), whole, part);
        assert(transactions.drop_last().take(whole) =~= transactions.take(whole));
    } else if part < transactions[whole].len() {
        lemma_reward_actions_grow(transactions, whole, part + 1);
        assert(transactions[whole].take(part + 1).drop_last() =~= transactions[whole].take(part));
    } else {
        assert(transactions[whole].take(part) =~= transactions[whole]);
    }
}

impl Block {
    /// The digest of every block is the one that its fields hash to.
    #[verifier::type_invariant]
    pub open spec fn inv(self) -> bool {
        self@.sealed()
    }

    /// Makes a block from its contents and seals it with its digest.
    pub fn new(
        height: u64,
        prev_hash: BlockHash,
        guess: u128,
        transactions: Vec<Transaction>,
    ) -> (block: Self)
        ensures
            block@ == (BlockView {
                height,
                prev_hash: prev_hash@,
                guess,
                hash: block_digest(height, prev_hash@, guess),
                transactions: transactions_view(transactions@),
            }),
            block@.sealed(),
    {
        let hash = Block::calculate_hash(height, &prev_hash, guess);
        Block { height, prev_hash, guess, hash, transactions }
    }

    /// The block's height: the number of blocks between it and genesis,
    /// itself included.
    pub fn height(&self) -> (height: u64)
        ensures
            height == self@.height,
    {
        self.height
    }

    /// The digest of the block's parent.
    pub fn prev_hash(&self) -> (hash: &BlockHash)
        ensures
            hash@ == self@.prev_hash,
    {
        &self.prev_hash
    }

    /// The block's nonce.
    pub fn guess(&self) -> (guess: u128)
        ensures
            guess == self@.guess,
    {
        self.guess
    }

    /// The block's digest.
    pub fn hash(&self) -> (hash: &BlockHash)
        ensures
            hash@ == self@.hash,
            self@.sealed(),
    {
        proof {
            use_type_invariant(self);
        }
        &self.hash
    }

    /// The block's transactions.
    pub fn transactions(&self) -> (transactions: &Vec<Transaction>)
        ensures
            transactions_view(transactions@) == self@.transactions,
    {
        &self.transactions
    }

    /// Whether the block is acceptable on its own at `difficulty`.
    pub fn is_valid(&self, difficulty: u32) -> (valid: bool)
        ensures
            valid == self@.valid(difficulty),
    {
        let is_hash_valid = self.hash.is_valid(difficulty);
        let ghost all = self@.transactions;
        let mut block_reward_actions_count: u32 = 0;
        let mut i: usize = 0;
        while i < self.transactions.len()
            invariant
                i <= self.transactions@.len(),
                all == self@.transactions,
                block_reward_actions_count == total_reward_actions(all.take(i as int)),
                block_reward_actions_count <= 1,
            decreases self.transactions@.len() - i,
        {
            let transaction = &self.transactions[i];
            if !transaction.is_valid() {
                return false;
            }
            let mut j: usize = 0;
            while j < transaction.actions.len()
                invariant
                    i < all.len(),
                    all == self@.transactions,
                    all[i as int] == transaction@,
                    j <= transaction@.len(),
                    block_reward_actions_count == total_reward_actions(all.take(i as int))
                        + reward_actions(transaction@.take(j as int)),
                    block_reward_actions_count <= 1,
                decreases transaction@.len() - j,
            {
                match transaction.actions[j] {
                    TransactionAction::BlockReward(_) => {
                        proof {
                            assert(transaction@.take(j + 1).drop_last() =~= transaction@.take(
                                j as int,
                            ));
                            assert(reward_actions(transaction@.take(j + 1)) == reward_actions(
                                transaction@.take(j as int),
                            ) + 1);
                            lemma_reward_actions_grow(all, i as int, j + 1);
                        }
                        if block_reward_actions_count == 1 {
                            return false;
                        }
                        block_reward_actions_count = block_reward_actions_count + 1;
                    },
                }
                j = j + 1;
            }
            proof {
                assert(transaction@.take(j as int) =~= transaction@);
                assert(all.take(i + 1).drop_last() =~= all.take(i as int));
            }
            i = i + 1;
        }
        assert(all.take(i as int) =~= all);
        is_hash_valid
    }

    /// The digest that a height, a parent and a nonce hash to.
    fn calculate_hash(height: u64, prev_hash: &BlockHash, guess: u128) -> (hash: BlockHash)
        ensures
            hash@ == block_digest(height, prev_hash@, guess),
    {
        let mut input: Vec<u8> = Vec::new();
        push_be_bytes(&mut input, height as u128, 8);
        let mut i: usize = 0;
        while i < 32
            invariant
                i <= 32,
                input@ == be_bytes(height as nat, 8) + prev_hash@.take(i as int),
            decreases 32 - i,
        {
            input.push(prev_hash.0[i]);
            i = i + 1;
        }
        assert(prev_hash@.take(32) =~= prev_hash@);
        push_be_bytes(&mut input, guess, 16);
        BlockHash(sha256(input.as_slice()))
    }
}

impl Clone for Block {
    fn clone(&self) -> (copy: Self)
        ensures
            copy@ == self@,
    {
        proof {
            use_type_invariant(self);
        }
        let mut transactions: Vec<Transaction> = Vec::new();
        let mut i: usize = 0;
        while i < self.transactions.len()
            invariant
                i <= self.transactions@.len(),
                transactions_view(transactions@) == self@.transactions.take(i as int),
            decreases self.transactions@.len() - i,
        {
            let ghost before = transactions@;
            let transaction = self.transactions[i].clone();
            transactions.push(transaction);
            assert(transactions_view(transactions@) =~= transactions_view(before).push(
                transaction@,
            ));
            assert(self@.transactions.take(i + 1) =~= self@.transactions.take(i as int).push(
                self.transactions@[i as int]@,
            ));
            i = i + 1;
        }
        assert(self@.transactions.take(i as int) =~= self@.transactions);
        Block {
            height: self.height,
            prev_hash: self.prev_hash,
            guess: self.guess,
            hash: self.hash,
            transactions,
        }
    }
}

} // verus!
