//! Transactions and the actions they are made of.

use crate::wallet::PubKey;
use vstd::prelude::*;

verus! {

/// The reward for mining a block, credited to `receiver`.
#[derive(Clone, Copy, Debug)]
pub struct BlockRewardAction {
    pub receiver: PubKey,
}

/// One action of a transaction.
#[derive(Clone, Copy, Debug)]
pub enum TransactionAction {
    BlockReward(BlockRewardAction),
}

/// An ordered list of actions.
#[derive(Debug)]
pub struct Transaction {
    pub actions: Vec<TransactionAction>,
}

impl View for Transaction {
    type V = Seq<TransactionAction>;

    open spec fn view(&self) -> Seq<TransactionAction> {
        self.actions@
    }
}

/// Whether a transaction with these actions is acceptable on its own. Every
/// transaction is: no kind of action has a rule yet.
pub open spec fn transaction_valid(actions: Seq<TransactionAction>) -> bool {
    true
}

/// The number of reward actions among `actions`.
pub open spec fn reward_actions(actions: Seq<TransactionAction>) -> nat
    decreases actions.len(),
{
    if actions.len() == 0 {
        0
    } else {
        reward_actions(actions.drop_last()) + match actions.last() {
            TransactionAction::BlockReward(_) => 1nat,
        }
    }
}

impl Transaction {
    /// The transaction that pays the block reward to `receiver`.
    pub fn block_reward(receiver: PubKey) -> (transaction: Self)
        ensures
            transaction@ == seq![TransactionAction::BlockReward(BlockRewardAction { receiver })],
    {
        let mut actions: Vec<TransactionAction> = Vec::new();
        actions.push(TransactionAction::BlockReward(BlockRewardAction { receiver }));
        Self { actions }
    }

    /// Whether the transaction is acceptable on its own.
    pub fn is_valid(&self) -> (valid: bool)
        ensures
            valid == transaction_valid(self@),
    {
        true
    }
}

impl Clone for Transaction {
    fn clone(&self) -> (copy: Self)
        ensures
            copy@ == self@,
    {
        let mut actions: Vec<TransactionAction> = Vec::new();
        let mut i: usize = 0;
        while i < self.actions.len()
            invariant
                i <= self.actions@.len(),
                actions@ == self.actions@.take(i as int),
            decreases self.actions@.len() - i,
        {
            actions.push(self.actions[i]);
            assert(self.actions@.take(i + 1) =~= self.actions@.take(i as int).push(
                self.actions@[i as int],
            ));
            i = i + 1;
        }
        Self { actions }
    }
}

} // verus!
