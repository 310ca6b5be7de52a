//! What a transaction may have done to the accounts, told as the states that
//! the accounts went through from one instruction to the next.

use crate::account::Account;
use crate::instruction::InstructionError;
use crate::rules::{instruction_verdict, total_lamports, AccountState};
use crate::subset::{has_repeated_index, names_slot};
use crate::transaction::Transaction;
use vstd::prelude::*;

verus! {

/// What the rules read of the accounts that `indexes` names, in that order.
pub open spec fn subset_states(accounts: Seq<Account>, indexes: Seq<u8>) -> Seq<AccountState> {
    Seq::new(indexes.len(), |k: int| accounts[indexes[k] as int].state())
}

/// `after` is `before` but for the accounts that `indexes` names.
pub open spec fn touches_only(indexes: Seq<u8>, before: Seq<Account>, after: Seq<Account>) -> bool {
    &&& after.len() == before.len()
    &&& forall|slot: int|
        0 <= slot < before.len() && !names_slot(indexes, slot) ==> #[trigger] after[slot]
            == before[slot]
}

/// Instruction `i` took the accounts from `before` to `after` and was
/// accepted: it names no account twice, it left every account that it does
/// not name as it was, and those that it names keep the rules.
pub open spec fn instruction_accepted(
    tx: Transaction,
    i: int,
    before: Seq<Account>,
    after: Seq<Account>,
) -> bool {
    let indexes = tx.instructions@[i].accounts@;
    let pre = subset_states(before, indexes);
    &&& !has_repeated_index(indexes)
    &&& touches_only(indexes, before, after)
    &&& instruction_verdict(
        tx.program_id_of(i),
        pre,
        total_lamports(pre),
        subset_states(after, indexes),
    ) is Ok
}

/// `history` holds the accounts as they were at the start and after each of
/// the first `executed` instructions, every one of which was accepted.
pub open spec fn is_history(
    tx: Transaction,
    executed: int,
    start: Seq<Account>,
    history: Seq<Seq<Account>>,
) -> bool {
    &&& history.len() == executed + 1
    &&& history[0] == start
    &&& forall|i: int|
        0 <= i < executed ==> instruction_accepted(tx, i, #[trigger] history[i], history[i + 1])
}

/// Every instruction of the transaction was accepted, in order, and together
/// they took the accounts from `start` to `end`.
pub open spec fn transaction_accepted(tx: Transaction, start: Seq<Account>, end: Seq<Account>) -> bool {
    exists|history: Seq<Seq<Account>>|
        #[trigger] is_history(tx, tx.instructions@.len() as int, start, history) && history.last()
            == end
}

/// The instructions before `failed` were accepted, in order, and instruction
/// `failed` was rejected with `kind`. No later instruction has run: `end`
/// differs from the accounts as they were before instruction `failed` at
/// most in the accounts that this instruction names, and not at all where it
/// names one twice, which is rejected before its program is called.
pub open spec fn transaction_failed_at(
    tx: Transaction,
    failed: int,
    kind: InstructionError,
    start: Seq<Account>,
    end: Seq<Account>,
) -> bool {
    &&& 0 <= failed < tx.instructions@.len()
    &&& kind.is_canonical()
    &&& exists|history: Seq<Seq<Account>>|
        {
            &&& #[trigger] is_history(tx, failed, start, history)
            &&& touches_only(tx.instructions@[failed].accounts@, history.last(), end)
            &&& has_repeated_index(tx.instructions@[failed].accounts@) ==> kind
                == InstructionError::DuplicateAccountIndex && end == history.last()
        }
}

} // verus!
