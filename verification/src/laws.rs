//! What follows from the rules, stated for every program and every account.

use crate::instruction::{InstructionError, MAX_CUSTOM_ERROR_LEN};
use crate::keys::{is_system_program, same_key};
use crate::rules::{
    account_verdict, accounts_verdict, instruction_verdict, total_lamports, AccountState,
};
use crate::account::Account;
use crate::effects::{
    instruction_accepted, is_history, subset_states, touches_only, transaction_accepted,
};
use crate::subset::{has_repeated_index, names_slot};
use crate::transaction::Transaction;
use solana_sdk::pubkey::Pubkey;
use vstd::prelude::*;

verus! {

/// Conservation: the accounts of an accepted instruction add up to what they
/// added up to before it.
pub proof fn law_conservation(program_id: Pubkey, pre: Seq<AccountState>, post: Seq<AccountState>)
    requires
        instruction_verdict(program_id, pre, total_lamports(pre), post) is Ok,
    ensures
        total_lamports(post) == total_lamports(pre),
{
}

/// An instruction is accepted only if each of its accounts keeps the rules.
pub proof fn law_every_account_keeps_the_rules(
    program_id: Pubkey,
    pre: Seq<AccountState>,
    pre_total: int,
    post: Seq<AccountState>,
    k: int,
)
    requires
        pre.len() == post.len(),
        instruction_verdict(program_id, pre, pre_total, post) is Ok,
        0 <= k < pre.len(),
    ensures
        account_verdict(program_id, pre[k], post[k]) is Ok,
    decreases pre.len(),
{
    assert(accounts_verdict(program_id, pre, post) is Ok);
    if k < pre.len() - 1 {
        law_every_account_keeps_the_rules(
            program_id,
            pre.drop_last(),
            total_lamports(post.drop_last()),
            post.drop_last(),
            k,
        );
    }
}

/// Ownership: where an account that keeps the rules has changed its owner,
/// the program was the system program, or had owned the account. (In fact it
/// was the system program: no other program changes an owner.)
pub proof fn law_owner_change(program_id: Pubkey, pre: AccountState, post: AccountState)
    requires
        account_verdict(program_id, pre, post) is Ok,
        !same_key(pre.owner, post.owner),
    ensures
        is_system_program(program_id) || same_key(pre.owner, program_id),
        is_system_program(program_id),
{
}

/// Data: an account that keeps the rules, and that the program does not own,
/// has the data that it had, unless the program is the system program.
pub proof fn law_foreign_data(program_id: Pubkey, pre: AccountState, post: AccountState)
    requires
        account_verdict(program_id, pre, post) is Ok,
        !same_key(program_id, post.owner),
        !is_system_program(program_id),
    ensures
        post.data == pre.data,
        same_key(pre.owner, post.owner),
{
}

/// Balance: an account that keeps the rules, and that the program does not
/// own, has not lost a lamport.
pub proof fn law_foreign_balance(program_id: Pubkey, pre: AccountState, post: AccountState)
    requires
        account_verdict(program_id, pre, post) is Ok,
        !same_key(program_id, post.owner),
    ensures
        post.lamports >= pre.lamports,
{
}

/// The bound on custom errors: what an error canonicalizes to has a payload
/// of at most [`MAX_CUSTOM_ERROR_LEN`] bytes, the first of the error's own.
pub proof fn law_custom_error_bound(error: InstructionError, canonical: InstructionError)
    requires
        error.canonicalizes_to(canonical),
    ensures
        canonical.is_canonical(),
        canonical.custom_payload() matches Some(kept) ==> {
            &&& kept.len() <= MAX_CUSTOM_ERROR_LEN
            &&& error.custom_payload() matches Some(bytes)
            &&& kept.is_prefix_of(bytes)
        },
        canonical.custom_payload() is None ==> canonical == error,
{
}

/// No alias: in a list without a repeated index, two places name two
/// accounts.
pub proof fn law_no_alias(indexes: Seq<u8>, a: int, b: int)
    requires
        !has_repeated_index(indexes),
        0 <= a < indexes.len(),
        0 <= b < indexes.len(),
        a != b,
    ensures
        indexes[a] != indexes[b],
{
    if a < b {
        assert(!(0 <= a < b < indexes.len() && indexes[a] == indexes[b]));
    } else {
        assert(!(0 <= b < a < indexes.len() && indexes[b] == indexes[a]));
    }
}

/// The sum of the balances of all the accounts.
pub open spec fn ledger_total(accounts: Seq<Account>) -> int {
    total_lamports(Seq::new(accounts.len(), |slot: int| accounts[slot].state()))
}

/// Replacing one account changes the sum by what the account's balance
/// changes by.
pub proof fn lemma_total_after_update(accounts: Seq<AccountState>, slot: int, state: AccountState)
    requires
        0 <= slot < accounts.len(),
    ensures
        total_lamports(accounts.update(slot, state)) == total_lamports(accounts)
            - accounts[slot].lamports + state.lamports,
    decreases accounts.len(),
{
    let updated = accounts.update(slot, state);
    if slot == accounts.len() - 1 {
        assert(updated.drop_last() =~= accounts.drop_last());
    } else {
        assert(updated.drop_last() =~= accounts.drop_last().update(slot, state));
        lemma_total_after_update(accounts.drop_last(), slot, state);
    }
}

/// Where only the accounts that `indexes` names have changed, and it names
/// none twice, all the accounts together have gained what the named ones
/// have gained.
pub proof fn lemma_total_of_touched(indexes: Seq<u8>, before: Seq<Account>, after: Seq<Account>)
    requires
        !has_repeated_index(indexes),
        forall|k: int| 0 <= k < indexes.len() ==> (#[trigger] indexes[k] as int) < before.len(),
        touches_only(indexes, before, after),
    ensures
        ledger_total(after) - ledger_total(before) == total_lamports(
            subset_states(after, indexes),
        ) - total_lamports(subset_states(before, indexes)),
    decreases indexes.len(),
{
    if indexes.len() == 0 {
        assert forall|slot: int| 0 <= slot < before.len() implies after[slot] == before[slot] by {
            assert(!names_slot(indexes, slot));
        }
        assert(after =~= before);
    } else {
        let rest = indexes.drop_last();
        let last = indexes.last() as int;
        // The accounts with the last named one put back as it was.
        let mid = after.update(last, before[last]);
        assert forall|k: int| 0 <= k < rest.len() implies rest[k] != last by {
            assert(indexes[k] == rest[k]);
            assert(!(0 <= k < indexes.len() - 1 < indexes.len() && indexes[k]
                == indexes[indexes.len() - 1]));
        }
        assert(!has_repeated_index(rest)) by {
            if has_repeated_index(rest) {
                let (i, j) = choose|i: int, j: int|
                    0 <= i < j < rest.len() && rest[i] == rest[j];
                assert(0 <= i < j < indexes.len() && indexes[i] == indexes[j]);
            }
        }
        assert(touches_only(rest, before, mid)) by {
            assert forall|slot: int|
                0 <= slot < before.len() && !names_slot(rest, slot) implies #[trigger] mid[slot]
                == before[slot] by {
                if slot != last {
                    assert(!names_slot(indexes, slot)) by {
                        if names_slot(indexes, slot) {
                            let k = choose|k: int| 0 <= k < indexes.len() && indexes[k] == slot;
                            assert(rest[k] == slot);
                        }
                    }
                }
            }
        }
        lemma_total_of_touched(rest, before, mid);
        assert(subset_states(mid, rest) =~= subset_states(after, rest));
        assert(subset_states(after, indexes).drop_last() =~= subset_states(after, rest));
        assert(subset_states(before, indexes).drop_last() =~= subset_states(before, rest));
        let all_after = Seq::new(after.len(), |slot: int| after[slot].state());
        let all_mid = Seq::new(mid.len(), |slot: int| mid[slot].state());
        assert(all_mid =~= all_after.update(last, before[last].state()));
        lemma_total_after_update(all_after, last, before[last].state());
    }
}

/// Conservation, for an instruction and all the accounts: an accepted
/// instruction leaves the sum of all the balances as it was.
pub proof fn law_instruction_conserves_ledger(
    tx: Transaction,
    i: int,
    before: Seq<Account>,
    after: Seq<Account>,
)
    requires
        0 <= i < tx.instructions@.len(),
        forall|k: int|
            0 <= k < tx.instructions@[i].accounts@.len() ==> (
            #[trigger] tx.instructions@[i].accounts@[k] as int) < before.len(),
        instruction_accepted(tx, i, before, after),
    ensures
        ledger_total(after) == ledger_total(before),
{
    lemma_total_of_touched(tx.instructions@[i].accounts@, before, after);
}

/// Conservation, for a transaction: when every instruction was accepted, the
/// sum of all the balances is what it was before the transaction.
pub proof fn law_transaction_conserves_ledger(tx: Transaction, start: Seq<Account>, end: Seq<Account>)
    requires
        forall|i: int, k: int|
            0 <= i < tx.instructions@.len() && 0 <= k < tx.instructions@[i].accounts@.len() ==> (
            #[trigger] tx.instructions@[i].accounts@[k] as int) < start.len(),
        transaction_accepted(tx, start, end),
    ensures
        end.len() == start.len(),
        ledger_total(end) == ledger_total(start),
{
    let history = choose|history: Seq<Seq<Account>>|
        #[trigger] is_history(tx, tx.instructions@.len() as int, start, history) && history.last()
            == end;
    lemma_history_conserves_ledger(tx, tx.instructions@.len() as int, start, history);
}

/// Every state of a history has as many accounts as the first, and the same
/// sum of balances.
pub proof fn lemma_history_conserves_ledger(
    tx: Transaction,
    executed: int,
    start: Seq<Account>,
    history: Seq<Seq<Account>>,
)
    requires
        0 <= executed <= tx.instructions@.len(),
        forall|i: int, k: int|
            0 <= i < tx.instructions@.len() && 0 <= k < tx.instructions@[i].accounts@.len() ==> (
            #[trigger] tx.instructions@[i].accounts@[k] as int) < start.len(),
        is_history(tx, executed, start, history),
    ensures
        history.last().len() == start.len(),
        ledger_total(history.last()) == ledger_total(start),
    decreases executed,
{
    if executed > 0 {
        let earlier = history.drop_last();
        assert(is_history(tx, executed - 1, start, earlier)) by {
            assert forall|i: int| 0 <= i < executed - 1 implies instruction_accepted(
                tx,
                i,
                #[trigger] earlier[i],
                earlier[i + 1],
            ) by {
                assert(instruction_accepted(tx, i, history[i], history[i + 1]));
            }
        }
        lemma_history_conserves_ledger(tx, executed - 1, start, earlier);
        let before = history[executed - 1];
        assert(before == earlier.last());
        assert(instruction_accepted(tx, executed - 1, before, history[executed]));
        law_instruction_conserves_ledger(tx, executed - 1, before, history.last());
    }
}

} // verus!
