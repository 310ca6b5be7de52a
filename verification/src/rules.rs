//! The rules that an instruction must have kept when its program returns.

use crate::account::Account;
use crate::instruction::{InstructionError, MAX_CUSTOM_ERROR_LEN};
use crate::keys::{is_system_program, same_key};
use solana_sdk::pubkey::Pubkey;
use solana_sdk::system_program;
use vstd::prelude::*;

verus! {

/// What the rules read of an account: its owner, its balance and its data.
pub struct AccountState {
    pub owner: Pubkey,
    pub lamports: u64,
    pub data: Seq<u8>,
}

impl Account {
    /// What the rules read of this account.
    pub open spec fn state(self) -> AccountState {
        AccountState { owner: self.owner, lamports: self.lamports, data: self.data@ }
    }
}

/// What the rules read of each account behind a list of references.
pub open spec fn states(accounts: Seq<&mut Account>) -> Seq<AccountState> {
    Seq::new(accounts.len(), |k: int| (*accounts[k]).state())
}

/// The sum of the balances.
pub open spec fn total_lamports(accounts: Seq<AccountState>) -> int
    decreases accounts.len(),
{
    if accounts.len() == 0 {
        0
    } else {
        total_lamports(accounts.drop_last()) + accounts.last().lamports
    }
}

/// An account as it was before an instruction.
#[derive(Clone, Debug, PartialEq, Eq)]
pub struct PreAccount {
    pub owner: Pubkey,
    pub lamports: u64,
    pub data: Vec<u8>,
}

impl View for PreAccount {
    type V = AccountState;

    open spec fn view(&self) -> AccountState {
        AccountState { owner: self.owner, lamports: self.lamports, data: self.data@ }
    }
}

/// What each record of a snapshot holds.
pub open spec fn recorded(snapshot: Seq<PreAccount>) -> Seq<AccountState> {
    Seq::new(snapshot.len(), |k: int| snapshot[k]@)
}

/// The verdict on one account after the program `program_id` has run: the
/// first rule that the account breaks, taken in this order, or `Ok`.
///
/// * Only the system program may change an account's owner.
/// * The balance of an account that the program does not own may not go down.
/// * The data of an account that the program does not own may not change,
///   unless the program is the system program.
///
/// "Owns" goes by the owner that the account has after the instruction: a
/// program may give an account away.
pub open spec fn account_verdict(program_id: Pubkey, pre: AccountState, post: AccountState) -> Result<
    (),
    InstructionError,
> {
    if !same_key(pre.owner, post.owner) && !is_system_program(program_id) {
        Err(InstructionError::ModifiedProgramId)
    } else if !same_key(program_id, post.owner) && pre.lamports > post.lamports {
        Err(InstructionError::ExternalAccountLamportSpend)
    } else if !same_key(program_id, post.owner) && !is_system_program(program_id) && pre.data
        != post.data {
        Err(InstructionError::ExternalAccountDataModified)
    } else {
        Ok(())
    }
}

/// The verdict on the accounts of an instruction, one by one: what
/// [`account_verdict`] says of the first account that breaks a rule, or `Ok`.
pub open spec fn accounts_verdict(
    program_id: Pubkey,
    pre: Seq<AccountState>,
    post: Seq<AccountState>,
) -> Result<(), InstructionError>
    decreases pre.len(),
{
    if pre.len() == 0 || post.len() == 0 {
        Ok(())
    } else {
        match accounts_verdict(program_id, pre.drop_last(), post.drop_last()) {
            Err(e) => Err(e),
            Ok(()) => account_verdict(program_id, pre.last(), post.last()),
        }
    }
}

/// The verdict on an instruction whose program returned without an error:
/// the verdict on its accounts, and then, with every account in order, on
/// their sum, which must be what it was before.
pub open spec fn instruction_verdict(
    program_id: Pubkey,
    pre: Seq<AccountState>,
    pre_total: int,
    post: Seq<AccountState>,
) -> Result<(), InstructionError> {
    match accounts_verdict(program_id, pre, post) {
        Err(e) => Err(e),
        Ok(()) => if pre_total != total_lamports(post) {
            Err(InstructionError::UnbalancedInstruction)
        } else {
            Ok(())
        },
    }
}

/// A rule broken among the first accounts is the verdict on all of them.
pub proof fn lemma_verdict_of_prefix(
    program_id: Pubkey,
    pre: Seq<AccountState>,
    post: Seq<AccountState>,
    n: int,
)
    requires
        pre.len() == post.len(),
        0 <= n <= pre.len(),
        accounts_verdict(program_id, pre.take(n), post.take(n)) is Err,
    ensures
        accounts_verdict(program_id, pre, post) == accounts_verdict(
            program_id,
            pre.take(n),
            post.take(n),
        ),
    decreases pre.len() - n,
{
    if n == pre.len() {
        assert(pre.take(n) =~= pre);
        assert(post.take(n) =~= post);
    } else {
        assert(pre.take(n + 1).drop_last() =~= pre.take(n));
        assert(post.take(n + 1).drop_last() =~= post.take(n));
        lemma_verdict_of_prefix(program_id, pre, post, n + 1);
    }
}

/// The rules reject with the errors that name them, never with a custom error.
pub proof fn lemma_verdict_is_canonical(
    program_id: Pubkey,
    pre: Seq<AccountState>,
    pre_total: int,
    post: Seq<AccountState>,
)
    ensures
        accounts_verdict(program_id, pre, post) matches Err(e) ==> e.is_canonical(),
        instruction_verdict(program_id, pre, pre_total, post) matches Err(e) ==> e.is_canonical(),
    decreases pre.len(),
{
    if pre.len() != 0 && post.len() != 0 {
        lemma_verdict_is_canonical(program_id, pre.drop_last(), pre_total, post.drop_last());
    }
}

/// Whether two byte strings are equal.
pub fn same_bytes(a: &[u8], b: &[u8]) -> (equal: bool)
    ensures
        equal == (a@ == b@),
{
    if a.len() != b.len() {
        return false;
    }
    let mut i: usize = 0;
    while i < a.len()
        invariant
            a@.len() == b@.len(),
            i <= a@.len(),
            forall|k: int| 0 <= k < i ==> a@[k] == b@[k],
        decreases a@.len() - i,
    {
        if a[i] != b[i] {
            return false;
        }
        i += 1;
    }
    assert(a@ =~= b@);
    true
}

/// Holds one account, as the program left it, against what it was before.
pub fn verify_instruction(
    program_id: &Pubkey,
    pre_program_id: &Pubkey,
    pre_lamports: u64,
    pre_data: &[u8],
    account: &Account,
) -> (verdict: Result<(), InstructionError>)
    ensures
        verdict == account_verdict(
            *program_id,
            (AccountState { owner: *pre_program_id, lamports: pre_lamports, data: pre_data@ }),
            account.state(),
        ),
{
    // The owner is still the same, or the system program has just assigned it.
    if *pre_program_id != account.owner && !system_program::check_id(program_id) {
        return Err(InstructionError::ModifiedProgramId);
    }
    // The balance of an account that the program does not own cannot go down.
    if *program_id != account.owner && pre_lamports > account.lamports {
        return Err(InstructionError::ExternalAccountLamportSpend);
    }
    // The data of an account that the program does not own may not change.
    if *program_id != account.owner && !system_program::check_id(program_id) && !same_bytes(
        pre_data,
        account.data.as_slice(),
    ) {
        return Err(InstructionError::ExternalAccountDataModified);
    }
    Ok(())
}

/// Cuts the payload of a custom error to [`MAX_CUSTOM_ERROR_LEN`] bytes; every
/// other error is returned as it came.
pub fn verify_error(err: InstructionError) -> (canonical: InstructionError)
    ensures
        err.canonicalizes_to(canonical),
        canonical.is_canonical(),
{
    match err {
        InstructionError::CustomError(error) => {
            let mut error = error;
            error.truncate(MAX_CUSTOM_ERROR_LEN);
            InstructionError::CustomError(error)
        },
        e => e,
    }
}

/// The sum of the accounts' balances. It cannot overflow: it is taken in 128
/// bits.
pub fn sum_lamports(accounts: &[&mut Account]) -> (total: u128)
    ensures
        total == total_lamports(states(accounts@)),
{
    let ghost all = states(accounts@);
    let mut total: u128 = 0;
    let mut k: usize = 0;
    while k < accounts.len()
        invariant
            k <= accounts@.len(),
            all == states(accounts@),
            total == total_lamports(all.take(k as int)),
            total <= k * u64::MAX,
        decreases accounts@.len() - k,
    {
        assert(all.take(k + 1).drop_last() =~= all.take(k as int));
        assert(k * u64::MAX + u64::MAX <= usize::MAX * u64::MAX + u64::MAX) by (nonlinear_arith)
            requires
                k <= usize::MAX,
        ;
        total = total + accounts[k].lamports as u128;
        k += 1;
    }
    assert(all.take(k as int) =~= all);
    total
}

/// A record of each account's owner, balance and data.
pub fn snapshot(accounts: &[&mut Account]) -> (pre: Vec<PreAccount>)
    ensures
        recorded(pre@) == states(accounts@),
{
    let mut pre: Vec<PreAccount> = Vec::new();
    let mut k: usize = 0;
    while k < accounts.len()
        invariant
            k <= accounts@.len(),
            pre@.len() == k,
            forall|j: int| 0 <= j < k ==> (#[trigger] pre@[j])@ == (*accounts@[j]).state(),
        decreases accounts@.len() - k,
    {
        let account = &accounts[k];
        pre.push(
            PreAccount { owner: account.owner, lamports: account.lamports, data: account.data.clone() },
        );
        k += 1;
    }
    assert(recorded(pre@) =~= states(accounts@));
    pre
}

/// What an instruction comes to, given what its program returned and what it
/// left of the accounts.
///
/// An error of the program is passed on, a custom one cut to the bound.
/// Otherwise each account is held against its record, in order, and then the
/// sum of the balances against `pre_total`.
pub fn instruction_outcome(
    program_id: &Pubkey,
    processed: Result<(), InstructionError>,
    pre_total: u128,
    pre_accounts: &[PreAccount],
    program_accounts: &[&mut Account],
) -> (outcome: Result<(), InstructionError>)
    requires
        pre_accounts@.len() == program_accounts@.len(),
    ensures
        processed matches Err(e) ==> outcome matches Err(canonical) && e.canonicalizes_to(canonical)
            && canonical.is_canonical(),
        processed is Ok ==> outcome == instruction_verdict(
            *program_id,
            recorded(pre_accounts@),
            pre_total as int,
            states(program_accounts@),
        ),
{
    match processed {
        Err(e) => {
            return Err(verify_error(e));
        },
        Ok(()) => {},
    }
    let ghost pre = recorded(pre_accounts@);
    let ghost post = states(program_accounts@);
    let mut k: usize = 0;
    while k < pre_accounts.len()
        invariant
            processed is Ok,
            k <= pre_accounts@.len(),
            pre_accounts@.len() == program_accounts@.len(),
            pre == recorded(pre_accounts@),
            post == states(program_accounts@),
            accounts_verdict(*program_id, pre.take(k as int), post.take(k as int)) is Ok,
        decreases pre_accounts@.len() - k,
    {
        let before = &pre_accounts[k];
        let verdict = verify_instruction(
            program_id,
            &before.owner,
            before.lamports,
            before.data.as_slice(),
            &*program_accounts[k],
        );
        proof {
            assert(pre.take(k + 1).drop_last() =~= pre.take(k as int));
            assert(post.take(k + 1).drop_last() =~= post.take(k as int));
            assert(pre.take(k + 1).last() == pre_accounts@[k as int]@);
            assert(post.take(k + 1).last() == (*program_accounts@[k as int]).state());
            assert(verdict == accounts_verdict(*program_id, pre.take(k + 1), post.take(k + 1)));
            if verdict is Err {
                lemma_verdict_of_prefix(*program_id, pre, post, k + 1);
            }
        }
        if verdict.is_err() {
            return verdict;
        }
        k += 1;
    }
    proof {
        assert(pre.take(k as int) =~= pre);
        assert(post.take(k as int) =~= post);
    }
    // The sum of the lamports in all the accounts cannot change.
    let post_total = sum_lamports(program_accounts);
    if pre_total != post_total {
        return Err(InstructionError::UnbalancedInstruction);
    }
    Ok(())
}

} // verus!
