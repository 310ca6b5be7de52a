//! The dispatcher registry and the instruction executor.

use crate::account::{create_keyed_accounts, Account, KeyedAccount};
use crate::keys::{is_system_program, same_key};
use crate::laws::{law_transaction_conserves_ledger, ledger_total};
use crate::effects::{
    instruction_accepted, is_history, subset_states, touches_only, transaction_accepted,
    transaction_failed_at,
};
use crate::instruction::InstructionError;
use crate::rules::{
    instruction_outcome, instruction_verdict, lemma_verdict_is_canonical, recorded, snapshot,
    states, sum_lamports, total_lamports, AccountState,
};
use crate::subset::{each_mut, get_subset_unchecked_mut, has_repeated_index};
use crate::transaction::{Transaction, TransactionError};
use solana_sdk::pubkey::Pubkey;
use solana_sdk::system_program;
use vstd::prelude::*;

verus! {

/// The entry point of a program.
///
/// A program is given its own identifier, the accounts of the instruction,
/// the instruction's data and the tick height, and changes the accounts in
/// place. Nothing is assumed of what it does: the runtime holds the accounts
/// against the rules when it returns.
pub trait InstructionProcessor {
    fn process_instruction(
        &self,
        program_id: &Pubkey,
        keyed_accounts: &mut [KeyedAccount],
        data: &[u8],
        tick_height: u64,
    ) -> Result<(), InstructionError>;
}

/// The accounts of an instruction as keyed accounts, each with the key that
/// the transaction gives it; it is a signer if its key is among those that
/// the transaction starts with, one to a signature.
///
/// Each keyed account borrows its account from `program_accounts`, whose
/// references stay on the places they were on.
pub fn keyed_program_accounts<'b, 'a>(
    tx: &'b Transaction,
    instruction_index: usize,
    program_accounts: &'b mut [&'a mut Account],
) -> (keyed: Vec<KeyedAccount<'b>>)
    requires
        tx.instruction_in_bounds(instruction_index as int),
        old(program_accounts)@.len() == tx.instructions@[instruction_index as int].accounts@.len(),
    ensures
        keyed@.len() == old(program_accounts)@.len(),
        final(program_accounts)@.len() == old(program_accounts)@.len(),
        forall|k: int|
            0 <= k < keyed@.len() ==> {
                let index = tx.instructions@[instruction_index as int].accounts@[k];
                &&& *(#[trigger] keyed@[k]).key == tx.account_keys@[index as int]
                &&& keyed@[k].is_signer == ((index as int) < tx.signatures@.len())
                &&& *keyed@[k].account == *old(program_accounts)@[k]
                &&& *final(program_accounts)@[k] == *final(keyed@[k].account)
                &&& *final(final(program_accounts)@[k]) == *final(old(program_accounts)@[k])
            },
{
    let instruction = &tx.instructions[instruction_index];
    let ghost before = program_accounts@;
    let ghost after = final(program_accounts)@;
    let mut slots = each_mut(program_accounts);
    let ghost all = slots@;
    let mut keyed: Vec<KeyedAccount<'b>> = Vec::new();
    let mut k: usize = 0;
    while k < slots.len()
        invariant
            k <= slots@.len(),
            slots@.len() == all.len(),
            all.len() == instruction.accounts@.len(),
            *instruction == tx.instructions@[instruction_index as int],
            tx.instruction_in_bounds(instruction_index as int),
            keyed@.len() == k,
            forall|j: int| k <= j < slots@.len() ==> #[trigger] slots@[j] == all[j],
            forall|j: int| 0 <= j < all.len() ==> (#[trigger] all[j]) is Some,
            forall|j: int|
                0 <= j < k ==> {
                    let index = instruction.accounts@[j];
                    &&& *(#[trigger] keyed@[j]).key == tx.account_keys@[index as int]
                    &&& keyed@[j].is_signer == ((index as int) < tx.signatures@.len())
                    &&& *keyed@[j].account == **(all[j]->0)
                    &&& **final(all[j]->0) == *final(keyed@[j].account)
                    &&& *final(*final(all[j]->0)) == *final(*(all[j]->0))
                },
        decreases slots@.len() - k,
    {
        let index = instruction.accounts[k] as usize;
        let taken = slots[k].take();
        let outer: &'b mut &'a mut Account = taken.unwrap();
        let account: &'b mut Account = &mut **outer;
        let ghost old_keyed = keyed@;
        let entry = KeyedAccount::new(&tx.account_keys[index], index < tx.signatures.len(), account);
        keyed.push(entry);
        assert(forall|j: int| 0 <= j < k ==> keyed@[j] == old_keyed[j]);
        k += 1;
    }
    assert forall|j: int| 0 <= j < keyed@.len() implies {
        let index = tx.instructions@[instruction_index as int].accounts@[j];
        &&& *(#[trigger] keyed@[j]).key == tx.account_keys@[index as int]
        &&& keyed@[j].is_signer == ((index as int) < tx.signatures@.len())
        &&& *keyed@[j].account == *before[j]
        &&& *after[j] == *final(keyed@[j].account)
        &&& *final(after[j]) == *final(before[j])
    } by {
        assert(all[j] is Some);
    }
    keyed
}

/// The keyed accounts that the program of an instruction is shown: those of
/// the loader chain, none a signer, and then those of the instruction.
pub fn instruction_keyed_accounts<'b, 'a>(
    tx: &'b Transaction,
    instruction_index: usize,
    executable_accounts: &'b mut [(Pubkey, Account)],
    program_accounts: &'b mut [&'a mut Account],
) -> (keyed: Vec<KeyedAccount<'b>>)
    requires
        tx.instruction_in_bounds(instruction_index as int),
        old(program_accounts)@.len() == tx.instructions@[instruction_index as int].accounts@.len(),
    ensures
        keyed@.len() == old(executable_accounts)@.len() + old(program_accounts)@.len(),
        final(executable_accounts)@.len() == old(executable_accounts)@.len(),
        final(program_accounts)@.len() == old(program_accounts)@.len(),
        forall|k: int|
            0 <= k < old(executable_accounts)@.len() ==> {
                &&& *(#[trigger] keyed@[k]).key == old(executable_accounts)@[k].0
                &&& !keyed@[k].is_signer
                &&& *keyed@[k].account == old(executable_accounts)@[k].1
                &&& final(executable_accounts)@[k] == (
                    old(executable_accounts)@[k].0,
                    *final(keyed@[k].account),
                )
            },
        forall|k: int|
            0 <= k < old(program_accounts)@.len() ==> {
                let index = tx.instructions@[instruction_index as int].accounts@[k];
                let entry = keyed@[old(executable_accounts)@.len() + k];
                &&& *entry.key == tx.account_keys@[index as int]
                &&& entry.is_signer == ((index as int) < tx.signatures@.len())
                &&& *entry.account == *(#[trigger] old(program_accounts)@[k])
                &&& *final(program_accounts)@[k] == *final(entry.account)
                &&& *final(final(program_accounts)@[k]) == *final(old(program_accounts)@[k])
            },
{
    let mut keyed_accounts = create_keyed_accounts(executable_accounts);
    let mut keyed_accounts2 = keyed_program_accounts(tx, instruction_index, program_accounts);
    let ghost loaders = keyed_accounts@;
    let ghost programs = keyed_accounts2@;
    keyed_accounts.append(&mut keyed_accounts2);
    proof {
        assert forall|k: int| 0 <= k < loaders.len() implies #[trigger] keyed_accounts@[k]
            == loaders[k] by {}
        assert forall|k: int| 0 <= k < programs.len() implies keyed_accounts@[loaders.len() + k]
            == #[trigger] programs[k] by {}
    }
    keyed_accounts
}

/// `keyed` are the keyed accounts of an instruction: those of the loader
/// chain, none a signer, and then those of the instruction, each with the key
/// that the transaction gives it and with its account as it is.
pub open spec fn shows_accounts(
    tx: Transaction,
    instruction_index: int,
    executable_accounts: Seq<(Pubkey, Account)>,
    program_accounts: Seq<&mut Account>,
    keyed: Seq<KeyedAccount>,
) -> bool {
    &&& keyed.len() == executable_accounts.len() + program_accounts.len()
    &&& forall|k: int|
        0 <= k < executable_accounts.len() ==> {
            &&& *(#[trigger] keyed[k]).key == executable_accounts[k].0
            &&& !keyed[k].is_signer
            &&& *keyed[k].account == executable_accounts[k].1
        }
    &&& forall|k: int|
        executable_accounts.len() <= k < keyed.len() ==> {
            let place = k - executable_accounts.len();
            let index = tx.instructions@[instruction_index].accounts@[place];
            &&& *(#[trigger] keyed[k]).key == tx.account_keys@[index as int]
            &&& keyed[k].is_signer == ((index as int) < tx.signatures@.len())
            &&& *keyed[k].account == *program_accounts[place]
        }
}

/// `processed` is what `program` returned when it was called for an
/// instruction: with the identifier that the instruction names, the keyed
/// accounts `shown`, the instruction's data and the tick height.
pub open spec fn returned_by<P: InstructionProcessor>(
    program: P,
    tx: Transaction,
    instruction_index: int,
    shown: Seq<KeyedAccount>,
    tick_height: u64,
    processed: Result<(), InstructionError>,
) -> bool {
    exists|keyed_accounts: &mut [KeyedAccount], data: &[u8]|
        {
            &&& keyed_accounts@ == shown
            &&& data@ == tx.instructions@[instruction_index].data@
            &&& #[trigger] call_ensures(
                P::process_instruction,
                (&program, &tx.program_id_of(instruction_index), keyed_accounts, data, tick_height),
                processed,
            )
        }
}

/// The programs that the runtime runs itself, each under its identifier, and
/// the loader that runs every other.
pub struct Runtime<P> {
    instruction_processors: Vec<(Pubkey, P)>,
    native_loader: P,
}

impl<P: InstructionProcessor> Runtime<P> {
    /// The registry: identifiers and their programs, in the order in which
    /// they were added.
    pub closed spec fn registered(self) -> Seq<(Pubkey, P)> {
        self.instruction_processors@
    }

    /// The loader that runs a program which the registry does not hold.
    pub closed spec fn fallback(self) -> P {
        self.native_loader
    }

    /// The registry holds a program under this identifier.
    pub open spec fn is_registered(self, program_id: Pubkey) -> bool {
        exists|i: int|
            0 <= i < self.registered().len() && same_key(
                (#[trigger] self.registered()[i]).0,
                program_id,
            )
    }

    /// Entry `i` is the first of the registry under this identifier.
    pub open spec fn is_first_match(self, program_id: Pubkey, i: int) -> bool {
        &&& 0 <= i < self.registered().len()
        &&& same_key(self.registered()[i].0, program_id)
        &&& forall|j: int| 0 <= j < i ==> !same_key((#[trigger] self.registered()[j]).0, program_id)
    }

    /// A runtime whose registry holds the system program and nothing else.
    pub fn new(system_program: P, native_loader: P) -> (runtime: Self)
        ensures
            runtime.registered().len() == 1,
            is_system_program(runtime.registered()[0].0),
            runtime.registered()[0].1 == system_program,
            runtime.fallback() == native_loader,
    {
        let mut instruction_processors: Vec<(Pubkey, P)> = Vec::new();
        instruction_processors.push((system_program::id(), system_program));
        Runtime { instruction_processors, native_loader }
    }

    /// Adds a program to the end of the registry, to run ahead of the loader.
    pub fn add_instruction_processor(&mut self, program_id: Pubkey, process_instruction: P)
        ensures
            final(self).registered() == old(self).registered().push(
                (program_id, process_instruction),
            ),
            final(self).fallback() == old(self).fallback(),
    {
        self.instruction_processors.push((program_id, process_instruction));
    }

    /// The place in the registry of the first program under this identifier.
    pub fn resolve(&self, program_id: &Pubkey) -> (found: Option<usize>)
        ensures
            match found {
                Some(i) => self.is_first_match(*program_id, i as int),
                None => !self.is_registered(*program_id),
            },
    {
        let mut i: usize = 0;
        while i < self.instruction_processors.len()
            invariant
                i <= self.registered().len(),
                forall|j: int|
                    0 <= j < i ==> !same_key((#[trigger] self.registered()[j]).0, *program_id),
            decreases self.registered().len() - i,
        {
            if self.instruction_processors[i].0 == *program_id {
                return Some(i);
            }
            i += 1;
        }
        None
    }

    /// Where the program of an instruction can be called: a program of the
    /// registry is not given the first of the instruction's keyed accounts, so
    /// there must be one.
    pub open spec fn can_dispatch(
        self,
        tx: Transaction,
        instruction_index: int,
        executable_accounts: int,
    ) -> bool {
        self.is_registered(tx.program_id_of(instruction_index)) ==> executable_accounts
            + tx.instructions@[instruction_index].accounts@.len() >= 1
    }

    /// Calls the entry point of the instruction's program, and returns what
    /// it returns.
    ///
    /// The program sees the accounts of the loader chain, none a signer, and
    /// then the accounts of the instruction. A program of the registry is
    /// called without the first of them; a program that the registry does not
    /// hold is run by the loader, which is given them all. What the program
    /// writes to a keyed account is written to the account itself.
    fn process_instruction(
        &self,
        tx: &Transaction,
        instruction_index: usize,
        executable_accounts: &mut [(Pubkey, Account)],
        program_accounts: &mut [&mut Account],
        tick_height: u64,
    ) -> (processed: Result<(), InstructionError>)
        requires
            tx.instruction_in_bounds(instruction_index as int),
            old(program_accounts)@.len() == tx.instructions@[instruction_index as int].accounts@.len(),
            self.can_dispatch(*tx, instruction_index as int, old(executable_accounts)@.len() as int),
        ensures
            final(executable_accounts)@.len() == old(executable_accounts)@.len(),
            forall|k: int|
                0 <= k < old(executable_accounts)@.len()
                    ==> (#[trigger] final(executable_accounts)@[k]).0
                    == old(executable_accounts)@[k].0,
            final(program_accounts)@.len() == old(program_accounts)@.len(),
            forall|k: int|
                0 <= k < old(program_accounts)@.len()
                    ==> *final(#[trigger] final(program_accounts)@[k])
                    == *final(old(program_accounts)@[k]),
            exists|keyed: Seq<KeyedAccount>|
                {
                    &&& #[trigger] shows_accounts(
                        *tx,
                        instruction_index as int,
                        old(executable_accounts)@,
                        old(program_accounts)@,
                        keyed,
                    )
                    &&& forall|k: int|
                        0 <= k < old(executable_accounts)@.len()
                            ==> (#[trigger] final(executable_accounts)@[k]).1
                            == *final(keyed[k].account)
                    &&& forall|k: int|
                        0 <= k < old(program_accounts)@.len()
                            ==> *(#[trigger] final(program_accounts)@[k])
                            == *final(keyed[old(executable_accounts)@.len() + k].account)
                    &&& forall|i: int|
                        self.is_first_match(tx.program_id_of(instruction_index as int), i)
                            ==> returned_by(
                            (#[trigger] self.registered()[i]).1,
                            *tx,
                            instruction_index as int,
                            keyed.subrange(1, keyed.len() as int),
                            tick_height,
                            processed,
                        )
                    &&& !self.is_registered(tx.program_id_of(instruction_index as int))
                        ==> returned_by(
                        self.fallback(),
                        *tx,
                        instruction_index as int,
                        keyed,
                        tick_height,
                        processed,
                    )
                },
    {
        let program_id = tx.program_id(instruction_index);
        let ghost loaders_before = executable_accounts@;
        let ghost loaders_after = final(executable_accounts)@;
        let ghost programs_before = program_accounts@;
        let ghost programs_after = final(program_accounts)@;
        let mut keyed_accounts = instruction_keyed_accounts(
            tx,
            instruction_index,
            executable_accounts,
            program_accounts,
        );
        let ghost keyed = keyed_accounts@;
        proof {
            // Whatever becomes of the keyed accounts, the keys of the loader
            // chain stay, and each reference stays on its place.
            assert forall|k: int| 0 <= k < loaders_before.len() implies {
                &&& (#[trigger] loaders_after[k]).0 == loaders_before[k].0
                &&& loaders_after[k].1 == *final(keyed[k].account)
            } by {
                assert(*keyed[k].key == loaders_before[k].0);
            }
            assert forall|k: int| 0 <= k < programs_before.len() implies {
                &&& *final(#[trigger] programs_after[k]) == *final(programs_before[k])
                &&& *programs_after[k] == *final(keyed[loaders_before.len() + k].account)
            } by {
                assert(*keyed[loaders_before.len() + k].account == *programs_before[k]);
            }
            // The keyed accounts are those of the instruction.
            assert forall|k: int| loaders_before.len() <= k < keyed.len() implies {
                let place = k - loaders_before.len();
                let index = tx.instructions@[instruction_index as int].accounts@[place];
                &&& *(#[trigger] keyed[k]).key == tx.account_keys@[index as int]
                &&& keyed[k].is_signer == ((index as int) < tx.signatures@.len())
                &&& *keyed[k].account == *programs_before[place]
            } by {
                let place = k - loaders_before.len();
                assert(*keyed[loaders_before.len() + place].account == *programs_before[place]);
            }
            assert(shows_accounts(
                *tx,
                instruction_index as int,
                loaders_before,
                programs_before,
                keyed,
            ));
        }
        let data = tx.instructions[instruction_index].data.as_slice();
        match self.resolve(program_id) {
            Some(i) => {
                let (_, rest) = keyed_accounts.as_mut_slice().split_at_mut(1);
                let program = &self.instruction_processors[i].1;
                assert(*program == self.registered()[i as int].1);
                let processed = program.process_instruction(program_id, rest, data, tick_height);
                proof {
                    assert(returned_by(
                        self.registered()[i as int].1,
                        *tx,
                        instruction_index as int,
                        keyed.subrange(1, keyed.len() as int),
                        tick_height,
                        processed,
                    ));
                    // The first match is the only first match.
                    assert forall|j: int|
                        self.is_first_match(
                            tx.program_id_of(instruction_index as int),
                            j,
                        ) implies j == i by {
                        if j < i {
                            assert(!same_key(self.registered()[j].0, *program_id));
                        }
                        if i < j {
                            assert(!same_key(self.registered()[i as int].0, *program_id));
                        }
                    }
                }
                processed
            },
            None => {
                let program = &self.native_loader;
                assert(*program == self.fallback());
                let processed = program.process_instruction(
                    program_id,
                    keyed_accounts.as_mut_slice(),
                    data,
                    tick_height,
                );
                proof {
                    assert(returned_by(
                        self.fallback(),
                        *tx,
                        instruction_index as int,
                        keyed,
                        tick_height,
                        processed,
                    ));
                }
                processed
            },
        }
    }

    /// Executes an instruction: calls its program, and then holds what the
    /// program did to the accounts against the rules.
    ///
    /// Whatever the program does, success means that the rules were kept, and
    /// an error that comes out is canonical.
    pub fn execute_instruction(
        &self,
        tx: &Transaction,
        instruction_index: usize,
        executable_accounts: &mut [(Pubkey, Account)],
        program_accounts: &mut [&mut Account],
        tick_height: u64,
    ) -> (outcome: Result<(), InstructionError>)
        requires
            tx.instruction_in_bounds(instruction_index as int),
            old(program_accounts)@.len() == tx.instructions@[instruction_index as int].accounts@.len(),
            self.can_dispatch(*tx, instruction_index as int, old(executable_accounts)@.len() as int),
        ensures
            final(executable_accounts)@.len() == old(executable_accounts)@.len(),
            forall|k: int|
                0 <= k < old(executable_accounts)@.len()
                    ==> (#[trigger] final(executable_accounts)@[k]).0
                    == old(executable_accounts)@[k].0,
            final(program_accounts)@.len() == old(program_accounts)@.len(),
            forall|k: int|
                0 <= k < old(program_accounts)@.len()
                    ==> *final(#[trigger] final(program_accounts)@[k])
                    == *final(old(program_accounts)@[k]),
            outcome is Ok ==> instruction_verdict(
                tx.program_id_of(instruction_index as int),
                states(old(program_accounts)@),
                total_lamports(states(old(program_accounts)@)),
                states(final(program_accounts)@),
            ) is Ok,
            outcome is Ok ==> total_lamports(states(final(program_accounts)@)) == total_lamports(
                states(old(program_accounts)@),
            ),
            outcome matches Err(e) ==> e.is_canonical(),
    {
        let program_id = tx.program_id(instruction_index);
        let pre_total = sum_lamports(program_accounts);
        let pre_data = snapshot(program_accounts);
        let processed = self.process_instruction(
            tx,
            instruction_index,
            executable_accounts,
            program_accounts,
            tick_height,
        );
        proof {
            lemma_verdict_is_canonical(
                *program_id,
                recorded(pre_data@),
                pre_total as int,
                states(program_accounts@),
            );
        }
        instruction_outcome(program_id, processed, pre_total, pre_data.as_slice(), program_accounts)
    }

    /// Instruction `i` can be executed on `accounts` accounts with these
    /// loader chains: what it refers to exists, and its program can be called.
    pub open spec fn can_execute(
        self,
        tx: Transaction,
        i: int,
        loaders: Seq<Vec<(Pubkey, Account)>>,
        accounts: int,
    ) -> bool {
        let instruction = tx.instructions@[i];
        &&& tx.instruction_in_bounds(i)
        &&& (instruction.program_ids_index as int) < loaders.len()
        &&& forall|k: int|
            0 <= k < instruction.accounts@.len() ==> (#[trigger] instruction.accounts@[k] as int)
                < accounts
        &&& self.can_dispatch(tx, i, loaders[instruction.program_ids_index as int]@.len() as int)
    }

    /// Executes a transaction: its instructions in order, up to the first
    /// that fails.
    ///
    /// The accounts are changed in place. After a failure they are as the
    /// failed instruction left them: to commit nothing of a failed
    /// transaction, the caller executes it on a copy.
    pub fn execute_transaction(
        &self,
        tx: &Transaction,
        loaders: &mut [Vec<(Pubkey, Account)>],
        tx_accounts: &mut [Account],
        tick_height: u64,
    ) -> (outcome: Result<(), TransactionError>)
        requires
            forall|i: int|
                0 <= i < tx.instructions@.len() ==> #[trigger] self.can_execute(
                    *tx,
                    i,
                    old(loaders)@,
                    old(tx_accounts)@.len() as int,
                ),
        ensures
            final(tx_accounts)@.len() == old(tx_accounts)@.len(),
            final(loaders)@.len() == old(loaders)@.len(),
            forall|slot: int|
                0 <= slot < old(loaders)@.len() ==> (#[trigger] final(loaders)@[slot])@.len()
                    == old(loaders)@[slot]@.len(),
            tx.instructions@.len() == 0 ==> outcome is Ok,
            outcome is Ok ==> transaction_accepted(*tx, old(tx_accounts)@, final(tx_accounts)@),
            outcome is Ok ==> ledger_total(final(tx_accounts)@) == ledger_total(old(tx_accounts)@),
            outcome matches Err(TransactionError::InstructionError(index, kind)) ==> exists|
                failed: int,
            |
                index == #[verifier::truncate] (failed as u8) && #[trigger] transaction_failed_at(
                    *tx,
                    failed,
                    kind,
                    old(tx_accounts)@,
                    final(tx_accounts)@,
                ),
    {
        let ghost start = tx_accounts@;
        let ghost chains = loaders@;
        let ghost mut history: Seq<Seq<Account>> = seq![tx_accounts@];
        let mut instruction_index: usize = 0;
        while instruction_index < tx.instructions.len()
            invariant
                instruction_index <= tx.instructions@.len(),
                tx_accounts@.len() == start.len(),
                start == old(tx_accounts)@,
                chains == old(loaders)@,
                loaders@.len() == chains.len(),
                forall|slot: int|
                    0 <= slot < chains.len() ==> (#[trigger] loaders@[slot])@.len()
                        == chains[slot]@.len(),
                forall|i: int|
                    0 <= i < tx.instructions@.len() ==> #[trigger] self.can_execute(
                        *tx,
                        i,
                        chains,
                        start.len() as int,
                    ),
                is_history(*tx, instruction_index as int, start, history),
                history.last() == tx_accounts@,
            decreases tx.instructions@.len() - instruction_index,
        {
            let instruction = &tx.instructions[instruction_index];
            let ghost indexes = instruction.accounts@;
            let ghost before = tx_accounts@;
            assert(self.can_execute(*tx, instruction_index as int, chains, start.len() as int));
            let executable_accounts = &mut loaders[instruction.program_ids_index as usize];
            let ghost mut pre: Seq<AccountState> = Seq::empty();
            let ghost mut post: Seq<AccountState> = Seq::empty();
            let result = match get_subset_unchecked_mut(tx_accounts, instruction.accounts.as_slice()) {
                Err(err) => Err(err),
                Ok(program_accounts) => {
                    let mut program_accounts = program_accounts;
                    let ghost handed = program_accounts@;
                    proof {
                        pre = states(handed);
                        assert(pre =~= subset_states(before, indexes));
                    }
                    let executed = self.execute_instruction(
                        tx,
                        instruction_index,
                        executable_accounts.as_mut_slice(),
                        program_accounts.as_mut_slice(),
                        tick_height,
                    );
                    proof {
                        // The references are dropped here: each account stays
                        // as its reference holds it now.
                        let kept = program_accounts@;
                        post = states(kept);
                        assert(has_resolved(program_accounts));
                        assert forall|k: int| 0 <= k < kept.len() implies #[trigger] post[k]
                            == (*final(handed[k])).state() by {
                            assert(has_resolved(kept[k]));
                            assert(*final(kept[k]) == *final(handed[k]));
                        }
                    }
                    executed
                },
            };
            let ghost after = tx_accounts@;
            proof {
                if !has_repeated_index(indexes) {
                    assert(touches_only(indexes, before, after));
                    assert(post =~= subset_states(after, indexes));
                    if result is Ok {
                        assert(instruction_accepted(*tx, instruction_index as int, before, after));
                    }
                } else {
                    assert(after == before);
                }
            }
            match result {
                Err(err) => {
                    proof {
                        assert(is_history(*tx, instruction_index as int, start, history));
                        assert(transaction_failed_at(
                            *tx,
                            instruction_index as int,
                            err,
                            start,
                            after,
                        ));
                    }
                    return Err(
                        TransactionError::InstructionError(
                            #[verifier::truncate]
                            (instruction_index as u8),
                            err,
                        ),
                    );
                },
                Ok(()) => {},
            }
            proof {
                let longer = history.push(after);
                assert forall|i: int| 0 <= i < instruction_index + 1 implies instruction_accepted(
                    *tx,
                    i,
                    #[trigger] longer[i],
                    longer[i + 1],
                ) by {
                    if i < instruction_index {
                        assert(longer[i] == history[i]);
                        assert(longer[i + 1] == history[i + 1]);
                    }
                }
                history = longer;
            }
            instruction_index += 1;
        }
        proof {
            assert(is_history(*tx, tx.instructions@.len() as int, start, history));
            assert forall|i: int, k: int|
                0 <= i < tx.instructions@.len() && 0 <= k < tx.instructions@[i].accounts@.len()
                implies (#[trigger] tx.instructions@[i].accounts@[k] as int) < start.len() by {
                assert(self.can_execute(*tx, i, chains, start.len() as int));
            }
            law_transaction_conserves_ledger(*tx, start, tx_accounts@);
        }
        Ok(())
    }
}

} // verus!
