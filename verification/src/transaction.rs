//! Transactions: instructions that are committed together or not at all.

use crate::instruction::{CompiledInstruction, InstructionError};
use solana_sdk::pubkey::Pubkey;
use solana_sdk::signature::Signature;
use vstd::prelude::*;

verus! {

/// Why a transaction was rejected.
#[derive(Clone, Debug, PartialEq, Eq)]
pub enum TransactionError {
    /// The instruction at this index failed, for this reason.
    InstructionError(u8, InstructionError),
}

/// An ordered list of instructions over a shared list of accounts.
#[derive(Debug, PartialEq, Eq)]
pub struct Transaction {
    /// The signatures, by the keys that `account_keys` starts with.
    pub signatures: Vec<Signature>,
    /// The key of each account that the transaction uses.
    pub account_keys: Vec<Pubkey>,
    /// The identifier of each program that the transaction invokes.
    pub program_ids: Vec<Pubkey>,
    /// The instructions, in the order in which they run.
    pub instructions: Vec<CompiledInstruction>,
}

impl Transaction {
    /// The instruction exists, and what it refers to exists: its program
    /// identifier, and the key of each of its accounts.
    pub open spec fn instruction_in_bounds(self, instruction_index: int) -> bool {
        &&& 0 <= instruction_index < self.instructions@.len()
        &&& (self.instructions@[instruction_index].program_ids_index as int)
            < self.program_ids@.len()
        &&& forall|k: int|
            0 <= k < self.instructions@[instruction_index].accounts@.len() ==> (
            #[trigger] self.instructions@[instruction_index].accounts@[k] as int)
                < self.account_keys@.len()
    }

    /// The identifier of the program that the instruction invokes.
    pub open spec fn program_id_of(self, instruction_index: int) -> Pubkey {
        self.program_ids@[self.instructions@[instruction_index].program_ids_index as int]
    }

    /// The identifier of the program that the instruction invokes.
    pub fn program_id(&self, instruction_index: usize) -> (id: &Pubkey)
        requires
            instruction_index < self.instructions@.len(),
            (self.instructions@[instruction_index as int].program_ids_index as int)
                < self.program_ids@.len(),
        ensures
            *id == self.program_id_of(instruction_index as int),
    {
        let instruction = &self.instructions[instruction_index];
        &self.program_ids[instruction.program_ids_index as usize]
    }
}

} // verus!
