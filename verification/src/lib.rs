//! The transaction execution core of the runtime.
//!
//! A transaction arrives with its accounts already loaded. The core hands each
//! instruction to the program that it names, and accepts what the program did
//! to the accounts only where the accounting and ownership rules still hold.

pub mod account;
pub mod effects;
pub mod instruction;
pub mod keys;
pub mod laws;
pub mod rules;
pub mod runtime;
pub mod subset;
pub mod transaction;

pub use account::{create_keyed_accounts, Account, KeyedAccount};
pub use instruction::{CompiledInstruction, InstructionError};
pub use rules::{
    instruction_outcome, snapshot, sum_lamports, verify_error, verify_instruction, PreAccount,
};
pub use runtime::{
    instruction_keyed_accounts, keyed_program_accounts, InstructionProcessor, Runtime,
};
pub use subset::{get_subset_unchecked_mut, has_duplicates};
pub use transaction::{Transaction, TransactionError};
