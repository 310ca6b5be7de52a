//! Instructions and the reasons for which one is rejected.

use vstd::prelude::*;

verus! {

/// The longest payload that a custom error keeps, in bytes.
pub const MAX_CUSTOM_ERROR_LEN: usize = 32;

/// Why the runtime rejected an instruction.
#[derive(Clone, Debug, PartialEq, Eq)]
pub enum InstructionError {
    /// The program returned an error that it did not describe further.
    GenericError,
    /// The arguments given to the program were invalid.
    InvalidArgument,
    /// The instruction's data was invalid.
    InvalidInstructionData,
    /// An account's data was invalid.
    InvalidAccountData,
    /// An account's data was too small.
    AccountDataTooSmall,
    /// An account did not have the expected owner.
    IncorrectProgramId,
    /// A signature was required and not found.
    MissingRequiredSignature,
    /// An account that is already initialized was initialized again.
    AccountAlreadyInitialized,
    /// An account was used before it was initialized.
    UninitializedAccount,
    /// The balances of the instruction's accounts do not add up to what they
    /// added up to before the instruction.
    UnbalancedInstruction,
    /// A program other than the system program changed an account's owner.
    ModifiedProgramId,
    /// A program spent the balance of an account that it does not own.
    ExternalAccountLamportSpend,
    /// A program changed the data of an account that it does not own.
    ExternalAccountDataModified,
    /// An instruction names the same account twice.
    DuplicateAccountIndex,
    /// An error of the program's own, as bytes that only the program reads.
    CustomError(Vec<u8>),
}

impl InstructionError {
    /// The payload of a custom error; `None` for every other kind.
    pub open spec fn custom_payload(self) -> Option<Seq<u8>> {
        match self {
            InstructionError::CustomError(bytes) => Some(bytes@),
            _ => None,
        }
    }

    /// A custom error is canonical when its payload is within the bound; every
    /// other kind is.
    pub open spec fn is_canonical(self) -> bool {
        match self {
            InstructionError::CustomError(bytes) => bytes@.len() <= MAX_CUSTOM_ERROR_LEN,
            _ => true,
        }
    }

    /// `canonical` is `self` with a custom payload cut to its first
    /// [`MAX_CUSTOM_ERROR_LEN`] bytes, and `self` itself for every other kind.
    pub open spec fn canonicalizes_to(self, canonical: InstructionError) -> bool {
        match self {
            InstructionError::CustomError(bytes) => {
                &&& canonical matches InstructionError::CustomError(kept)
                &&& kept@ =~= bytes@.take(
                    if bytes@.len() <= MAX_CUSTOM_ERROR_LEN {
                        bytes@.len() as int
                    } else {
                        MAX_CUSTOM_ERROR_LEN as int
                    },
                )
            },
            _ => canonical == self,
        }
    }
}

/// One program invocation inside a transaction.
#[derive(Clone, Debug, PartialEq, Eq)]
pub struct CompiledInstruction {
    /// Which of the transaction's program identifiers, and which loader slot,
    /// executes this instruction.
    pub program_ids_index: u8,
    /// Which of the transaction's accounts the program is given, in order.
    pub accounts: Vec<u8>,
    /// The program's input.
    pub data: Vec<u8>,
}

impl CompiledInstruction {
    pub fn new(program_ids_index: u8, data: Vec<u8>, accounts: Vec<u8>) -> (instruction: Self)
        ensures
            instruction.program_ids_index == program_ids_index,
            instruction.data == data,
            instruction.accounts == accounts,
    {
        CompiledInstruction { program_ids_index, accounts, data }
    }
}

} // verus!
