use solana_runtime::{
    create_keyed_accounts, keyed_program_accounts, Account, CompiledInstruction, InstructionError,
    InstructionProcessor, KeyedAccount, Runtime, Transaction, TransactionError,
};
use solana_sdk::pubkey::Pubkey;
use solana_sdk::signature::Signature;
use solana_sdk::system_instruction::SystemInstruction;
use solana_sdk::system_program;
use std::cell::RefCell;
use std::rc::Rc;

/// What a test program does when it is called.
#[derive(Clone)]
enum Behavior {
    /// Carries out a transfer of the system program.
    System,
    /// Makes itself the owner of the first account.
    TakeOwnership,
    /// Moves lamports from the first account to the second.
    Move(u64),
    /// Adds lamports to the first account.
    Mint(u64),
    /// Overwrites the data of the first account.
    Write(Vec<u8>),
    /// Returns this error.
    Fail(InstructionError),
    /// Does nothing.
    Idle,
}

/// One call, as the program saw it.
#[derive(Clone, Debug, PartialEq)]
struct Call {
    program_id: Pubkey,
    accounts: Vec<(Pubkey, bool, u64)>,
    data: Vec<u8>,
    tick_height: u64,
}

type Calls = Rc<RefCell<Vec<Call>>>;

struct Program {
    behavior: Behavior,
    calls: Calls,
}

impl Program {
    fn new(behavior: Behavior) -> (Program, Calls) {
        let calls: Calls = Rc::new(RefCell::new(Vec::new()));
        (Program { behavior, calls: calls.clone() }, calls)
    }

    fn unused() -> Program {
        Program::new(Behavior::Fail(InstructionError::GenericError)).0
    }
}

impl InstructionProcessor for Program {
    fn process_instruction(
        &self,
        program_id: &Pubkey,
        keyed_accounts: &mut [KeyedAccount],
        data: &[u8],
        tick_height: u64,
    ) -> Result<(), InstructionError> {
        self.calls.borrow_mut().push(Call {
            program_id: *program_id,
            accounts: keyed_accounts
                .iter()
                .map(|keyed| (*keyed.unsigned_key(), keyed.signer_key().is_some(), keyed.account.lamports))
                .collect(),
            data: data.to_vec(),
            tick_height,
        });
        match &self.behavior {
            Behavior::System => match bincode::deserialize(data) {
                Ok(SystemInstruction::Transfer { lamports }) => {
                    if keyed_accounts[0].signer_key().is_none() {
                        return Err(InstructionError::MissingRequiredSignature);
                    }
                    if keyed_accounts[0].account.lamports < lamports {
                        return Err(InstructionError::CustomError(vec![1, 0, 0, 0]));
                    }
                    keyed_accounts[0].account.lamports -= lamports;
                    keyed_accounts[1].account.lamports += lamports;
                    Ok(())
                }
                _ => Err(InstructionError::InvalidInstructionData),
            },
            Behavior::TakeOwnership => {
                keyed_accounts[0].account.owner = *program_id;
                Ok(())
            }
            Behavior::Move(lamports) => {
                keyed_accounts[0].account.lamports -= lamports;
                keyed_accounts[1].account.lamports += lamports;
                Ok(())
            }
            Behavior::Mint(lamports) => {
                keyed_accounts[0].account.lamports += lamports;
                Ok(())
            }
            Behavior::Write(bytes) => {
                keyed_accounts[0].account.data = bytes.clone();
                Ok(())
            }
            Behavior::Fail(error) => Err(error.clone()),
            Behavior::Idle => Ok(()),
        }
    }
}

/// A transaction whose instruction `i` invokes `program_ids[i]` on the
/// accounts `accounts[i]`, with one signature.
fn transaction(keys: &[Pubkey], program_ids: &[Pubkey], accounts: &[Vec<u8>]) -> Transaction {
    Transaction {
        signatures: vec![Signature::default()],
        account_keys: keys.to_vec(),
        program_ids: program_ids.to_vec(),
        instructions: accounts
            .iter()
            .enumerate()
            .map(|(i, indexes)| CompiledInstruction::new(i as u8, vec![i as u8], indexes.clone()))
            .collect(),
    }
}

/// A loader chain of one account for each program.
fn loader_chains(program_ids: &[Pubkey]) -> Vec<Vec<(Pubkey, Account)>> {
    program_ids
        .iter()
        .map(|id| {
            let mut account = Account::new(1, 0, id);
            account.executable = true;
            vec![(*id, account)]
        })
        .collect()
}

fn failed(index: u8, kind: InstructionError) -> Result<(), TransactionError> {
    Err(TransactionError::InstructionError(index, kind))
}

#[test]
fn test_system_transfer() {
    let (system, calls) = Program::new(Behavior::System);
    let runtime = Runtime::new(system, Program::unused());
    let alice = Pubkey::new_unique();
    let bob = Pubkey::new_unique();
    let tx = Transaction {
        signatures: vec![Signature::default()],
        account_keys: vec![alice, bob],
        program_ids: vec![system_program::id()],
        instructions: vec![CompiledInstruction::new(
            0,
            bincode::serialize(&SystemInstruction::Transfer { lamports: 50 }).unwrap(),
            vec![0, 1],
        )],
    };
    let mut loaders = loader_chains(&[system_program::id()]);
    let mut accounts = vec![
        Account::new(100, 0, &system_program::id()),
        Account::new(0, 0, &system_program::id()),
    ];
    assert_eq!(runtime.execute_transaction(&tx, &mut loaders, &mut accounts, 0), Ok(()));
    assert_eq!(accounts[0].lamports, 50);
    assert_eq!(accounts[1].lamports, 50);
    assert_eq!(accounts[0].lamports + accounts[1].lamports, 100);
    assert_eq!(calls.borrow().len(), 1);
}

#[test]
fn test_system_transfer_without_signature() {
    let (system, _) = Program::new(Behavior::System);
    let runtime = Runtime::new(system, Program::unused());
    let alice = Pubkey::new_unique();
    let bob = Pubkey::new_unique();
    let tx = Transaction {
        signatures: vec![Signature::default()],
        account_keys: vec![alice, bob],
        program_ids: vec![system_program::id()],
        instructions: vec![CompiledInstruction::new(
            0,
            bincode::serialize(&SystemInstruction::Transfer { lamports: 50 }).unwrap(),
            // Bob pays, and Bob has not signed.
            vec![1, 0],
        )],
    };
    let mut loaders = loader_chains(&[system_program::id()]);
    let mut accounts = vec![
        Account::new(100, 0, &system_program::id()),
        Account::new(70, 0, &system_program::id()),
    ];
    assert_eq!(
        runtime.execute_transaction(&tx, &mut loaders, &mut accounts, 0),
        failed(0, InstructionError::MissingRequiredSignature)
    );
    assert_eq!(accounts[0].lamports, 100);
    assert_eq!(accounts[1].lamports, 70);
}

/// A runtime with `behavior` registered under a new identifier, one
/// instruction of that program on the accounts `indexes`, and its result.
fn run_one(
    behavior: Behavior,
    owners: &dyn Fn(&Pubkey, &Pubkey) -> Vec<Account>,
    indexes: Vec<u8>,
) -> (Result<(), TransactionError>, Vec<Account>, Calls) {
    let mallory = Pubkey::new_unique();
    let nancy = Pubkey::new_unique();
    let (program, calls) = Program::new(behavior);
    let mut runtime = Runtime::new(Program::unused(), Program::unused());
    runtime.add_instruction_processor(mallory, program);
    let mut accounts = owners(&mallory, &nancy);
    let keys: Vec<Pubkey> = accounts.iter().map(|_| Pubkey::new_unique()).collect();
    let tx = transaction(&keys, &[mallory], &[indexes]);
    let mut loaders = loader_chains(&[mallory]);
    let result = runtime.execute_transaction(&tx, &mut loaders, &mut accounts, 0);
    (result, accounts, calls)
}

#[test]
fn test_malicious_owner_change() {
    let (result, _, calls) = run_one(
        Behavior::TakeOwnership,
        &|_, nancy| vec![Account::new(1, 0, nancy)],
        vec![0],
    );
    assert_eq!(result, failed(0, InstructionError::ModifiedProgramId));
    assert_eq!(calls.borrow().len(), 1);
}

#[test]
fn test_external_spend() {
    let (result, _, _) = run_one(
        Behavior::Move(3),
        &|mallory, nancy| vec![Account::new(10, 0, nancy), Account::new(0, 0, mallory)],
        vec![0, 1],
    );
    assert_eq!(result, failed(0, InstructionError::ExternalAccountLamportSpend));
}

#[test]
fn test_own_spend() {
    let (result, accounts, _) = run_one(
        Behavior::Move(3),
        &|mallory, nancy| vec![Account::new(10, 0, mallory), Account::new(0, 0, nancy)],
        vec![0, 1],
    );
    assert_eq!(result, Ok(()));
    assert_eq!(accounts[0].lamports, 7);
    assert_eq!(accounts[1].lamports, 3);
}

#[test]
fn test_unbalanced() {
    let (result, _, _) = run_one(
        Behavior::Mint(1),
        &|mallory, _| vec![Account::new(10, 0, mallory), Account::new(0, 0, mallory)],
        vec![0, 1],
    );
    assert_eq!(result, failed(0, InstructionError::UnbalancedInstruction));
}

#[test]
fn test_external_data_modified() {
    let (result, _, _) = run_one(
        Behavior::Write(vec![1]),
        &|_, nancy| vec![Account::new(10, 1, nancy)],
        vec![0],
    );
    assert_eq!(result, failed(0, InstructionError::ExternalAccountDataModified));
    let (result, accounts, _) = run_one(
        Behavior::Write(vec![1]),
        &|mallory, _| vec![Account::new(10, 1, mallory)],
        vec![0],
    );
    assert_eq!(result, Ok(()));
    assert_eq!(accounts[0].data, vec![1]);
}

#[test]
fn test_oversize_custom_error() {
    let (result, _, _) = run_one(
        Behavior::Fail(InstructionError::CustomError(vec![8; 40])),
        &|mallory, _| vec![Account::new(10, 0, mallory)],
        vec![0],
    );
    assert_eq!(result, failed(0, InstructionError::CustomError(vec![8; 32])));
}

#[test]
fn test_other_errors_pass_through() {
    let (result, _, _) = run_one(
        Behavior::Fail(InstructionError::UninitializedAccount),
        &|mallory, _| vec![Account::new(10, 0, mallory)],
        vec![0],
    );
    assert_eq!(result, failed(0, InstructionError::UninitializedAccount));
}

#[test]
fn test_duplicate_index() {
    let (result, accounts, calls) = run_one(
        Behavior::Mint(1),
        &|mallory, _| (0..4).map(|i| Account::new(i, 0, mallory)).collect(),
        vec![3, 3],
    );
    assert_eq!(result, failed(0, InstructionError::DuplicateAccountIndex));
    assert!(calls.borrow().is_empty());
    assert_eq!(accounts[3].lamports, 3);
}

#[test]
fn test_empty_transaction() {
    let runtime = Runtime::new(Program::unused(), Program::unused());
    let tx = transaction(&[], &[], &[]);
    let mut accounts = vec![Account::new(5, 0, &system_program::id())];
    assert_eq!(runtime.execute_transaction(&tx, &mut [], &mut accounts, 0), Ok(()));
    assert_eq!(accounts[0].lamports, 5);
}

#[test]
fn test_instruction_without_accounts() {
    let (result, accounts, calls) = run_one(
        Behavior::Idle,
        &|mallory, _| vec![Account::new(10, 0, mallory)],
        vec![],
    );
    assert_eq!(result, Ok(()));
    assert_eq!(accounts[0].lamports, 10);
    assert_eq!(calls.borrow()[0].accounts, vec![]);
}

#[test]
fn test_first_failure_stops_the_transaction() {
    let first = Pubkey::new_unique();
    let second = Pubkey::new_unique();
    let third = Pubkey::new_unique();
    let (move_two, first_calls) = Program::new(Behavior::Move(2));
    let (mint, second_calls) = Program::new(Behavior::Mint(5));
    let (move_one, third_calls) = Program::new(Behavior::Move(1));
    let mut runtime = Runtime::new(Program::unused(), Program::unused());
    runtime.add_instruction_processor(first, move_two);
    runtime.add_instruction_processor(second, mint);
    runtime.add_instruction_processor(third, move_one);
    let keys: Vec<Pubkey> = (0..3).map(|_| Pubkey::new_unique()).collect();
    let tx = transaction(&keys, &[first, second, third], &[vec![0, 1], vec![2], vec![0, 1]]);
    let mut loaders = loader_chains(&[first, second, third]);
    let mut accounts = vec![
        Account::new(10, 0, &first),
        Account::new(0, 0, &first),
        Account::new(7, 0, &second),
    ];
    assert_eq!(
        runtime.execute_transaction(&tx, &mut loaders, &mut accounts, 0),
        failed(1, InstructionError::UnbalancedInstruction)
    );
    assert_eq!(first_calls.borrow().len(), 1);
    assert_eq!(second_calls.borrow().len(), 1);
    assert!(third_calls.borrow().is_empty());
    // The first instruction's effect is there, the failed one's too, and
    // nothing of the third.
    assert_eq!(accounts[0].lamports, 8);
    assert_eq!(accounts[1].lamports, 2);
    assert_eq!(accounts[2].lamports, 12);
}

#[test]
fn test_effects_reach_the_next_instruction() {
    let mallory = Pubkey::new_unique();
    let (program, calls) = Program::new(Behavior::Move(4));
    let mut runtime = Runtime::new(Program::unused(), Program::unused());
    runtime.add_instruction_processor(mallory, program);
    let keys: Vec<Pubkey> = (0..3).map(|_| Pubkey::new_unique()).collect();
    let tx = transaction(&keys, &[mallory, mallory], &[vec![0, 1], vec![1, 2]]);
    let mut loaders = loader_chains(&[mallory, mallory]);
    let mut accounts: Vec<Account> = vec![
        Account::new(4, 0, &mallory),
        Account::new(0, 0, &mallory),
        Account::new(0, 0, &mallory),
    ];
    assert_eq!(runtime.execute_transaction(&tx, &mut loaders, &mut accounts, 0), Ok(()));
    assert_eq!(accounts.iter().map(|a| a.lamports).collect::<Vec<u64>>(), vec![0, 0, 4]);
    // All the accounts together hold what they held.
    assert_eq!(accounts.iter().map(|a| a.lamports).sum::<u64>(), 4);
    assert_eq!(calls.borrow()[1].accounts[0].2, 4);
}

#[test]
fn test_registered_program_is_not_given_the_first_keyed_account() {
    let mallory = Pubkey::new_unique();
    let (program, calls) = Program::new(Behavior::Idle);
    let (loader, loader_calls) = Program::new(Behavior::Idle);
    let mut runtime = Runtime::new(Program::unused(), loader);
    runtime.add_instruction_processor(mallory, program);
    let keys: Vec<Pubkey> = (0..3).map(|_| Pubkey::new_unique()).collect();
    let mut tx = transaction(&keys, &[mallory], &[vec![2, 0]]);
    tx.instructions[0].data = vec![1, 2, 3];
    let mut loaders = loader_chains(&[mallory]);
    let mut accounts: Vec<Account> = (0..3).map(|i| Account::new(i + 10, 0, &mallory)).collect();
    assert_eq!(runtime.execute_transaction(&tx, &mut loaders, &mut accounts, 42), Ok(()));
    assert!(loader_calls.borrow().is_empty());
    assert_eq!(
        *calls.borrow(),
        vec![Call {
            program_id: mallory,
            // One signature: the account of the first key is a signer.
            accounts: vec![(keys[2], false, 12), (keys[0], true, 10)],
            data: vec![1, 2, 3],
            tick_height: 42,
        }]
    );
}

#[test]
fn test_unregistered_program_goes_to_the_loader_with_every_account() {
    let mallory = Pubkey::new_unique();
    let (loader, loader_calls) = Program::new(Behavior::Idle);
    let (system, system_calls) = Program::new(Behavior::Idle);
    let runtime = Runtime::new(system, loader);
    let keys: Vec<Pubkey> = (0..2).map(|_| Pubkey::new_unique()).collect();
    let tx = transaction(&keys, &[mallory], &[vec![1]]);
    let mut loaders = loader_chains(&[mallory]);
    let mut accounts: Vec<Account> = (0..2).map(|i| Account::new(i + 10, 0, &mallory)).collect();
    assert_eq!(runtime.execute_transaction(&tx, &mut loaders, &mut accounts, 7), Ok(()));
    assert!(system_calls.borrow().is_empty());
    assert_eq!(
        *loader_calls.borrow(),
        vec![Call {
            program_id: mallory,
            accounts: vec![(mallory, false, 1), (keys[1], false, 11)],
            data: vec![0],
            tick_height: 7,
        }]
    );
}

#[test]
fn test_loader_is_held_to_the_rules_too() {
    let mallory = Pubkey::new_unique();
    // The loader's first keyed account is the program's own: minting there
    // goes unseen, the instruction's accounts are what is summed.
    let (loader, _) = Program::new(Behavior::Mint(1));
    let runtime = Runtime::new(Program::unused(), loader);
    let keys = vec![Pubkey::new_unique()];
    let tx = transaction(&keys, &[mallory], &[vec![0]]);
    let mut loaders = loader_chains(&[mallory]);
    let mut accounts = vec![Account::new(10, 0, &mallory)];
    assert_eq!(runtime.execute_transaction(&tx, &mut loaders, &mut accounts, 0), Ok(()));
    assert_eq!(loaders[0][0].1.lamports, 2);
    // With no loader chain the first keyed account is the instruction's.
    let mut no_chain: Vec<Vec<(Pubkey, Account)>> = vec![vec![]];
    assert_eq!(
        runtime.execute_transaction(&tx, &mut no_chain, &mut accounts, 0),
        failed(0, InstructionError::UnbalancedInstruction)
    );
}

#[test]
fn test_registry_is_seeded_with_the_system_program() {
    let runtime = Runtime::new(Program::unused(), Program::unused());
    assert_eq!(runtime.resolve(&system_program::id()), Some(0));
    assert_eq!(runtime.resolve(&Pubkey::new_from_array([0u8; 32])), Some(0));
    assert_eq!(runtime.resolve(&Pubkey::new_unique()), None);
}

#[test]
fn test_registry_first_match_wins() {
    let mallory = Pubkey::new_unique();
    let nancy = Pubkey::new_unique();
    let (earlier, earlier_calls) = Program::new(Behavior::Idle);
    let (later, later_calls) = Program::new(Behavior::Idle);
    let mut runtime = Runtime::new(Program::unused(), Program::unused());
    runtime.add_instruction_processor(mallory, earlier);
    runtime.add_instruction_processor(nancy, Program::unused());
    runtime.add_instruction_processor(mallory, later);
    assert_eq!(runtime.resolve(&mallory), Some(1));
    assert_eq!(runtime.resolve(&nancy), Some(2));
    let tx = transaction(&[], &[mallory], &[vec![]]);
    let mut loaders = loader_chains(&[mallory]);
    assert_eq!(runtime.execute_transaction(&tx, &mut loaders, &mut [], 0), Ok(()));
    assert_eq!(earlier_calls.borrow().len(), 1);
    assert!(later_calls.borrow().is_empty());
}

#[test]
fn test_instruction_index_is_reported_in_a_byte() {
    let mallory = Pubkey::new_unique();
    let nancy = Pubkey::new_unique();
    let mut runtime = Runtime::new(Program::unused(), Program::unused());
    runtime.add_instruction_processor(mallory, Program::new(Behavior::Idle).0);
    runtime.add_instruction_processor(
        nancy,
        Program::new(Behavior::Fail(InstructionError::InvalidArgument)).0,
    );
    let mut tx = transaction(&[], &[mallory, nancy], &vec![vec![]; 258]);
    for instruction in tx.instructions.iter_mut() {
        instruction.program_ids_index = 0;
    }
    tx.instructions[257].program_ids_index = 1;
    let mut loaders = loader_chains(&[mallory, nancy]);
    assert_eq!(
        runtime.execute_transaction(&tx, &mut loaders, &mut [], 0),
        failed(1, InstructionError::InvalidArgument)
    );
    tx.instructions[3].program_ids_index = 1;
    assert_eq!(
        runtime.execute_transaction(&tx, &mut loaders, &mut [], 0),
        failed(3, InstructionError::InvalidArgument)
    );
}

#[test]
fn test_execute_instruction() {
    let mallory = Pubkey::new_unique();
    let (program, _) = Program::new(Behavior::Move(1));
    let mut runtime = Runtime::new(Program::unused(), Program::unused());
    runtime.add_instruction_processor(mallory, program);
    let keys: Vec<Pubkey> = (0..2).map(|_| Pubkey::new_unique()).collect();
    let tx = transaction(&keys, &[mallory], &[vec![0, 1]]);
    let mut loaders = loader_chains(&[mallory]);
    let mut from = Account::new(1, 0, &mallory);
    let mut to = Account::new(0, 0, &mallory);
    assert_eq!(
        runtime.execute_instruction(&tx, 0, &mut loaders[0], &mut [&mut from, &mut to], 0),
        Ok(())
    );
    assert_eq!((from.lamports, to.lamports), (0, 1));
}

#[test]
fn test_create_keyed_accounts() {
    let mallory = Pubkey::new_unique();
    let nancy = Pubkey::new_unique();
    let mut accounts = vec![(mallory, Account::new(1, 0, &nancy)), (nancy, Account::new(2, 0, &nancy))];
    {
        let mut keyed = create_keyed_accounts(&mut accounts);
        assert_eq!(keyed.len(), 2);
        assert_eq!(keyed[0].unsigned_key(), &mallory);
        assert_eq!(keyed[1].unsigned_key(), &nancy);
        assert_eq!(keyed[0].signer_key(), None);
        assert_eq!(keyed[1].signer_key(), None);
        assert_eq!(keyed[1].account.lamports, 2);
        keyed[0].account.lamports = 9;
    }
    assert_eq!(accounts[0].1.lamports, 9);
    assert_eq!(accounts[1].1.lamports, 2);
}

#[test]
fn test_keyed_program_accounts() {
    let owner = Pubkey::new_unique();
    let keys: Vec<Pubkey> = (0..3).map(|_| Pubkey::new_unique()).collect();
    let mut tx = transaction(&keys, &[owner], &[vec![2, 1, 0]]);
    tx.signatures = vec![Signature::default(), Signature::default()];
    let mut a = Account::new(1, 0, &owner);
    let mut b = Account::new(2, 0, &owner);
    let mut c = Account::new(3, 0, &owner);
    {
        let mut refs = [&mut a, &mut b, &mut c];
        let mut keyed = keyed_program_accounts(&tx, 0, &mut refs);
        assert_eq!(keyed.len(), 3);
        assert_eq!(keyed[0].signer_key(), None);
        assert_eq!(keyed[0].unsigned_key(), &keys[2]);
        assert_eq!(keyed[1].signer_key(), Some(&keys[1]));
        assert_eq!(keyed[2].signer_key(), Some(&keys[0]));
        assert_eq!(keyed[2].account.lamports, 3);
        keyed[2].account.lamports = 30;
    }
    assert_eq!(c.lamports, 30);
}

#[test]
fn test_program_id() {
    let mallory = Pubkey::new_unique();
    let nancy = Pubkey::new_unique();
    let mut tx = transaction(&[], &[mallory, nancy], &[vec![], vec![]]);
    assert_eq!(tx.program_id(0), &mallory);
    assert_eq!(tx.program_id(1), &nancy);
    tx.instructions[0].program_ids_index = 1;
    assert_eq!(tx.program_id(0), &nancy);
}
