//! Accounts, and accounts paired with their keys for a program to work on.

use crate::subset::each_mut;
use solana_sdk::pubkey::Pubkey;
use vstd::prelude::*;

verus! {

/// A ledger entry: a balance, opaque data, and the program that owns it.
#[derive(Clone, Debug, PartialEq, Eq)]
pub struct Account {
    /// The balance, in lamports.
    pub lamports: u64,
    /// The data held in this account.
    pub data: Vec<u8>,
    /// The program that owns this account.
    pub owner: Pubkey,
    /// The data is a loaded program.
    pub executable: bool,
}

impl Account {
    /// An account with `space` zero bytes of data.
    pub fn new(lamports: u64, space: usize, owner: &Pubkey) -> (account: Account)
        ensures
            account.lamports == lamports,
            account.data@ == Seq::new(space as nat, |i: int| 0u8),
            account.owner == *owner,
            !account.executable,
    {
        let mut data: Vec<u8> = Vec::new();
        let mut filled: usize = 0;
        while filled < space
            invariant
                filled <= space,
                data@ == Seq::new(filled as nat, |i: int| 0u8),
            decreases space - filled,
        {
            data.push(0u8);
            filled += 1;
        }
        Account { lamports, data, owner: *owner, executable: false }
    }
}

/// An account with its key, as a program sees it.
#[derive(Debug)]
pub struct KeyedAccount<'a> {
    /// The transaction was signed with this account's key.
    pub is_signer: bool,
    /// The account's key.
    pub key: &'a Pubkey,
    /// The account itself, for the program to read and change.
    pub account: &'a mut Account,
}

impl<'a> KeyedAccount<'a> {
    pub fn new(key: &'a Pubkey, is_signer: bool, account: &'a mut Account) -> (keyed: KeyedAccount<'a>)
        ensures
            *keyed.key == *key,
            keyed.is_signer == is_signer,
            *keyed.account == *old(account),
            *final(keyed.account) == *final(account),
    {
        KeyedAccount { is_signer, key, account }
    }

    /// The key, if the transaction was signed with it.
    pub fn signer_key(&self) -> (key: Option<&Pubkey>)
        ensures
            key == if self.is_signer { Some(self.key) } else { None },
    {
        if self.is_signer {
            Some(self.key)
        } else {
            None
        }
    }

    /// The key, signed with or not.
    pub fn unsigned_key(&self) -> (key: &Pubkey)
        ensures
            *key == *self.key,
    {
        self.key
    }
}

/// The accounts of a loader chain as keyed accounts, none of them a signer.
///
/// Each keyed account borrows its account from `accounts`: what a program
/// does to the one is done to the other.
pub fn create_keyed_accounts<'a>(accounts: &'a mut [(Pubkey, Account)]) -> (keyed: Vec<
    KeyedAccount<'a>,
>)
    ensures
        keyed@.len() == old(accounts)@.len(),
        final(accounts)@.len() == old(accounts)@.len(),
        forall|k: int|
            0 <= k < keyed@.len() ==> {
                &&& *(#[trigger] keyed@[k]).key == old(accounts)@[k].0
                &&& !keyed@[k].is_signer
                &&& *keyed@[k].account == old(accounts)@[k].1
                &&& final(accounts)@[k] == (old(accounts)@[k].0, *final(keyed@[k].account))
            },
{
    let ghost before = accounts@;
    let ghost after = final(accounts)@;
    let mut slots = each_mut(accounts);
    let ghost all = slots@;
    let mut keyed: Vec<KeyedAccount<'a>> = Vec::new();
    let mut k: usize = 0;
    while k < slots.len()
        invariant
            k <= slots@.len(),
            slots@.len() == all.len(),
            keyed@.len() == k,
            forall|j: int| k <= j < slots@.len() ==> #[trigger] slots@[j] == all[j],
            forall|j: int| 0 <= j < all.len() ==> (#[trigger] all[j]) is Some,
            forall|j: int|
                0 <= j < k ==> {
                    &&& *(#[trigger] keyed@[j]).key == (*(all[j]->0)).0
                    &&& !keyed@[j].is_signer
                    &&& *keyed@[j].account == (*(all[j]->0)).1
                    &&& *final(all[j]->0) == ((*(all[j]->0)).0, *final(keyed@[j].account))
                },
        decreases slots@.len() - k,
    {
        let taken = slots[k].take();
        let pair: &'a mut (Pubkey, Account) = taken.unwrap();
        keyed.push(KeyedAccount { is_signer: false, key: &pair.0, account: &mut pair.1 });
        k += 1;
    }
    assert forall|j: int| 0 <= j < keyed@.len() implies {
        &&& *(#[trigger] keyed@[j]).key == before[j].0
        &&& !keyed@[j].is_signer
        &&& *keyed@[j].account == before[j].1
        &&& after[j] == (before[j].0, *final(keyed@[j].account))
    } by {
        assert(all[j] is Some);
    }
    keyed
}

} // verus!
