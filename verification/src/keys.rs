//! Program and account identifiers.
//!
//! An identifier is a `Pubkey` of `solana_sdk`: 32 bytes, compared by value.
//! Verus cannot look inside one, so the contracts of this crate speak of its
//! bytes through [`pubkey_bytes`]. The contracts in this file are believed, not
//! proved: they state what the `solana_sdk` source shows.

use solana_sdk::pubkey::Pubkey;
use solana_sdk::signature::Signature;
use vstd::prelude::*;

verus! {

/// `solana_sdk::pubkey::Pubkey`, a wrapper round `[u8; 32]`.
#[verifier::external_type_specification]
#[verifier::external_body]
pub struct ExPubkey(Pubkey);

/// `solana_sdk::signature::Signature`. The core counts signatures and never
/// reads one.
#[verifier::external_type_specification]
#[verifier::external_body]
pub struct ExSignature(Signature);

/// `core::array::TryFromSliceError`, which `Signature` names in its
/// conversion from a slice. The core never makes one.
#[verifier::external_type_specification]
#[verifier::external_body]
pub struct ExTryFromSliceError(core::array::TryFromSliceError);

/// The bytes that a key holds, in order: what `Pubkey::as_ref` hands out.
pub uninterp spec fn pubkey_bytes(key: Pubkey) -> Seq<u8>;

/// The bytes of the system program's identifier: 32 zero bytes, which is what
/// the base-58 text `11111111111111111111111111111111` in
/// `solana_sdk::system_program` decodes to.
pub open spec fn system_program_bytes() -> Seq<u8> {
    Seq::new(32, |i: int| 0u8)
}

/// Two keys name the same program or account.
pub open spec fn same_key(a: Pubkey, b: Pubkey) -> bool {
    pubkey_bytes(a) == pubkey_bytes(b)
}

/// The key names the system program.
pub open spec fn is_system_program(key: Pubkey) -> bool {
    pubkey_bytes(key) == system_program_bytes()
}

/// `Pubkey`'s derived `==` compares the two byte arrays.
pub assume_specification[ <Pubkey as PartialEq>::eq ](a: &Pubkey, b: &Pubkey) -> (equal: bool)
    ensures
        equal == (pubkey_bytes(*a) == pubkey_bytes(*b)),
;

/// `Pubkey` is `Copy`: its derived `clone` returns the key itself.
pub assume_specification[ <Pubkey as Clone>::clone ](key: &Pubkey) -> (copy: Pubkey)
    ensures
        copy == *key,
;

/// `solana_sdk::system_program::check_id` compares the key with the system
/// program's identifier.
pub assume_specification[ solana_sdk::system_program::check_id ](id: &Pubkey) -> (is_system: bool)
    ensures
        is_system == (pubkey_bytes(*id) == system_program_bytes()),
;

/// `solana_sdk::system_program::id` returns the system program's identifier.
pub assume_specification[ solana_sdk::system_program::id ]() -> (id: Pubkey)
    ensures
        pubkey_bytes(id) == system_program_bytes(),
;

} // verus!
