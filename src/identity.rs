//! Account identities: the key type of the Solana runtime, held opaquely.

use vstd::prelude::*;

verus! {

#[verifier::external_type_specification]
#[verifier::external_body]
pub struct ExPubkey(solana_program::pubkey::Pubkey);

/// Relies on the `PartialEq` that `solana_address::Address` (re-exported as
/// `Pubkey`) derives over its 32 bytes: two keys compare equal exactly when
/// they are the same key.
#[verifier::external_body]
pub(crate) fn same_key(
    a: &solana_program::pubkey::Pubkey,
    b: &solana_program::pubkey::Pubkey,
) -> (r: bool)
    ensures
        r == (*a == *b),
{
    a == b
}

} // verus!
