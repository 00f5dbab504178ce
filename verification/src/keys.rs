//! Account addresses and identity keys.

use solana_keypair::{Keypair, Signer};
use solana_pubkey::{ParsePubkeyError, Pubkey};
use vstd::prelude::*;

verus! {

/// Why a text is no address.
#[derive(Clone, Copy, Debug, PartialEq, Eq, Structural)]
pub enum AddressError {
    WrongSize,
    Invalid,
}

/// What `Pubkey::from_str` reads from `text`, the base58 form of an address.
pub uninterp spec fn address_from(text: Seq<char>) -> Result<[u8; 32], AddressError>;

/// `Pubkey::from_str`, with its error told by variant. How base58 spells an address is that crate's;
/// here it only has a name.
#[verifier::external_body]
pub(crate) fn parse_address(text: &str) -> (result: Result<[u8; 32], AddressError>)
    ensures
        result == address_from(text@),
{
    match text.parse::<Pubkey>() {
        Ok(key) => Ok(key.to_bytes()),
        Err(ParsePubkeyError::WrongSize) => Err(AddressError::WrongSize),
        Err(ParsePubkeyError::Invalid) => Err(AddressError::Invalid),
    }
}

/// The text that `Pubkey`'s `Display` gives for `key`, its base58 form.
pub uninterp spec fn address_text(key: [u8; 32]) -> Seq<char>;

/// `Pubkey::to_string`. How base58 spells an address is that crate's; here it only has a name.
#[verifier::external_body]
pub(crate) fn write_address(key: [u8; 32]) -> (text: String)
    ensures
        text@ == address_text(key),
{
    Pubkey::new_from_array(key).to_string()
}

/// The address of the key pair that `Keypair::try_from` reads from `identity`; nothing where it
/// reports an error.
pub uninterp spec fn identity_address(identity: Seq<u8>) -> Option<[u8; 32]>;

/// `Keypair::pubkey` on the key pair in `identity`, which `Keypair::try_from` takes only where it has
/// 64 bytes.
#[verifier::external_body]
pub(crate) fn pubkey_of(identity: &[u8]) -> (key: Option<[u8; 32]>)
    ensures
        key == identity_address(identity@),
        key is Some ==> identity@.len() == 64,
{
    let pair = Keypair::try_from(identity).ok()?;
    Some(pair.pubkey().to_bytes())
}

/// The address of the identity in `identity`, the bytes of a key pair; nothing where they are none.
pub fn identity_of(identity: &[u8]) -> (result: Option<[u8; 32]>)
    ensures
        result == identity_address(identity@),
        result is Some ==> identity@.len() == 64,
{
    pubkey_of(identity)
}

/// The signature that the key pair in `identity` makes of `message`.
pub uninterp spec fn signature_by(identity: Seq<u8>, message: Seq<u8>) -> Option<[u8; 64]>;

/// `Keypair::sign_message` with the key pair in `identity`. It makes a signature wherever there is a
/// key pair, and the same one each time; the signature itself only has a name here.
#[verifier::external_body]
pub(crate) fn sign(identity: &[u8], message: &[u8]) -> (signature: Option<[u8; 64]>)
    ensures
        signature == signature_by(identity@, message@),
        signature is Some <==> identity_address(identity@) is Some,
{
    let pair = Keypair::try_from(identity).ok()?;
    Some(pair.sign_message(message).into())
}

} // verus!
