//! Ecash key material, carried as hex strings. Whether a string is a
//! well-formed compressed public key is decided by the ecash library; the
//! coordinator's fresh per-trade keypair comes from it too.

use vstd::prelude::*;

verus! {

/// Whether the string is the hex form of a well-formed compressed public key.
/// Determined by the string alone.
pub uninterp spec fn valid_ecash_pubkey(s: Seq<char>) -> bool;

/// Relies on cdk::nuts::PublicKey::from_hex: accepts exactly the 66-character
/// hex encodings of valid compressed curve points; a function of the string.
#[verifier::external_body]
pub(crate) fn check_ecash_pubkey(s: &str) -> (r: bool)
    ensures
        r == valid_ecash_pubkey(s@),
{
    cdk::nuts::PublicKey::from_hex(s).is_ok()
}

/// Relies on cdk::nuts::SecretKey::generate, to_secret_hex and public_key:
/// draws a fresh random keypair; the hex form of the public key of any
/// generated secret parses back as a valid public key. Nothing else is
/// promised of the random outcome.
#[verifier::external_body]
pub(crate) fn generate_trade_keypair() -> (r: (String, String))
    ensures
        valid_ecash_pubkey(r.1@),
{
    let secret = cdk::nuts::SecretKey::generate();
    let pubkey_hex = secret.public_key().to_hex();
    (secret.to_secret_hex(), pubkey_hex)
}

} // verus!
