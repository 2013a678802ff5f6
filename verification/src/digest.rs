//! The contract fingerprint: a cryptographic digest of the canonical message
//! text, rendered as lowercase hex. Two submissions belong to the same trade
//! exactly when their canonical encodings are byte-identical, and the digest
//! is the key under which the coordinator files them.

use vstd::prelude::*;
use sha2::Digest;

verus! {

/// The digest of a message's bytes. A pure function of the character content:
/// the same text always has the same digest, in every process.
pub uninterp spec fn sha256_of(s: Seq<char>) -> Seq<u8>;

/// Relies on sha2::Sha256 (through the Digest trait): hashes the UTF-8 bytes
/// of the text and returns the 32-byte digest, a function of the text alone.
#[verifier::external_body]
fn sha256_digest(s: &str) -> (r: Vec<u8>)
    ensures
        r@ == sha256_of(s@),
        r@.len() == 32,
{
    sha2::Sha256::digest(s.as_bytes()).to_vec()
}

/// The fingerprint of a message: its digest in lowercase hex.
pub open spec fn fingerprint_of(s: Seq<char>) -> Seq<char> {
    crate::textenc::hex_of(sha256_of(s))
}

/// Computes the fingerprint of a message.
pub fn fingerprint_hex(s: &str) -> (r: String)
    ensures
        r@ == fingerprint_of(s@),
{
    let bytes: Vec<u8> = sha256_digest(s);
    let mut out: Vec<char> = Vec::new();
    crate::textenc::push_hex(&mut out, &bytes);
    crate::textenc::string_of(&out)
}

/// Fingerprint determinism: equal contract values have equal canonical
/// encodings, and hence equal fingerprints.
pub proof fn lemma_fingerprint_deterministic(c1: crate::model::TradeContractV, c2: crate::model::TradeContractV)
    requires
        c1 == c2,
    ensures
        crate::wire::contract_json(c1) == crate::wire::contract_json(c2),
        fingerprint_of(crate::wire::contract_json(c1)) == fingerprint_of(
            crate::wire::contract_json(c2),
        ),
{
}

} // verus!
