//! The escrow conditions builder: the deterministic derivation of the
//! spending-condition descriptor that the bearer token is locked under.
//!
//! The descriptor names the seller as primary signer, the buyer and the
//! coordinator's per-trade key as additional signers with a required
//! threshold of two, and the buyer alone as the refund signer once the
//! locktime has passed. Buyer and seller must derive bit-identical
//! descriptors from the same contract and registration, or verification of
//! the token fails.

use vstd::prelude::*;
use crate::model::{TradeContract, TradeContractV, EscrowRegistration, EscrowRegistrationV, EscrowError};
use crate::keys::{valid_ecash_pubkey, check_ecash_pubkey};

verus! {

/// The spending-condition descriptor of an escrow token, as plain values.
#[derive(Debug, PartialEq)]
pub struct EscrowConditions {
    /// The seller's key: the primary signer of the happy path.
    pub seller_pubkey: String,
    /// The buyer's key: additional signer, and sole refund signer.
    pub buyer_pubkey: String,
    /// The coordinator's per-trade key: additional signer.
    pub coordinator_pubkey: String,
    /// Absolute time after which the buyer's refund path opens.
    pub locktime: u64,
    /// How many signatures the pre-locktime path requires.
    pub required_sigs: u64,
    /// Whether every contributing signature must cover the whole spend.
    pub sig_all: bool,
}

/// Mathematical view of an [`EscrowConditions`].
#[verifier::ext_equal]
pub struct EscrowConditionsV {
    pub seller_pubkey: Seq<char>,
    pub buyer_pubkey: Seq<char>,
    pub coordinator_pubkey: Seq<char>,
    pub locktime: u64,
    pub required_sigs: u64,
    pub sig_all: bool,
}

impl View for EscrowConditions {
    type V = EscrowConditionsV;

    open spec fn view(&self) -> EscrowConditionsV {
        EscrowConditionsV {
            seller_pubkey: self.seller_pubkey@,
            buyer_pubkey: self.buyer_pubkey@,
            coordinator_pubkey: self.coordinator_pubkey@,
            locktime: self.locktime,
            required_sigs: self.required_sigs,
            sig_all: self.sig_all,
        }
    }
}

/// The descriptor that a contract and registration determine: keys drawn
/// from the contract and the registration, locktime anchored at the escrow
/// start time, threshold two, whole-spend signatures.
pub open spec fn conditions_of(c: TradeContractV, r: EscrowRegistrationV) -> EscrowConditionsV
    recommends
        r.escrow_start_time + c.time_limit <= u64::MAX,
{
    EscrowConditionsV {
        seller_pubkey: c.seller_ecash_public_key,
        buyer_pubkey: c.buyer_ecash_public_key,
        coordinator_pubkey: r.coordinator_escrow_pubkey,
        locktime: (r.escrow_start_time + c.time_limit) as u64,
        required_sigs: 2,
        sig_all: true,
    }
}

/// Whether all key material that the descriptor would hold is well-formed.
pub open spec fn identities_well_formed(c: TradeContractV, r: EscrowRegistrationV) -> bool {
    &&& valid_ecash_pubkey(c.seller_ecash_public_key)
    &&& valid_ecash_pubkey(c.buyer_ecash_public_key)
    &&& valid_ecash_pubkey(r.coordinator_escrow_pubkey)
}

/// Derives the spending-condition descriptor for a trade. Succeeds exactly
/// when every key is well-formed; otherwise fails with the invalid-identity
/// error. Free of any input or output beyond its arguments: buyer and seller
/// calling it with the same pair obtain the same descriptor.
pub fn assemble_escrow_conditions(contract: &TradeContract, registration: &EscrowRegistration)
    -> (r: Result<EscrowConditions, EscrowError>)
    requires
        registration.escrow_start_time + contract.time_limit <= u64::MAX,
    ensures
        r is Ok <==> identities_well_formed(contract@, registration@),
        r is Ok ==> r->Ok_0@ == conditions_of(contract@, registration@),
        r is Err ==> r->Err_0 == EscrowError::InvalidIdentity,
{
    if !check_ecash_pubkey(contract.seller_ecash_public_key.as_str()) {
        return Err(EscrowError::InvalidIdentity);
    }
    if !check_ecash_pubkey(contract.buyer_ecash_public_key.as_str()) {
        return Err(EscrowError::InvalidIdentity);
    }
    if !check_ecash_pubkey(registration.coordinator_escrow_pubkey.as_str()) {
        return Err(EscrowError::InvalidIdentity);
    }
    let locktime: u64 = registration.escrow_start_time + contract.time_limit;
    let d = EscrowConditions {
        seller_pubkey: contract.seller_ecash_public_key.clone(),
        buyer_pubkey: contract.buyer_ecash_public_key.clone(),
        coordinator_pubkey: registration.coordinator_escrow_pubkey.clone(),
        locktime,
        required_sigs: 2,
        sig_all: true,
    };
    proof {
        assert(d@ =~= conditions_of(contract@, registration@));
    }
    Ok(d)
}

/// Whether a spend attempt satisfies the descriptor: before the locktime the
/// seller must sign together with the buyer or the coordinator; from the
/// locktime on the buyer's signature alone also releases the refund path.
/// The seller-plus-cosigner path is open at any time.
pub open spec fn spend_allowed(
    d: EscrowConditionsV,
    seller_signed: bool,
    buyer_signed: bool,
    coordinator_signed: bool,
    now: u64,
) -> bool {
    ||| (seller_signed && (buyer_signed || coordinator_signed))
    ||| (now >= d.locktime && buyer_signed)
}

/// Decides whether a spend attempt satisfies the descriptor.
pub fn spend_permitted(
    d: &EscrowConditions,
    seller_signed: bool,
    buyer_signed: bool,
    coordinator_signed: bool,
    now: u64,
) -> (r: bool)
    ensures
        r == spend_allowed(d@, seller_signed, buyer_signed, coordinator_signed, now),
{
    (seller_signed && (buyer_signed || coordinator_signed)) || (now >= d.locktime && buyer_signed)
}

/// Conditions symmetry: the descriptor is a function of the contract and the
/// registration alone, so two parties that agree on both derive the same
/// descriptor.
pub proof fn lemma_conditions_symmetry(
    c1: TradeContractV,
    r1: EscrowRegistrationV,
    c2: TradeContractV,
    r2: EscrowRegistrationV,
)
    requires
        c1 == c2,
        r1 == r2,
    ensures
        conditions_of(c1, r1) == conditions_of(c2, r2),
{
}

/// Locktime enforcement: the buyer's lone refund signature fails before the
/// locktime and succeeds from it on, while the seller together with the
/// coordinator succeeds at any time.
pub proof fn lemma_locktime_enforcement(d: EscrowConditionsV, now: u64)
    ensures
        now < d.locktime ==> !spend_allowed(d, false, true, false, now),
        now >= d.locktime ==> spend_allowed(d, false, true, false, now),
        spend_allowed(d, true, false, true, now),
{
}

} // verus!
