//! Data model of the escrow protocol: the trade contract agreed by buyer and
//! seller, and the registration the coordinator issues for a matched trade.
//!
//! Identity keys are carried as the hex strings that appear on the wire: a
//! relay identity key is 64 hex characters, an ecash key 66 hex characters.

use vstd::prelude::*;

verus! {

/// The role a client plays in a trade.
#[derive(Clone, Copy, Debug, PartialEq, Eq, Structural)]
pub enum TradeMode {
    Buyer,
    Seller,
}


/// The failures a trade step can surface to its caller.
#[derive(Clone, Copy, Debug, PartialEq, Eq, Structural)]
pub enum EscrowError {
    /// Malformed or unparseable key material.
    InvalidIdentity,
    /// No registration arrived within the wait window.
    RegistrationTimeout,
    /// No token arrived within the wait window.
    TokenTimeout,
    /// The wallet could not produce the token.
    WalletFailure,
    /// The received token failed verification.
    TokenInvalid,
}

/// A trade contract, immutable once sent. Both parties must submit the
/// byte-identical canonical encoding for the coordinator to match them.
#[derive(Debug, PartialEq)]
pub struct TradeContract {
    pub trade_description: String,
    /// Amount in the smallest currency unit.
    pub trade_amount_sat: u64,
    /// Relay identity key of the seller, hex.
    pub npubkey_seller: String,
    /// Relay identity key of the buyer, hex.
    pub npubkey_buyer: String,
    /// Relay identity key of the coordinator, hex.
    pub npubkey_coordinator: String,
    /// Relative time limit of the trade, in seconds.
    pub time_limit: u64,
    /// Ecash key of the seller, hex.
    pub seller_ecash_public_key: String,
    /// Ecash key of the buyer, hex.
    pub buyer_ecash_public_key: String,
}

/// Mathematical view of a [`TradeContract`].
#[verifier::ext_equal]
pub struct TradeContractV {
    pub trade_description: Seq<char>,
    pub trade_amount_sat: u64,
    pub npubkey_seller: Seq<char>,
    pub npubkey_buyer: Seq<char>,
    pub npubkey_coordinator: Seq<char>,
    pub time_limit: u64,
    pub seller_ecash_public_key: Seq<char>,
    pub buyer_ecash_public_key: Seq<char>,
}

impl View for TradeContract {
    type V = TradeContractV;

    open spec fn view(&self) -> TradeContractV {
        TradeContractV {
            trade_description: self.trade_description@,
            trade_amount_sat: self.trade_amount_sat,
            npubkey_seller: self.npubkey_seller@,
            npubkey_buyer: self.npubkey_buyer@,
            npubkey_coordinator: self.npubkey_coordinator@,
            time_limit: self.time_limit,
            seller_ecash_public_key: self.seller_ecash_public_key@,
            buyer_ecash_public_key: self.buyer_ecash_public_key@,
        }
    }
}

impl Clone for TradeContract {
    fn clone(&self) -> (res: Self)
        ensures
            res@ == self@,
    {
        TradeContract {
            trade_description: self.trade_description.clone(),
            trade_amount_sat: self.trade_amount_sat,
            npubkey_seller: self.npubkey_seller.clone(),
            npubkey_buyer: self.npubkey_buyer.clone(),
            npubkey_coordinator: self.npubkey_coordinator.clone(),
            time_limit: self.time_limit,
            seller_ecash_public_key: self.seller_ecash_public_key.clone(),
            buyer_ecash_public_key: self.buyer_ecash_public_key.clone(),
        }
    }
}

/// The registration the coordinator issues once both parties have submitted
/// the identical contract. Never mutated after creation.
#[derive(Debug, PartialEq)]
pub struct EscrowRegistration {
    /// Fingerprint of the canonical contract encoding, hex.
    pub escrow_id_hex: String,
    /// The coordinator's fresh per-trade ecash key, hex.
    pub coordinator_escrow_pubkey: String,
    /// Absolute start time of the escrow, seconds; anchor of the locktime.
    pub escrow_start_time: u64,
}

/// Mathematical view of an [`EscrowRegistration`].
#[verifier::ext_equal]
pub struct EscrowRegistrationV {
    pub escrow_id_hex: Seq<char>,
    pub coordinator_escrow_pubkey: Seq<char>,
    pub escrow_start_time: u64,
}

impl View for EscrowRegistration {
    type V = EscrowRegistrationV;

    open spec fn view(&self) -> EscrowRegistrationV {
        EscrowRegistrationV {
            escrow_id_hex: self.escrow_id_hex@,
            coordinator_escrow_pubkey: self.coordinator_escrow_pubkey@,
            escrow_start_time: self.escrow_start_time,
        }
    }
}

impl Clone for EscrowRegistration {
    fn clone(&self) -> (res: Self)
        ensures
            res@ == self@,
    {
        EscrowRegistration {
            escrow_id_hex: self.escrow_id_hex.clone(),
            coordinator_escrow_pubkey: self.coordinator_escrow_pubkey.clone(),
            escrow_start_time: self.escrow_start_time,
        }
    }
}

impl EscrowRegistration {
    pub fn new(
        trade_id_hex: String,
        coordinator_escrow_pubkey: String,
        escrow_start_time: u64,
    ) -> (res: Self)
        ensures
            res@.escrow_id_hex == trade_id_hex@,
            res@.coordinator_escrow_pubkey == coordinator_escrow_pubkey@,
            res@.escrow_start_time == escrow_start_time,
    {
        EscrowRegistration { escrow_id_hex: trade_id_hex, coordinator_escrow_pubkey, escrow_start_time }
    }
}

} // verus!
