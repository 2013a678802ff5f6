//! The client's trade state machine.
//!
//! A trade advances Init → Registered → TokenExchanged, and each step
//! consumes the previous state by value: a completed step cannot be re-run
//! and none can be skipped. The shell around the library performs the
//! sending, waiting and wallet work and hands each step's outcome in as a
//! plain value; the state machine decides what the outcome means and what
//! the next state carries.

use vstd::prelude::*;
use crate::model::{TradeContract, TradeContractV, EscrowRegistration, EscrowRegistrationV, TradeMode, EscrowError};
use crate::conditions::{EscrowConditions, conditions_of, identities_well_formed, assemble_escrow_conditions};
use crate::wire::contract_json;

verus! {

/// A trade before registration: the contract and the chosen role.
#[derive(Debug)]
pub struct InitEscrowClient {
    escrow_contract: TradeContract,
    trade_mode: TradeMode,
}

/// Mathematical view of an [`InitEscrowClient`].
#[verifier::ext_equal]
pub struct InitEscrowClientV {
    pub escrow_contract: TradeContractV,
    pub trade_mode: TradeMode,
}

impl View for InitEscrowClient {
    type V = InitEscrowClientV;

    closed spec fn view(&self) -> InitEscrowClientV {
        InitEscrowClientV { escrow_contract: self.escrow_contract@, trade_mode: self.trade_mode }
    }
}

impl InitEscrowClient {
    /// Begins a trade with the agreed contract in the given role.
    pub fn new(escrow_contract: TradeContract, trade_mode: TradeMode) -> (r: Self)
        ensures
            r@.escrow_contract == escrow_contract@,
            r@.trade_mode == trade_mode,
    {
        InitEscrowClient { escrow_contract, trade_mode }
    }

    /// The canonical contract message to submit to the coordinator. Both
    /// parties must submit this byte-identical text to be matched.
    pub fn contract_message(&self) -> (r: String)
        ensures
            r@ == contract_json(self@.escrow_contract),
    {
        crate::wire::serialize_contract(&self.escrow_contract)
    }

    /// Consumes the outcome of the registration exchange: a received
    /// registration advances the trade, its absence is the
    /// registration-timeout failure.
    pub fn register_trade(self, registration: Option<EscrowRegistration>) -> (r: Result<
        RegisteredEscrowClient,
        EscrowError,
    >)
        ensures
            match registration {
                Some(reg) => {
                    &&& r is Ok
                    &&& r->Ok_0@.escrow_contract == self@.escrow_contract
                    &&& r->Ok_0@.trade_mode == self@.trade_mode
                    &&& r->Ok_0@.escrow_registration == reg@
                },
                None => r == Err::<RegisteredEscrowClient, EscrowError>(
                    EscrowError::RegistrationTimeout,
                ),
            },
    {
        match registration {
            Some(reg) => Ok(
                RegisteredEscrowClient {
                    escrow_contract: self.escrow_contract,
                    trade_mode: self.trade_mode,
                    escrow_registration: reg,
                },
            ),
            None => Err(EscrowError::RegistrationTimeout),
        }
    }
}

/// A registered trade: the coordinator has issued the escrow registration.
#[derive(Debug)]
pub struct RegisteredEscrowClient {
    escrow_contract: TradeContract,
    trade_mode: TradeMode,
    escrow_registration: EscrowRegistration,
}

/// Mathematical view of a [`RegisteredEscrowClient`].
#[verifier::ext_equal]
pub struct RegisteredEscrowClientV {
    pub escrow_contract: TradeContractV,
    pub trade_mode: TradeMode,
    pub escrow_registration: EscrowRegistrationV,
}

impl View for RegisteredEscrowClient {
    type V = RegisteredEscrowClientV;

    closed spec fn view(&self) -> RegisteredEscrowClientV {
        RegisteredEscrowClientV {
            escrow_contract: self.escrow_contract@,
            trade_mode: self.trade_mode,
            escrow_registration: self.escrow_registration@,
        }
    }
}

impl RegisteredEscrowClient {
    /// The spending-condition descriptor of this trade, derived exactly as
    /// the counterparty derives it. The buyer locks the token under it, the
    /// seller verifies the received token against it.
    pub fn spending_conditions(&self) -> (r: Result<EscrowConditions, EscrowError>)
        requires
            self@.escrow_registration.escrow_start_time + self@.escrow_contract.time_limit
                <= u64::MAX,
        ensures
            r is Ok <==> identities_well_formed(self@.escrow_contract, self@.escrow_registration),
            r is Ok ==> r->Ok_0@ == conditions_of(self@.escrow_contract, self@.escrow_registration),
            r is Err ==> r->Err_0 == EscrowError::InvalidIdentity,
    {
        assemble_escrow_conditions(&self.escrow_contract, &self.escrow_registration)
    }

    /// The amount the buyer must lock into the token.
    pub fn trade_amount(&self) -> (r: u64)
        ensures
            r == self@.escrow_contract.trade_amount_sat,
    {
        self.escrow_contract.trade_amount_sat
    }

    /// Consumes the outcome of the token exchange. For the buyer this is the
    /// wallet's attempt to produce the locked token; for the seller, the
    /// received token after verification. Success carries the token into the
    /// next state; a failure ends the attempt with that failure.
    pub fn exchange_trade_token(self, outcome: Result<String, EscrowError>) -> (r: Result<
        TokenExchangedEscrowClient,
        EscrowError,
    >)
        ensures
            match outcome {
                Ok(token) => {
                    &&& r is Ok
                    &&& r->Ok_0@.escrow_contract == self@.escrow_contract
                    &&& r->Ok_0@.trade_mode == self@.trade_mode
                    &&& r->Ok_0@.escrow_registration == self@.escrow_registration
                    &&& r->Ok_0@.trade_token == token@
                },
                Err(e) => r == Err::<TokenExchangedEscrowClient, EscrowError>(e),
            },
    {
        match outcome {
            Ok(token) => Ok(
                TokenExchangedEscrowClient {
                    escrow_contract: self.escrow_contract,
                    trade_mode: self.trade_mode,
                    escrow_registration: self.escrow_registration,
                    trade_token: token,
                },
            ),
            Err(e) => Err(e),
        }
    }
}

/// A trade whose token has been sent or received and verified.
#[derive(Debug)]
pub struct TokenExchangedEscrowClient {
    escrow_contract: TradeContract,
    trade_mode: TradeMode,
    escrow_registration: EscrowRegistration,
    trade_token: String,
}

/// Mathematical view of a [`TokenExchangedEscrowClient`].
#[verifier::ext_equal]
pub struct TokenExchangedEscrowClientV {
    pub escrow_contract: TradeContractV,
    pub trade_mode: TradeMode,
    pub escrow_registration: EscrowRegistrationV,
    pub trade_token: Seq<char>,
}

impl View for TokenExchangedEscrowClient {
    type V = TokenExchangedEscrowClientV;

    closed spec fn view(&self) -> TokenExchangedEscrowClientV {
        TokenExchangedEscrowClientV {
            escrow_contract: self.escrow_contract@,
            trade_mode: self.trade_mode,
            escrow_registration: self.escrow_registration@,
            trade_token: self.trade_token@,
        }
    }
}

impl TokenExchangedEscrowClient {
    /// The exchanged token.
    pub fn trade_token(&self) -> (r: &String)
        ensures
            r@ == self@.trade_token,
    {
        &self.trade_token
    }

    /// The role this client played.
    pub fn trade_mode(&self) -> (r: TradeMode)
        ensures
            r == self@.trade_mode,
    {
        self.trade_mode
    }

    /// The extension point after the token exchange: delivery proof and the
    /// counter-signature exchange are not part of this protocol yet, so the
    /// step completes without further work.
    pub fn finalize_successful_trade(&self) -> (r: Result<(), EscrowError>)
        ensures
            r is Ok,
    {
        Ok(())
    }

    /// The extension point for escalating a dispute to the coordinator.
    pub fn request_mediation(&self) -> (r: Result<(), EscrowError>)
        ensures
            r is Ok,
    {
        Ok(())
    }
}

} // verus!
