//! Escrow protocol core for peer-to-peer trades settled in bearer ecash and
//! coordinated over a public relay network.
//!
//! The crate covers the protocol logic itself: the canonical wire encoding of
//! trade contracts and registrations, the fingerprint that matches the two
//! parties' submissions, the spending-condition descriptor locked into the
//! token, the coordinator's matching engine, the bounded message cache of the
//! transport layer, and the client's linear trade state machine.

pub mod conditions;
pub mod coordinator;
pub mod digest;
pub mod escrow_client;
pub mod keys;
pub mod model;
pub mod textenc;
pub mod transport;
pub mod wire;
