//! Core of a multiplayer, turn-based tactical RPG server.
//!
//! The crate is organised around three concerns:
//!
//! - the wire protocol: packets, their binary encoding, and the
//!   length-prefixed framing used on a stream transport
//!   ([`codec`], [`protocol`], [`transport`]);
//! - per-connection session state and the server loop's bookkeeping:
//!   authentication, piece ownership, liveness, outbound queues
//!   ([`session`]);
//! - the simulation: character pieces and their statistics, spells and
//!   status effects, the turn scheduler, and the consideration engine
//!   that drives non-player actors ([`character`], [`spell`], [`status`],
//!   [`world`], [`consider`], with [`expression`] for data-driven
//!   formulas, [`resources`] for the read-only definition catalog,
//!   [`console`] for the message bus, and [`vault`] for fixed room
//!   layouts).

use vstd::prelude::*;

pub mod character;
pub mod codec;
pub mod consider;
pub mod console;
pub mod expression;
pub mod protocol;
pub mod resources;
pub mod session;
pub mod spell;
pub mod status;
pub mod transport;
pub mod vault;
pub mod world;

verus! {

/// Milliseconds a session may stay silent before it is dropped.
pub const TIMEOUT_MS: u64 = 10000;

/// The scheduler's abstract time unit: the cost of one ordinary turn.
pub const TURN: u64 = 12;

/// The error taxonomy of the core.
///
/// `Io` and `Timeout` are fatal to a single connection; `Malformed` marks
/// an undecodable inbound frame, also fatal to the connection; `Policy`
/// marks a well-formed action that violates turn or ownership rules and is
/// recovered from by resynchronising the client; `DecisionExhausted` marks
/// a decision policy consuming a consideration list twice;
/// `NotFound` marks a reference to a missing resource definition.
#[derive(Clone, Debug, PartialEq, Eq)]
pub enum Error {
    Io,
    Malformed,
    Timeout,
    Policy,
    DecisionExhausted,
    NotFound(String),
}

} // verus!
