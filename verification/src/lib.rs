//! A minimal owner-gated score ledger.
//!
//! The ledger records a signed integer score for each `(address, token)` key.
//! A single owner identity, set at initialization, is the only caller allowed
//! to write scores; anyone may read them. The state lives in an explicit
//! [`state::Store`] value, so a host can persist it between calls and tests
//! can run against in-memory instances.

pub mod auth;
pub mod error;
pub mod laws;
pub mod state;

pub use error::ContractError;
pub use state::{ScoreRecord, Store};
