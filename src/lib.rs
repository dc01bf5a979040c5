//! Task-ledger state machine, dispatch policy, attempt protocol and failure
//! recovery for an autonomous build orchestrator.

pub mod analysis;
pub mod cli;
pub mod config;
pub mod crucible;
pub mod directive;
pub mod error;
pub mod flux;
pub mod forge;
pub mod parser;
pub mod progress;
pub mod reload;
pub mod resmelt;
pub mod roundtrip;
pub mod review;
pub mod sexp;
pub mod smith;
pub mod text;
pub mod tui;
pub mod writer;

pub use sexp::{Ingot, Skill, Status};
