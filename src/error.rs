//! Errors of the orchestrator.

use vstd::prelude::*;
use vstd::string::*;
use crate::writer::{dec_text, push_decimal};

verus! {

/// What can go wrong in a run. Failures of single attempts are not errors:
/// they become the message fed to the next attempt.
#[derive(Debug, Clone)]
pub enum SlagError {
    /// No commission given and none on disk.
    NoOre,
    SurveyFailed(String),
    FounderFailed(String),
    SmithFailed(String),
    /// Planning produced no units.
    NoIngots,
    CrucibleParse(String),
    /// A unit exhausted its attempts: id and attempt limit.
    IngotCracked(String, u8),
    /// The forge loop stopped with this many failed units.
    ForgeFailed(usize),
    ProofFailed { id: String, reason: String },
    UpdateFailed(String),
    WorktreeError(String),
    /// Every reviewed branch was rejected: how many.
    ReviewFailed(usize),
    CiFailed { branch: String, reason: String },
    /// Input or output failed, with the system's message.
    Io(String),
    Other(String),
}

/// The message shown for an error.
pub open spec fn error_text(e: SlagError) -> Seq<char> {
    match e {
        SlagError::NoOre => "no PRD.md found — provide a commission"@,
        SlagError::SurveyFailed(m) => "surveyor failed: "@ + m@,
        SlagError::FounderFailed(m) => "founder failed: "@ + m@,
        SlagError::SmithFailed(m) => "smith invocation failed: "@ + m@,
        SlagError::NoIngots => "no ingots produced by founder"@,
        SlagError::CrucibleParse(m) => "crucible parse error: "@ + m@,
        SlagError::IngotCracked(id, n) => "ingot "@ + id@ + " cracked after "@ + dec_text(n as nat)
            + " heats"@,
        SlagError::ForgeFailed(n) => "forge failed: "@ + dec_text(n as nat) + " ingots cracked"@,
        SlagError::ProofFailed { id, reason } => "proof failed for "@ + id@ + ": "@ + reason@,
        SlagError::UpdateFailed(m) => "self-update failed: "@ + m@,
        SlagError::WorktreeError(m) => "worktree error: "@ + m@,
        SlagError::ReviewFailed(n) => "review failed: "@ + dec_text(n as nat) + " branches rejected"@,
        SlagError::CiFailed { branch, reason } => "CI check failed for branch "@ + branch@ + ": "@
            + reason@,
        SlagError::Io(m) => m@,
        SlagError::Other(m) => m@,
    }
}

impl SlagError {
    /// The message shown for this error.
    pub fn message(&self) -> (r: String)
        ensures
            r@ == error_text(*self),
    {
        let mut s = String::new();
        match self {
            SlagError::NoOre => s.append("no PRD.md found — provide a commission"),
            SlagError::SurveyFailed(m) => {
                s.append("surveyor failed: ");
                s.append(m.as_str());
            },
            SlagError::FounderFailed(m) => {
                s.append("founder failed: ");
                s.append(m.as_str());
            },
            SlagError::SmithFailed(m) => {
                s.append("smith invocation failed: ");
                s.append(m.as_str());
            },
            SlagError::NoIngots => s.append("no ingots produced by founder"),
            SlagError::CrucibleParse(m) => {
                s.append("crucible parse error: ");
                s.append(m.as_str());
            },
            SlagError::IngotCracked(id, n) => {
                s.append("ingot ");
                s.append(id.as_str());
                s.append(" cracked after ");
                push_decimal(&mut s, *n as u64);
                s.append(" heats");
            },
            SlagError::ForgeFailed(n) => {
                s.append("forge failed: ");
                push_decimal(&mut s, *n as u64);
                s.append(" ingots cracked");
            },
            SlagError::ProofFailed { id, reason } => {
                s.append("proof failed for ");
                s.append(id.as_str());
                s.append(": ");
                s.append(reason.as_str());
            },
            SlagError::UpdateFailed(m) => {
                s.append("self-update failed: ");
                s.append(m.as_str());
            },
            SlagError::WorktreeError(m) => {
                s.append("worktree error: ");
                s.append(m.as_str());
            },
            SlagError::ReviewFailed(n) => {
                s.append("review failed: ");
                push_decimal(&mut s, *n as u64);
                s.append(" branches rejected");
            },
            SlagError::CiFailed { branch, reason } => {
                s.append("CI check failed for branch ");
                s.append(branch.as_str());
                s.append(": ");
                s.append(reason.as_str());
            },
            SlagError::Io(m) => s.append(m.as_str()),
            SlagError::Other(m) => s.append(m.as_str()),
        }
        proof {
            reveal_strlit("");
        }
        assert(s@ =~= error_text(*self));
        s
    }
}

} // verus!
