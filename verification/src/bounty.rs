//! The reward table for reported flaws.
use vstd::prelude::*;

verus! {

/// How bad a reported flaw is.
#[derive(Clone, Copy, PartialEq, Eq, Structural, Debug)]
pub enum Severity {
    Low,
    Medium,
    High,
    Critical,
}

/// Pays reporters by severity.
pub struct EscrowContract;

impl EscrowContract {
    pub fn reward(severity: Severity) -> (amount: i128)
        ensures
            amount == (match severity {
                Severity::Low => 10i128,
                Severity::Medium => 50i128,
                Severity::High => 100i128,
                Severity::Critical => 500i128,
            }),
    {
        match severity {
            Severity::Low => 10,
            Severity::Medium => 50,
            Severity::High => 100,
            Severity::Critical => 500,
        }
    }
}

} // verus!
