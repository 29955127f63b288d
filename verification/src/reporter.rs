//! What the detector hands to whoever reports its findings.

use crate::parser::NetworkEvent;
use vstd::prelude::*;

verus! {

/// An observation whose score reached the threshold.
#[derive(Debug, PartialEq, Eq)]
pub struct AnomalyReport {
    /// The observation that was flagged.
    pub event: NetworkEvent,
    /// Its anomaly score, in millionths.
    pub score: u32,
    /// Its place among all observations seen, counted from one.
    pub event_number: usize,
}

/// How alarming a reported score is.
#[derive(Clone, Copy, Debug, PartialEq, Eq, Structural)]
pub enum Severity {
    High,
    Medium,
    Low,
}

/// The severity of a score in millionths: high from 0.8 on, medium from 0.7
/// on, low below that.
pub open spec fn severity_of(score: u32) -> Severity {
    if score >= 800_000 {
        Severity::High
    } else if score >= 700_000 {
        Severity::Medium
    } else {
        Severity::Low
    }
}

/// The severity of a score in millionths.
pub fn severity(score: u32) -> (level: Severity)
    ensures
        level == severity_of(score),
{
    if score >= 800_000 {
        Severity::High
    } else if score >= 700_000 {
        Severity::Medium
    } else {
        Severity::Low
    }
}

impl Severity {
    /// The word under which the severity is printed.
    pub open spec fn label_of(self) -> Seq<char> {
        match self {
            Severity::High => "HIGH"@,
            Severity::Medium => "MEDIUM"@,
            Severity::Low => "LOW"@,
        }
    }

    /// The word under which the severity is printed.
    pub fn label(self) -> (word: &'static str)
        ensures
            word@ == self.label_of(),
    {
        match self {
            Severity::High => "HIGH",
            Severity::Medium => "MEDIUM",
            Severity::Low => "LOW",
        }
    }
}

impl AnomalyReport {
    /// The severity of the report's score.
    pub fn severity(&self) -> (level: Severity)
        ensures
            level == severity_of(self.score),
    {
        severity(self.score)
    }
}

/// The word for the state of a detector in a status line.
pub fn status_word(trained: bool) -> (word: &'static str)
    ensures
        trained ==> word@ == "detecting"@,
        !trained ==> word@ == "buffering"@,
{
    if trained {
        "detecting"
    } else {
        "buffering"
    }
}

} // verus!
