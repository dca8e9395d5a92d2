use vstd::prelude::*;

use crate::diagnostic::{Diagnostic, DiagnosticView};
use crate::policy::decision::{DecisionView, PolicyDecision};
use crate::text::join4;

verus! {

#[derive(Debug)]
pub enum PassError {
    Failed { pass: &'static str, message: String },
}

pub struct PassErrorView {
    pub pass: Seq<char>,
    pub message: Seq<char>,
}

impl View for PassError {
    type V = PassErrorView;

    open spec fn view(&self) -> PassErrorView {
        match self {
            PassError::Failed { pass, message } => PassErrorView { pass: pass@, message: message@ },
        }
    }
}

impl PassError {
    pub fn failed(pass: &'static str, message: &str) -> (r: PassError)
        ensures
            r@ == (PassErrorView { pass: pass@, message: message@ }),
    {
        PassError::Failed { pass, message: message.to_string() }
    }

    pub fn pass(&self) -> (r: &'static str)
        ensures
            r@ == self@.pass,
    {
        match self {
            PassError::Failed { pass, .. } => pass,
        }
    }

    pub fn message(&self) -> (r: &str)
        ensures
            r@ == self@.message,
    {
        match self {
            PassError::Failed { message, .. } => message.as_str(),
        }
    }

    /// The error's message: which pass failed, and why.
    pub fn to_string(&self) -> (r: String)
        ensures
            r@ == "pass '"@ + self@.pass + "' failed: "@ + self@.message,
    {
        match self {
            PassError::Failed { pass, message } => join4("pass '", pass, "' failed: ", message.as_str()),
        }
    }
}

/// A failed pass, with the diagnostics and decisions reported up to the failure.
#[derive(Debug)]
pub struct PassFailure {
    error: PassError,
    diagnostics: Vec<Diagnostic>,
    decisions: Vec<PolicyDecision>,
}

pub struct FailureView {
    pub error: PassErrorView,
    pub diagnostics: Seq<DiagnosticView>,
    pub decisions: Seq<DecisionView>,
}

impl View for PassFailure {
    type V = FailureView;

    closed spec fn view(&self) -> FailureView {
        FailureView {
            error: self.error@,
            diagnostics: self.diagnostics@.map_values(|d: Diagnostic| d@),
            decisions: self.decisions@.map_values(|d: PolicyDecision| d@),
        }
    }
}

impl PassFailure {
    pub fn new(error: PassError, diagnostics: Vec<Diagnostic>, decisions: Vec<PolicyDecision>) -> (r:
        PassFailure)
        ensures
            r@ == (FailureView {
                error: error@,
                diagnostics: diagnostics@.map_values(|d: Diagnostic| d@),
                decisions: decisions@.map_values(|d: PolicyDecision| d@),
            }),
    {
        PassFailure { error, diagnostics, decisions }
    }

    pub fn error(&self) -> (r: &PassError)
        ensures
            r@ == self@.error,
    {
        &self.error
    }

    pub fn diagnostics(&self) -> (r: &[Diagnostic])
        ensures
            r@.map_values(|d: Diagnostic| d@) == self@.diagnostics,
    {
        self.diagnostics.as_slice()
    }

    pub fn decisions(&self) -> (r: &[PolicyDecision])
        ensures
            r@.map_values(|d: PolicyDecision| d@) == self@.decisions,
    {
        self.decisions.as_slice()
    }
}

} // verus!
