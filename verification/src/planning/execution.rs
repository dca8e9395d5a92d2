use vstd::prelude::*;

use super::plan::{decision_views, ConversionPlan, PlannedCompilationReport, PlannedReportView};
use crate::diagnostic::{Diagnostic, DiagnosticView};
use crate::pass::manager::PassReport;
use crate::policy::decision::{DecisionView, PolicyDecision};

verus! {

/// The reports of the pipelines of a plan, gathered step by step: whether any changed the
/// module, how many passes ran, and the diagnostics and decisions, after the plan's own
/// decisions.
#[derive(Debug)]
pub struct PlanExecution {
    changed: bool,
    passes_run: usize,
    diagnostics: Vec<Diagnostic>,
    decisions: Vec<PolicyDecision>,
}

pub struct ExecutionView {
    pub changed: bool,
    pub passes_run: nat,
    pub diagnostics: Seq<DiagnosticView>,
    pub decisions: Seq<DecisionView>,
}

impl View for PlanExecution {
    type V = ExecutionView;

    closed spec fn view(&self) -> ExecutionView {
        ExecutionView {
            changed: self.changed,
            passes_run: self.passes_run as nat,
            diagnostics: self.diagnostics@.map_values(|d: Diagnostic| d@),
            decisions: decision_views(self.decisions@),
        }
    }
}

impl PlanExecution {
    /// Nothing has run yet; the decisions start with those that selected the plan.
    pub fn start(plan: &ConversionPlan) -> (r: PlanExecution)
        ensures
            r@ == (ExecutionView {
                changed: false,
                passes_run: 0,
                diagnostics: Seq::empty(),
                decisions: plan@.decisions,
            }),
    {
        let source = plan.decisions();
        let mut decisions: Vec<PolicyDecision> = Vec::new();
        for i in 0..source.len()
            invariant
                decisions@.len() == i,
                forall|k: int| 0 <= k < i ==> (#[trigger] decisions@[k])@ == source@[k]@,
        {
            decisions.push(source[i].clone_decision());
        }
        let diagnostics: Vec<Diagnostic> = Vec::new();
        proof {
            assert(decision_views(decisions@) =~= decision_views(source@));
            assert(diagnostics@.map_values(|d: Diagnostic| d@) =~= Seq::<DiagnosticView>::empty());
        }
        PlanExecution { changed: false, passes_run: 0, diagnostics, decisions }
    }

    /// Adds the report of one step's pipeline.
    pub fn record(&mut self, report: PassReport)
        requires
            old(self)@.passes_run + report.passes_run <= usize::MAX,
        ensures
            final(self)@ == (ExecutionView {
                changed: old(self)@.changed || report@.changed,
                passes_run: old(self)@.passes_run + report@.passes_run,
                diagnostics: old(self)@.diagnostics + report@.diagnostics,
                decisions: old(self)@.decisions + report@.decisions,
            }),
    {
        let PassReport { changed, passes_run, diagnostics, decisions } = report;
        let ghost d0 = self.diagnostics@;
        let ghost e0 = self.decisions@;
        let mut diagnostics = diagnostics;
        let mut decisions = decisions;
        let ghost d1 = diagnostics@;
        let ghost e1 = decisions@;
        self.changed = self.changed || changed;
        self.passes_run = self.passes_run + passes_run;
        self.diagnostics.append(&mut diagnostics);
        self.decisions.append(&mut decisions);
        proof {
            assert(self.diagnostics@.map_values(|d: Diagnostic| d@) =~= d0.map_values(|d: Diagnostic| d@) + d1.map_values(
                |d: Diagnostic| d@,
            ));
            assert(decision_views(self.decisions@) =~= decision_views(e0) + decision_views(e1));
        }
    }

    /// The report of the plan's execution.
    pub fn finish(self, plan: ConversionPlan) -> (r: PlannedCompilationReport)
        ensures
            r@ == (PlannedReportView {
                plan: plan@,
                changed: self@.changed,
                passes_run: self@.passes_run,
                diagnostics: self@.diagnostics,
                decisions: self@.decisions,
            }),
    {
        PlannedCompilationReport::new(plan, self.changed, self.passes_run, self.diagnostics, self.decisions)
    }
}

} // verus!
