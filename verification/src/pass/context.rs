use vstd::prelude::*;

use crate::diagnostic::{count_errors, Diagnostic, DiagnosticEngine, DiagnosticView};
use crate::policy::decision::{DecisionLog, DecisionView, PolicyDecision};
use crate::request::{CompileRequest, RequestView};

verus! {

/// What a running pass sees: the request, whether it changed the module, and the
/// diagnostics and decisions reported so far.
#[derive(Debug)]
pub struct PassContext {
    changed: bool,
    request: CompileRequest,
    current_pass: Option<&'static str>,
    diagnostics: DiagnosticEngine,
    decisions: DecisionLog,
}

pub struct ContextView {
    pub changed: bool,
    pub request: RequestView,
    pub current_pass: Option<Seq<char>>,
    pub diagnostics: Seq<DiagnosticView>,
    pub decisions: Seq<DecisionView>,
}

impl View for PassContext {
    type V = ContextView;

    closed spec fn view(&self) -> ContextView {
        ContextView {
            changed: self.changed,
            request: self.request@,
            current_pass: match self.current_pass {
                Some(p) => Some(p@),
                None => None,
            },
            diagnostics: self.diagnostics@,
            decisions: self.decisions@,
        }
    }
}

impl PassContext {
    #[verifier::type_invariant]
    spec fn inv(self) -> bool {
        &&& self.diagnostics.wf()
        &&& self.request.wf()
    }

    pub fn new(request: CompileRequest) -> (r: PassContext)
        requires
            request.wf(),
        ensures
            r@ == (ContextView {
                changed: false,
                request: request@,
                current_pass: None,
                diagnostics: Seq::empty(),
                decisions: Seq::empty(),
            }),
    {
        PassContext {
            changed: false,
            request,
            current_pass: None,
            diagnostics: DiagnosticEngine::new(),
            decisions: DecisionLog::new(),
        }
    }

    pub fn request(&self) -> (r: &CompileRequest)
        ensures
            r@ == self@.request,
            r.wf(),
    {
        proof {
            use_type_invariant(self);
        }
        &self.request
    }

    pub fn current_pass(&self) -> (r: Option<&'static str>)
        ensures
            match r {
                Some(p) => self@.current_pass == Some(p@),
                None => self@.current_pass is None,
            },
    {
        self.current_pass
    }

    /// Reports a diagnostic, naming the current pass on it unless it names one.
    pub fn emit(&mut self, diagnostic: Diagnostic)
        requires
            old(self)@.diagnostics.len() < usize::MAX,
        ensures
            final(self)@.diagnostics.len() == old(self)@.diagnostics.len() + 1,
            final(self)@.diagnostics.drop_last() == old(self)@.diagnostics,
            ({
                let d = final(self)@.diagnostics.last();
                &&& d.severity == diagnostic@.severity
                &&& d.message == diagnostic@.message
                &&& d.code == diagnostic@.code
                &&& d.anchor == diagnostic@.anchor
                &&& d.notes == diagnostic@.notes
                &&& d.pass == if diagnostic@.pass is None {
                    old(self)@.current_pass
                } else {
                    diagnostic@.pass
                }
            }),
            final(self)@ == (ContextView { diagnostics: final(self)@.diagnostics, ..old(self)@ }),
    {
        proof {
            use_type_invariant(&*self);
        }
        let mut diagnostic = diagnostic;
        match self.current_pass {
            Some(pass) => diagnostic.attach_pass(pass),
            None => {},
        }
        let mut engine = DiagnosticEngine::new();
        std::mem::swap(&mut engine, &mut self.diagnostics);
        engine.emit(diagnostic);
        std::mem::swap(&mut engine, &mut self.diagnostics);
        proof {
            assert(self@.diagnostics.drop_last() =~= old(self)@.diagnostics);
        }
    }

    /// Records a decision, naming the current pass on it unless it names one.
    pub fn record_decision(&mut self, decision: PolicyDecision)
        ensures
            final(self)@.decisions.len() == old(self)@.decisions.len() + 1,
            final(self)@.decisions.drop_last() == old(self)@.decisions,
            final(self)@.decisions.last() == (DecisionView {
                pass: if decision@.pass is None {
                    old(self)@.current_pass
                } else {
                    decision@.pass
                },
                ..decision@
            }),
            final(self)@ == (ContextView { decisions: final(self)@.decisions, ..old(self)@ }),
    {
        proof {
            use_type_invariant(&*self);
        }
        let mut decision = decision;
        match self.current_pass {
            Some(pass) => decision.attach_pass(pass),
            None => {},
        }
        let mut log = DecisionLog::new();
        std::mem::swap(&mut log, &mut self.decisions);
        log.record(decision);
        std::mem::swap(&mut log, &mut self.decisions);
        proof {
            assert(self@.decisions.drop_last() =~= old(self)@.decisions);
        }
    }

    pub fn diagnostics(&self) -> (r: &[Diagnostic])
        ensures
            r@.map_values(|d: Diagnostic| d@) == self@.diagnostics,
    {
        self.diagnostics.diagnostics()
    }

    pub fn decisions(&self) -> (r: &[PolicyDecision])
        ensures
            r@.map_values(|d: PolicyDecision| d@) == self@.decisions,
    {
        self.decisions.decisions()
    }

    /// Number of error diagnostics reported.
    pub fn error_count(&self) -> (r: usize)
        ensures
            r == count_errors(self@.diagnostics),
    {
        proof {
            use_type_invariant(self);
        }
        self.diagnostics.error_count()
    }

    pub fn has_errors(&self) -> (r: bool)
        ensures
            r == (count_errors(self@.diagnostics) > 0),
    {
        proof {
            use_type_invariant(self);
        }
        self.diagnostics.has_errors()
    }

    pub fn mark_changed(&mut self)
        ensures
            final(self)@ == (ContextView { changed: true, ..old(self)@ }),
    {
        proof {
            use_type_invariant(&*self);
        }
        self.changed = true;
    }

    pub fn changed(&self) -> (r: bool)
        ensures
            r == self@.changed,
    {
        self.changed
    }

    /// Starts a pass: it becomes the current pass and nothing has changed yet.
    pub fn begin_pass(&mut self, pass: &'static str)
        ensures
            final(self)@ == (ContextView { current_pass: Some(pass@), changed: false, ..old(self)@ }),
    {
        proof {
            use_type_invariant(&*self);
        }
        self.current_pass = Some(pass);
        self.changed = false;
    }

    pub fn end_pass(&mut self)
        ensures
            final(self)@ == (ContextView { current_pass: None, ..old(self)@ }),
    {
        proof {
            use_type_invariant(&*self);
        }
        self.current_pass = None;
    }

    /// The diagnostics and decisions, in the order they were reported.
    pub fn into_reports(self) -> (r: (Vec<Diagnostic>, Vec<PolicyDecision>))
        ensures
            r.0@.map_values(|d: Diagnostic| d@) == self@.diagnostics,
            r.1@.map_values(|d: PolicyDecision| d@) == self@.decisions,
    {
        (self.diagnostics.into_diagnostics(), self.decisions.into_decisions())
    }
}

} // verus!
