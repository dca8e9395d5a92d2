use vstd::prelude::*;

use super::context::PassContext;
use super::error::{PassError, PassErrorView};
use crate::diagnostic::{count_errors, Diagnostic, DiagnosticView};
use crate::policy::decision::{DecisionView, PolicyDecision};
use crate::registry::pass::{clone_strings, names_view};

verus! {

/// The passes of a pipeline, by name and in the order they run, and whether the module is
/// verified after each of them.
#[derive(Debug)]
pub struct PassManager {
    passes: Vec<String>,
    verify_each: bool,
}

pub struct PassManagerView {
    pub passes: Seq<Seq<char>>,
    pub verify_each: bool,
}

impl View for PassManager {
    type V = PassManagerView;

    closed spec fn view(&self) -> PassManagerView {
        PassManagerView { passes: names_view(self.passes@), verify_each: self.verify_each }
    }
}

impl PassManager {
    /// No passes; the module is verified after each pass.
    pub fn new() -> (r: PassManager)
        ensures
            r@.passes == Seq::<Seq<char>>::empty(),
            r@.verify_each,
    {
        let r = PassManager { passes: Vec::new(), verify_each: true };
        proof {
            assert(names_view(r.passes@) =~= Seq::<Seq<char>>::empty());
        }
        r
    }

    /// Appends a pass to the pipeline.
    pub fn add_pass(&mut self, pass: &str)
        ensures
            final(self)@.passes == old(self)@.passes.push(pass@),
            final(self)@.verify_each == old(self)@.verify_each,
    {
        self.passes.push(pass.to_string());
        proof {
            assert(names_view(self.passes@) =~= names_view(old(self).passes@).push(pass@));
        }
    }

    /// Appends a pass built by a registered factory.
    pub fn add_boxed_pass(&mut self, pass: &str)
        ensures
            final(self)@.passes == old(self)@.passes.push(pass@),
            final(self)@.verify_each == old(self)@.verify_each,
    {
        self.add_pass(pass)
    }

    /// Turns verification after each pass on or off.
    pub fn verify_each(self, enabled: bool) -> (r: PassManager)
        ensures
            r@ == (PassManagerView { verify_each: enabled, ..self@ }),
    {
        PassManager { passes: self.passes, verify_each: enabled }
    }

    pub fn verifies_each(&self) -> (r: bool)
        ensures
            r == self@.verify_each,
    {
        self.verify_each
    }

    /// The passes, in the order they run.
    pub fn passes(&self) -> (r: Vec<String>)
        ensures
            names_view(r@) == self@.passes,
    {
        clone_strings(&self.passes)
    }

    pub fn len(&self) -> (r: usize)
        ensures
            r == self@.passes.len(),
    {
        self.passes.len()
    }
}

impl Default for PassManager {
    fn default() -> (r: PassManager)
        ensures
            r@.passes == Seq::<Seq<char>>::empty(),
            r@.verify_each,
    {
        PassManager::new()
    }
}

/// What a run of all the passes gives back: whether any pass changed the module, how many
/// passes ran, and the diagnostics and decisions they reported.
#[derive(Debug)]
pub struct PassReport {
    pub changed: bool,
    pub passes_run: usize,
    pub diagnostics: Vec<Diagnostic>,
    pub decisions: Vec<PolicyDecision>,
}

pub struct ReportView {
    pub changed: bool,
    pub passes_run: nat,
    pub diagnostics: Seq<DiagnosticView>,
    pub decisions: Seq<DecisionView>,
}

impl View for PassReport {
    type V = ReportView;

    open spec fn view(&self) -> ReportView {
        ReportView {
            changed: self.changed,
            passes_run: self.passes_run as nat,
            diagnostics: self.diagnostics@.map_values(|d: Diagnostic| d@),
            decisions: self.decisions@.map_values(|d: PolicyDecision| d@),
        }
    }
}

/// The message of the failure given to a pass that returned success but reported an error
/// diagnostic.
pub open spec fn error_diagnostic_message() -> Seq<char> {
    seq!['p', 'a', 's', 's', ' ', 'e', 'm', 'i', 't', 't', 'e', 'd', ' ', 'a', 'n', ' ', 'e', 'r', 'r', 'o', 'r', ' ', 'd', 'i', 'a', 'g', 'n', 'o', 's', 't', 'i', 'c']
}

/// The decisions of a pass-manager run between the passes themselves. The caller runs each
/// pass on the module; the run says, after each, whether the pipeline goes on.
#[derive(Debug)]
pub struct PassRun {
    changed: bool,
    passes_run: usize,
    total: usize,
    previous_error_count: usize,
    current: Option<&'static str>,
}

pub struct RunView {
    pub changed: bool,
    pub passes_run: nat,
    pub total: nat,
    pub previous_error_count: nat,
    pub current: Option<Seq<char>>,
}

impl View for PassRun {
    type V = RunView;

    closed spec fn view(&self) -> RunView {
        RunView {
            changed: self.changed,
            passes_run: self.passes_run as nat,
            total: self.total as nat,
            previous_error_count: self.previous_error_count as nat,
            current: match self.current {
                Some(p) => Some(p@),
                None => None,
            },
        }
    }
}

impl PassRun {
    /// Starts a run of the passes of `manager`: nothing has run or changed yet.
    pub fn start(manager: &PassManager) -> (r: PassRun)
        ensures
            r@ == (RunView {
                changed: false,
                passes_run: 0,
                total: manager@.passes.len(),
                previous_error_count: 0,
                current: None,
            }),
    {
        PassRun {
            changed: false,
            passes_run: 0,
            total: manager.len(),
            previous_error_count: 0,
            current: None,
        }
    }

    /// Starts the next pass: it becomes the current pass of the run and of the context, and
    /// the number of error diagnostics so far is remembered.
    pub fn begin(&mut self, context: &mut PassContext, pass: &'static str)
        ensures
            final(context)@ == (super::context::ContextView {
                current_pass: Some(pass@),
                changed: false,
                ..old(context)@
            }),
            final(self)@ == (RunView {
                previous_error_count: count_errors(old(context)@.diagnostics),
                current: Some(pass@),
                ..old(self)@
            }),
    {
        context.begin_pass(pass);
        self.previous_error_count = context.error_count();
        self.current = Some(pass);
    }

    /// Decides what the pass that just ran returned. A pass that failed fails the run with its
    /// own error; one that succeeded but reported a new error diagnostic fails it too. A pass
    /// that succeeded is counted, and the result says whether it changed the module (then the
    /// cached analyses are stale).
    pub fn finish(&mut self, context: &PassContext, result: Result<(), PassError>) -> (r: Result<
        bool,
        PassError,
    >)
        requires
            old(self)@.passes_run < old(self)@.total,
            old(self)@.current is Some,
        ensures
            match result {
                Err(e) => r matches Err(f) && f@ == e@ && final(self)@ == old(self)@,
                Ok(()) => if count_errors(context@.diagnostics) > old(self)@.previous_error_count {
                    &&& r matches Err(f) && f@ == (PassErrorView {
                        pass: old(self)@.current->0,
                        message: error_diagnostic_message(),
                    })
                    &&& final(self)@ == old(self)@
                } else {
                    &&& r == Ok::<bool, PassError>(context@.changed)
                    &&& final(self)@ == (RunView {
                        passes_run: old(self)@.passes_run + 1,
                        changed: old(self)@.changed || context@.changed,
                        ..old(self)@
                    })
                },
            },
    {
        match result {
            Err(e) => Err(e),
            Ok(()) => {
                let pass = match self.current {
                    Some(p) => p,
                    None => "",
                };
                if context.error_count() > self.previous_error_count {
                    let message = "pass emitted an error diagnostic";
                    proof {
                        reveal_strlit("pass emitted an error diagnostic");
                        assert(message@ =~= error_diagnostic_message());
                    }
                    Err(PassError::failed(pass, message))
                } else {
                    self.passes_run = self.passes_run + 1;
                    self.changed = self.changed || context.changed();
                    Ok(context.changed())
                }
            },
        }
    }

    /// Ends the current pass.
    pub fn end(&mut self, context: &mut PassContext)
        ensures
            final(context)@ == (super::context::ContextView { current_pass: None, ..old(context)@ }),
            final(self)@ == (RunView { current: None, ..old(self)@ }),
    {
        context.end_pass();
        self.current = None;
    }

    /// The report of a run in which no pass failed.
    pub fn into_report(self, context: PassContext) -> (r: PassReport)
        ensures
            r@ == (ReportView {
                changed: self@.changed,
                passes_run: self@.passes_run,
                diagnostics: context@.diagnostics,
                decisions: context@.decisions,
            }),
    {
        let (diagnostics, decisions) = context.into_reports();
        PassReport { changed: self.changed, passes_run: self.passes_run, diagnostics, decisions }
    }
}

} // verus!
