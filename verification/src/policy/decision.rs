use vstd::prelude::*;

use super::constraint::Property;
use super::objective::Metric;
use super::scope::{ConstraintScope, ScopeView};
use super::value::{PolicyValue, ValueView};

verus! {

#[derive(Debug)]
pub enum PolicyDecisionKind {
    RequiredSatisfied,
    RequiredUnsatisfied,
    PreferenceSelected,
    PreferenceRejected,
    HintApplied,
    HintIgnored,
    ObjectiveTradeoff,
    Other(String),
}

pub enum DecisionKindView {
    RequiredSatisfied,
    RequiredUnsatisfied,
    PreferenceSelected,
    PreferenceRejected,
    HintApplied,
    HintIgnored,
    ObjectiveTradeoff,
    Other(Seq<char>),
}

impl View for PolicyDecisionKind {
    type V = DecisionKindView;

    open spec fn view(&self) -> DecisionKindView {
        match self {
            PolicyDecisionKind::RequiredSatisfied => DecisionKindView::RequiredSatisfied,
            PolicyDecisionKind::RequiredUnsatisfied => DecisionKindView::RequiredUnsatisfied,
            PolicyDecisionKind::PreferenceSelected => DecisionKindView::PreferenceSelected,
            PolicyDecisionKind::PreferenceRejected => DecisionKindView::PreferenceRejected,
            PolicyDecisionKind::HintApplied => DecisionKindView::HintApplied,
            PolicyDecisionKind::HintIgnored => DecisionKindView::HintIgnored,
            PolicyDecisionKind::ObjectiveTradeoff => DecisionKindView::ObjectiveTradeoff,
            PolicyDecisionKind::Other(s) => DecisionKindView::Other(s@),
        }
    }
}

/// What a decision is about.
#[derive(Debug)]
pub enum DecisionSubject {
    Property(Property),
    Metric(Metric),
    Named(String),
}

pub enum SubjectView {
    Property(Seq<char>),
    Metric(Seq<char>),
    Named(Seq<char>),
}

impl View for DecisionSubject {
    type V = SubjectView;

    open spec fn view(&self) -> SubjectView {
        match self {
            DecisionSubject::Property(p) => SubjectView::Property(p@),
            DecisionSubject::Metric(m) => SubjectView::Metric(m@),
            DecisionSubject::Named(s) => SubjectView::Named(s@),
        }
    }
}

impl DecisionSubject {
    pub fn named(name: &str) -> (r: DecisionSubject)
        ensures
            r@ == SubjectView::Named(name@),
    {
        DecisionSubject::Named(name.to_string())
    }
}

/// A record of how a policy constraint or objective was handled. A score is held as the bits
/// of its double; an operation by its id.
#[derive(Debug)]
pub struct PolicyDecision {
    kind: PolicyDecisionKind,
    scope: ConstraintScope,
    subject: DecisionSubject,
    requested: Option<PolicyValue>,
    selected: Option<PolicyValue>,
    score: Option<u64>,
    reason: String,
    pass: Option<&'static str>,
    operation: Option<u64>,
}

pub struct DecisionView {
    pub kind: DecisionKindView,
    pub scope: ScopeView,
    pub subject: SubjectView,
    pub requested: Option<ValueView>,
    pub selected: Option<ValueView>,
    pub score: Option<u64>,
    pub reason: Seq<char>,
    pub pass: Option<Seq<char>>,
    pub operation: Option<u64>,
}

pub open spec fn option_view(v: Option<PolicyValue>) -> Option<ValueView> {
    match v {
        Some(x) => Some(x@),
        None => None,
    }
}

impl View for PolicyDecision {
    type V = DecisionView;

    closed spec fn view(&self) -> DecisionView {
        DecisionView {
            kind: self.kind@,
            scope: self.scope@,
            subject: self.subject@,
            requested: option_view(self.requested),
            selected: option_view(self.selected),
            score: self.score,
            reason: self.reason@,
            pass: match self.pass {
                Some(p) => Some(p@),
                None => None,
            },
            operation: self.operation,
        }
    }
}

impl PolicyDecision {
    pub fn new(
        kind: PolicyDecisionKind,
        scope: ConstraintScope,
        subject: DecisionSubject,
        reason: &str,
    ) -> (r: PolicyDecision)
        ensures
            r@ == (DecisionView {
                kind: kind@,
                scope: scope@,
                subject: subject@,
                requested: None,
                selected: None,
                score: None,
                reason: reason@,
                pass: None,
                operation: None,
            }),
    {
        PolicyDecision {
            kind,
            scope,
            subject,
            requested: None,
            selected: None,
            score: None,
            reason: reason.to_string(),
            pass: None,
            operation: None,
        }
    }

    pub fn for_property(
        kind: PolicyDecisionKind,
        scope: ConstraintScope,
        property: Property,
        reason: &str,
    ) -> (r: PolicyDecision)
        ensures
            r@ == (DecisionView {
                kind: kind@,
                scope: scope@,
                subject: SubjectView::Property(property@),
                requested: None,
                selected: None,
                score: None,
                reason: reason@,
                pass: None,
                operation: None,
            }),
    {
        Self::new(kind, scope, DecisionSubject::Property(property), reason)
    }

    pub fn for_metric(kind: PolicyDecisionKind, scope: ConstraintScope, metric: Metric, reason: &str) -> (r:
        PolicyDecision)
        ensures
            r@ == (DecisionView {
                kind: kind@,
                scope: scope@,
                subject: SubjectView::Metric(metric@),
                requested: None,
                selected: None,
                score: None,
                reason: reason@,
                pass: None,
                operation: None,
            }),
    {
        Self::new(kind, scope, DecisionSubject::Metric(metric), reason)
    }

    pub fn requested(self, value: PolicyValue) -> (r: PolicyDecision)
        ensures
            r@ == (DecisionView { requested: Some(value@), ..self@ }),
    {
        let mut d = self;
        d.requested = Some(value);
        d
    }

    pub fn selected(self, value: PolicyValue) -> (r: PolicyDecision)
        ensures
            r@ == (DecisionView { selected: Some(value@), ..self@ }),
    {
        let mut d = self;
        d.selected = Some(value);
        d
    }

    /// Records a score, given as the bits of a double.
    pub fn score(self, score: u64) -> (r: PolicyDecision)
        ensures
            r@ == (DecisionView { score: Some(score), ..self@ }),
    {
        let mut d = self;
        d.score = Some(score);
        d
    }

    pub fn at_operation(self, operation: u64) -> (r: PolicyDecision)
        ensures
            r@ == (DecisionView { operation: Some(operation), ..self@ }),
    {
        let mut d = self;
        d.operation = Some(operation);
        d
    }

    pub fn kind(&self) -> (r: &PolicyDecisionKind)
        ensures
            r@ == self@.kind,
    {
        &self.kind
    }

    pub fn scope(&self) -> (r: &ConstraintScope)
        ensures
            r@ == self@.scope,
    {
        &self.scope
    }

    pub fn subject(&self) -> (r: &DecisionSubject)
        ensures
            r@ == self@.subject,
    {
        &self.subject
    }

    pub fn requested_value(&self) -> (r: Option<&PolicyValue>)
        ensures
            match r {
                Some(v) => self@.requested == Some(v@),
                None => self@.requested is None,
            },
    {
        match &self.requested {
            Some(v) => Some(v),
            None => None,
        }
    }

    pub fn selected_value(&self) -> (r: Option<&PolicyValue>)
        ensures
            match r {
                Some(v) => self@.selected == Some(v@),
                None => self@.selected is None,
            },
    {
        match &self.selected {
            Some(v) => Some(v),
            None => None,
        }
    }

    pub fn score_value(&self) -> (r: Option<u64>)
        ensures
            r == self@.score,
    {
        self.score
    }

    pub fn reason(&self) -> (r: &str)
        ensures
            r@ == self@.reason,
    {
        self.reason.as_str()
    }

    pub fn pass(&self) -> (r: Option<&'static str>)
        ensures
            match r {
                Some(p) => self@.pass == Some(p@),
                None => self@.pass is None,
            },
    {
        self.pass
    }

    pub fn operation(&self) -> (r: Option<u64>)
        ensures
            r == self@.operation,
    {
        self.operation
    }

    pub fn clone_decision(&self) -> (r: PolicyDecision)
        ensures
            r@ == self@,
    {
        let kind = match &self.kind {
            PolicyDecisionKind::RequiredSatisfied => PolicyDecisionKind::RequiredSatisfied,
            PolicyDecisionKind::RequiredUnsatisfied => PolicyDecisionKind::RequiredUnsatisfied,
            PolicyDecisionKind::PreferenceSelected => PolicyDecisionKind::PreferenceSelected,
            PolicyDecisionKind::PreferenceRejected => PolicyDecisionKind::PreferenceRejected,
            PolicyDecisionKind::HintApplied => PolicyDecisionKind::HintApplied,
            PolicyDecisionKind::HintIgnored => PolicyDecisionKind::HintIgnored,
            PolicyDecisionKind::ObjectiveTradeoff => PolicyDecisionKind::ObjectiveTradeoff,
            PolicyDecisionKind::Other(s) => PolicyDecisionKind::Other(s.clone()),
        };
        let subject = match &self.subject {
            DecisionSubject::Property(p) => DecisionSubject::Property(p.clone_property()),
            DecisionSubject::Metric(m) => DecisionSubject::Metric(m.clone_metric()),
            DecisionSubject::Named(n) => DecisionSubject::Named(n.clone()),
        };
        let requested = match &self.requested {
            Some(v) => Some(v.clone_value()),
            None => None,
        };
        let selected = match &self.selected {
            Some(v) => Some(v.clone_value()),
            None => None,
        };
        PolicyDecision {
            kind,
            scope: self.scope.clone_scope(),
            subject,
            requested,
            selected,
            score: self.score,
            reason: self.reason.clone(),
            pass: self.pass,
            operation: self.operation,
        }
    }

    /// Names the pass that made the decision, unless one is already named.
    pub fn attach_pass(&mut self, pass: &'static str)
        ensures
            final(self)@ == (DecisionView {
                pass: if old(self)@.pass is None {
                    Some(pass@)
                } else {
                    old(self)@.pass
                },
                ..old(self)@
            }),
    {
        if self.pass.is_none() {
            self.pass = Some(pass);
        }
    }
}

/// The decisions recorded while compiling, in order.
#[derive(Debug)]
pub struct DecisionLog {
    decisions: Vec<PolicyDecision>,
}

impl View for DecisionLog {
    type V = Seq<DecisionView>;

    closed spec fn view(&self) -> Seq<DecisionView> {
        self.decisions@.map_values(|d: PolicyDecision| d@)
    }
}

impl DecisionLog {
    pub fn new() -> (r: DecisionLog)
        ensures
            r@ == Seq::<DecisionView>::empty(),
    {
        let r = DecisionLog { decisions: Vec::new() };
        proof {
            assert(r@ =~= Seq::<DecisionView>::empty());
        }
        r
    }

    pub fn record(&mut self, decision: PolicyDecision)
        ensures
            final(self)@ == old(self)@.push(decision@),
    {
        self.decisions.push(decision);
        proof {
            assert(self@ =~= old(self)@.push(decision@));
        }
    }

    pub fn decisions(&self) -> (r: &[PolicyDecision])
        ensures
            r@.map_values(|d: PolicyDecision| d@) == self@,
    {
        self.decisions.as_slice()
    }

    pub fn into_decisions(self) -> (r: Vec<PolicyDecision>)
        ensures
            r@.map_values(|d: PolicyDecision| d@) == self@,
    {
        self.decisions
    }
}

} // verus!
