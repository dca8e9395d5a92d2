use vstd::prelude::*;

verus! {

/// Where a constraint or an objective applies. Operation names and symbol references are
/// held by their text.
#[derive(Debug)]
pub enum ConstraintScope {
    Global,
    Dialect(String),
    Operation(String),
    Symbol(String),
    Tag(String),
}

pub enum ScopeView {
    Global,
    Dialect(Seq<char>),
    Operation(Seq<char>),
    Symbol(Seq<char>),
    Tag(Seq<char>),
}

impl View for ConstraintScope {
    type V = ScopeView;

    open spec fn view(&self) -> ScopeView {
        match self {
            ConstraintScope::Global => ScopeView::Global,
            ConstraintScope::Dialect(s) => ScopeView::Dialect(s@),
            ConstraintScope::Operation(s) => ScopeView::Operation(s@),
            ConstraintScope::Symbol(s) => ScopeView::Symbol(s@),
            ConstraintScope::Tag(s) => ScopeView::Tag(s@),
        }
    }
}

impl ConstraintScope {
    pub fn dialect(name: &str) -> (r: ConstraintScope)
        ensures
            r@ == ScopeView::Dialect(name@),
    {
        ConstraintScope::Dialect(name.to_string())
    }

    pub fn operation(name: &str) -> (r: ConstraintScope)
        ensures
            r@ == ScopeView::Operation(name@),
    {
        ConstraintScope::Operation(name.to_string())
    }

    pub fn symbol(reference: &str) -> (r: ConstraintScope)
        ensures
            r@ == ScopeView::Symbol(reference@),
    {
        ConstraintScope::Symbol(reference.to_string())
    }

    pub fn tag(name: &str) -> (r: ConstraintScope)
        ensures
            r@ == ScopeView::Tag(name@),
    {
        ConstraintScope::Tag(name.to_string())
    }

    pub fn is_global(&self) -> (r: bool)
        ensures
            r == (self@ == ScopeView::Global),
    {
        match self {
            ConstraintScope::Global => true,
            _ => false,
        }
    }

    /// Whether two scopes are the same.
    pub fn same(&self, other: &ConstraintScope) -> (r: bool)
        ensures
            r == (self@ == other@),
    {
        match (self, other) {
            (ConstraintScope::Global, ConstraintScope::Global) => true,
            (ConstraintScope::Dialect(a), ConstraintScope::Dialect(b)) => *a == *b,
            (ConstraintScope::Operation(a), ConstraintScope::Operation(b)) => *a == *b,
            (ConstraintScope::Symbol(a), ConstraintScope::Symbol(b)) => *a == *b,
            (ConstraintScope::Tag(a), ConstraintScope::Tag(b)) => *a == *b,
            _ => false,
        }
    }

    pub fn clone_scope(&self) -> (r: ConstraintScope)
        ensures
            r@ == self@,
    {
        match self {
            ConstraintScope::Global => ConstraintScope::Global,
            ConstraintScope::Dialect(s) => ConstraintScope::Dialect(s.clone()),
            ConstraintScope::Operation(s) => ConstraintScope::Operation(s.clone()),
            ConstraintScope::Symbol(s) => ConstraintScope::Symbol(s.clone()),
            ConstraintScope::Tag(s) => ConstraintScope::Tag(s.clone()),
        }
    }
}

} // verus!
