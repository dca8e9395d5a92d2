use vstd::prelude::*;

use super::constraint::Property;
use super::scope::{ConstraintScope, ScopeView};

verus! {

/// Why a compile request's policy was rejected. A weight is held as the bits of its double.
#[derive(Debug)]
pub enum PolicyError {
    InvalidProperty(String),
    InvalidMetric(String),
    InvalidWeight { owner: String, weight: u64 },
    InvalidValue,
    EmptyOneOf { property: Property },
    NonNumericBound { property: Property },
    ConflictingRequiredConstraints { scope: ConstraintScope, property: Property },
}

pub enum PolicyErrorView {
    InvalidProperty(Seq<char>),
    InvalidMetric(Seq<char>),
    InvalidWeight { owner: Seq<char>, weight: u64 },
    InvalidValue,
    EmptyOneOf { property: Seq<char> },
    NonNumericBound { property: Seq<char> },
    ConflictingRequiredConstraints { scope: ScopeView, property: Seq<char> },
}

impl View for PolicyError {
    type V = PolicyErrorView;

    open spec fn view(&self) -> PolicyErrorView {
        match self {
            PolicyError::InvalidProperty(s) => PolicyErrorView::InvalidProperty(s@),
            PolicyError::InvalidMetric(s) => PolicyErrorView::InvalidMetric(s@),
            PolicyError::InvalidWeight { owner, weight } => PolicyErrorView::InvalidWeight {
                owner: owner@,
                weight: *weight,
            },
            PolicyError::InvalidValue => PolicyErrorView::InvalidValue,
            PolicyError::EmptyOneOf { property } => PolicyErrorView::EmptyOneOf {
                property: property@,
            },
            PolicyError::NonNumericBound { property } => PolicyErrorView::NonNumericBound {
                property: property@,
            },
            PolicyError::ConflictingRequiredConstraints { scope, property } =>
                PolicyErrorView::ConflictingRequiredConstraints { scope: scope@, property: property@ },
        }
    }
}

} // verus!
