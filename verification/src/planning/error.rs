use vstd::prelude::*;

use super::stage::ConversionStage;
use crate::text::join5;

verus! {

/// Why no conversion plan was found.
#[derive(Debug)]
pub enum PlanningError {
    NoRoute { source: ConversionStage, target: ConversionStage },
    MissingPipeline { edge: String, pipeline: String },
}

pub enum PlanningErrorView {
    NoRoute { source: Seq<char>, target: Seq<char> },
    MissingPipeline { edge: Seq<char>, pipeline: Seq<char> },
}

impl View for PlanningError {
    type V = PlanningErrorView;

    open spec fn view(&self) -> PlanningErrorView {
        match self {
            PlanningError::NoRoute { source, target } => PlanningErrorView::NoRoute {
                source: source@,
                target: target@,
            },
            PlanningError::MissingPipeline { edge, pipeline } => PlanningErrorView::MissingPipeline {
                edge: edge@,
                pipeline: pipeline@,
            },
        }
    }
}

/// The message of a planning error.
pub open spec fn planning_error_text(e: PlanningErrorView) -> Seq<char> {
    match e {
        PlanningErrorView::NoRoute { source, target } => "no legal conversion route exists from '"@ + source
            + "' to '"@ + target + "'"@,
        PlanningErrorView::MissingPipeline { edge, pipeline } => "conversion edge '"@ + edge
            + "' references missing pipeline '"@ + pipeline + "'"@,
    }
}

impl PlanningError {
    /// The error's message.
    pub fn to_string(&self) -> (r: String)
        ensures
            r@ == planning_error_text(self@),
    {
        match self {
            PlanningError::NoRoute { source, target } => join5(
                "no legal conversion route exists from '",
                source.as_str(),
                "' to '",
                target.as_str(),
                "'",
            ),
            PlanningError::MissingPipeline { edge, pipeline } => join5(
                "conversion edge '",
                edge.as_str(),
                "' references missing pipeline '",
                pipeline.as_str(),
                "'",
            ),
        }
    }
}

} // verus!
