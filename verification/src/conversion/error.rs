use vstd::prelude::*;

verus! {

/// Whether an operation is legal for a conversion target.
#[derive(Clone, Copy, Debug, PartialEq, Eq, Structural)]
pub enum Legality {
    Legal,
    Illegal,
    Unknown,
}

/// Why a type conversion failed. Types, values, blocks, regions and operations are held by
/// their ids.
#[derive(Debug)]
#[allow(inconsistent_fields)]
pub enum TypeConversionError {
    NoConversion { source: u64 },
    RuleFailed { source: u64, message: String },
    NoMaterialization { kind: &'static str, requested: Vec<u64> },
    MaterializationFailed { kind: &'static str, message: String },
    MaterializationCountMismatch { kind: &'static str, expected: usize, actual: usize },
    MaterializationTypeMismatch { kind: &'static str, value: u64, expected: u64, actual: u64 },
    ExpectedSingleValue { operand: usize, actual: usize },
    ResultCountMismatch { expected: usize, actual: usize },
    ResultTypeMismatch { result: usize, expected: Vec<u64>, actual: Vec<u64> },
    SignatureArgumentOutOfBounds { index: usize, argument_count: usize },
    IncompleteSignatureConversion { index: usize },
    SignatureArgumentCountMismatch { expected: usize, actual: usize },
    CannotDropUsedArgument { block: u64, index: usize, value: u64 },
    RegionHasNoEntryBlock(u64),
    MissingRegion(u64),
    MissingBlock(u64),
    MissingValue(u64),
    RegionNotEmptyDuringReplacement { operation: u64, region: u64 },
}

#[allow(inconsistent_fields)]
pub enum TypeErrorView {
    NoConversion { source: u64 },
    RuleFailed { source: u64, message: Seq<char> },
    NoMaterialization { kind: Seq<char>, requested: Seq<u64> },
    MaterializationFailed { kind: Seq<char>, message: Seq<char> },
    MaterializationCountMismatch { kind: Seq<char>, expected: nat, actual: nat },
    MaterializationTypeMismatch { kind: Seq<char>, value: u64, expected: u64, actual: u64 },
    ExpectedSingleValue { operand: nat, actual: nat },
    ResultCountMismatch { expected: nat, actual: nat },
    ResultTypeMismatch { result: nat, expected: Seq<u64>, actual: Seq<u64> },
    SignatureArgumentOutOfBounds { index: nat, argument_count: nat },
    IncompleteSignatureConversion { index: nat },
    SignatureArgumentCountMismatch { expected: nat, actual: nat },
    CannotDropUsedArgument { block: u64, index: nat, value: u64 },
    RegionHasNoEntryBlock(u64),
    MissingRegion(u64),
    MissingBlock(u64),
    MissingValue(u64),
    RegionNotEmptyDuringReplacement { operation: u64, region: u64 },
}

impl View for TypeConversionError {
    type V = TypeErrorView;

    open spec fn view(&self) -> TypeErrorView {
        match self {
            TypeConversionError::NoConversion { source } => TypeErrorView::NoConversion { source: *source },
            TypeConversionError::RuleFailed { source, message } => TypeErrorView::RuleFailed {
                source: *source,
                message: message@,
            },
            TypeConversionError::NoMaterialization { kind, requested } => TypeErrorView::NoMaterialization {
                kind: kind@,
                requested: requested@,
            },
            TypeConversionError::MaterializationFailed { kind, message } => TypeErrorView::MaterializationFailed {
                kind: kind@,
                message: message@,
            },
            TypeConversionError::MaterializationCountMismatch { kind, expected, actual } =>
                TypeErrorView::MaterializationCountMismatch {
                kind: kind@,
                expected: *expected as nat,
                actual: *actual as nat,
            },
            TypeConversionError::MaterializationTypeMismatch { kind, value, expected, actual } =>
                TypeErrorView::MaterializationTypeMismatch {
                kind: kind@,
                value: *value,
                expected: *expected,
                actual: *actual,
            },
            TypeConversionError::ExpectedSingleValue { operand, actual } => TypeErrorView::ExpectedSingleValue {
                operand: *operand as nat,
                actual: *actual as nat,
            },
            TypeConversionError::ResultCountMismatch { expected, actual } => TypeErrorView::ResultCountMismatch {
                expected: *expected as nat,
                actual: *actual as nat,
            },
            TypeConversionError::ResultTypeMismatch { result, expected, actual } => TypeErrorView::ResultTypeMismatch {
                result: *result as nat,
                expected: expected@,
                actual: actual@,
            },
            TypeConversionError::SignatureArgumentOutOfBounds { index, argument_count } =>
                TypeErrorView::SignatureArgumentOutOfBounds {
                index: *index as nat,
                argument_count: *argument_count as nat,
            },
            TypeConversionError::IncompleteSignatureConversion { index } =>
                TypeErrorView::IncompleteSignatureConversion { index: *index as nat },
            TypeConversionError::SignatureArgumentCountMismatch { expected, actual } =>
                TypeErrorView::SignatureArgumentCountMismatch {
                expected: *expected as nat,
                actual: *actual as nat,
            },
            TypeConversionError::CannotDropUsedArgument { block, index, value } =>
                TypeErrorView::CannotDropUsedArgument { block: *block, index: *index as nat, value: *value },
            TypeConversionError::RegionHasNoEntryBlock(r) => TypeErrorView::RegionHasNoEntryBlock(*r),
            TypeConversionError::MissingRegion(r) => TypeErrorView::MissingRegion(*r),
            TypeConversionError::MissingBlock(b) => TypeErrorView::MissingBlock(*b),
            TypeConversionError::MissingValue(v) => TypeErrorView::MissingValue(*v),
            TypeConversionError::RegionNotEmptyDuringReplacement { operation, region } =>
                TypeErrorView::RegionNotEmptyDuringReplacement { operation: *operation, region: *region },
        }
    }
}

/// Why a dialect conversion failed. A rewrite error is held by its message; operations by
/// their ids and names.
#[derive(Debug)]
pub enum ConversionError {
    Rewrite(String),
    DynamicLegalityFailed { operation: u64, name: String, message: String },
    UnlegalizableOperation { operation: u64, name: String, legality: Legality },
    RewriteLimitExceeded { limit: usize },
    Type(TypeConversionError),
}

pub enum ConversionErrorView {
    Rewrite(Seq<char>),
    DynamicLegalityFailed { operation: u64, name: Seq<char>, message: Seq<char> },
    UnlegalizableOperation { operation: u64, name: Seq<char>, legality: Legality },
    RewriteLimitExceeded { limit: nat },
    Type(TypeErrorView),
}

impl View for ConversionError {
    type V = ConversionErrorView;

    open spec fn view(&self) -> ConversionErrorView {
        match self {
            ConversionError::Rewrite(m) => ConversionErrorView::Rewrite(m@),
            ConversionError::DynamicLegalityFailed { operation, name, message } =>
                ConversionErrorView::DynamicLegalityFailed {
                operation: *operation,
                name: name@,
                message: message@,
            },
            ConversionError::UnlegalizableOperation { operation, name, legality } =>
                ConversionErrorView::UnlegalizableOperation {
                operation: *operation,
                name: name@,
                legality: *legality,
            },
            ConversionError::RewriteLimitExceeded { limit } => ConversionErrorView::RewriteLimitExceeded {
                limit: *limit as nat,
            },
            ConversionError::Type(e) => ConversionErrorView::Type(e@),
        }
    }
}

impl ConversionError {
    /// The operation the error is about, if it is about one.
    pub fn operation(&self) -> (r: Option<u64>)
        ensures
            r == match self@ {
                ConversionErrorView::DynamicLegalityFailed { operation, .. } => Some(operation),
                ConversionErrorView::UnlegalizableOperation { operation, .. } => Some(operation),
                _ => None,
            },
    {
        match self {
            ConversionError::DynamicLegalityFailed { operation, .. } => Some(*operation),
            ConversionError::UnlegalizableOperation { operation, .. } => Some(*operation),
            _ => None,
        }
    }
}

} // verus!
