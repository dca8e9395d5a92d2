use vstd::prelude::*;

use super::error::{ConversionError, ConversionErrorView, Legality, TypeConversionError, TypeErrorView};
use crate::diagnostic::{AnchorView, Diagnostic, DiagnosticSeverity, DiagnosticView};
use crate::planning::assemble::{decimal, push_decimal};

verus! {

/// The names of `ids`, as `names` renders them, between brackets and separated by commas.
pub open spec fn name_list(ids: Seq<u64>, names: Seq<Seq<char>>) -> Seq<char> {
    "["@ + name_items(ids, names) + "]"@
}

pub open spec fn name_items(ids: Seq<u64>, names: Seq<Seq<char>>) -> Seq<char>
    decreases ids.len(),
{
    if ids.len() == 0 {
        Seq::empty()
    } else if ids.len() == 1 {
        names[ids[0] as int]
    } else {
        name_items(ids.drop_last(), names) + ", "@ + names[ids.last() as int]
    }
}

/// The ids a type conversion error names: types, values, blocks, regions or operations.
pub open spec fn type_error_ids(e: TypeErrorView) -> Seq<u64> {
    match e {
        TypeErrorView::NoConversion { source } => seq![source],
        TypeErrorView::RuleFailed { source, .. } => seq![source],
        TypeErrorView::NoMaterialization { requested, .. } => requested,
        TypeErrorView::MaterializationTypeMismatch { value, expected, actual, .. } => seq![value, expected, actual],
        TypeErrorView::ResultTypeMismatch { expected, actual, .. } => expected + actual,
        TypeErrorView::CannotDropUsedArgument { block, value, .. } => seq![block, value],
        TypeErrorView::RegionHasNoEntryBlock(r) => seq![r],
        TypeErrorView::MissingRegion(r) => seq![r],
        TypeErrorView::MissingBlock(b) => seq![b],
        TypeErrorView::MissingValue(v) => seq![v],
        TypeErrorView::RegionNotEmptyDuringReplacement { operation, region } => seq![operation, region],
        _ => Seq::empty(),
    }
}

/// Every id is rendered by `names`.
pub open spec fn ids_named(ids: Seq<u64>, count: nat) -> bool {
    forall|k: int| 0 <= k < ids.len() ==> (#[trigger] ids[k] as int) < count
}

/// The message of a type conversion error, with `names[i]` the text of id `i`.
pub open spec fn type_error_text(e: TypeErrorView, names: Seq<Seq<char>>) -> Seq<char> {
    match e {
        TypeErrorView::NoConversion { source } => "no conversion is registered for type "@ + names[source as int],
        TypeErrorView::RuleFailed { source, message } => "conversion of type "@ + names[source as int]
            + " failed: "@ + message,
        TypeErrorView::NoMaterialization { kind, requested } => "no "@ + kind + " materialization can produce "@
            + name_list(requested, names),
        TypeErrorView::MaterializationFailed { kind, message } => kind + " materialization failed: "@ + message,
        TypeErrorView::MaterializationCountMismatch { kind, expected, actual } => kind
            + " materialization produced "@ + decimal(actual) + " values; expected "@ + decimal(expected),
        TypeErrorView::MaterializationTypeMismatch { kind, value, expected, actual } => kind
            + " materialization produced value "@ + names[value as int] + " of type "@ + names[actual as int]
            + "; expected "@ + names[expected as int],
        TypeErrorView::ExpectedSingleValue { operand, actual } => "converted operand "@ + decimal(operand)
            + " contains "@ + decimal(actual) + " values; expected exactly one"@,
        TypeErrorView::ResultCountMismatch { expected, actual } => "conversion supplied "@ + decimal(actual)
            + " result groups; expected "@ + decimal(expected),
        TypeErrorView::ResultTypeMismatch { result, expected, actual } => "converted result "@ + decimal(result)
            + " has types "@ + name_list(actual, names) + "; expected "@ + name_list(expected, names),
        TypeErrorView::SignatureArgumentOutOfBounds { index, argument_count } => "signature argument "@
            + decimal(index) + " is out of bounds for "@ + decimal(argument_count) + " arguments"@,
        TypeErrorView::IncompleteSignatureConversion { index } => "signature conversion has no mapping for argument "@
            + decimal(index),
        TypeErrorView::SignatureArgumentCountMismatch { expected, actual } => "signature conversion expects "@
            + decimal(expected) + " arguments but block has "@ + decimal(actual),
        TypeErrorView::CannotDropUsedArgument { block, index, value } => "cannot drop used argument "@
            + decimal(index) + " ("@ + names[value as int] + ") of block "@ + names[block as int],
        TypeErrorView::RegionHasNoEntryBlock(r) => "region "@ + names[r as int] + " has no entry block"@,
        TypeErrorView::MissingRegion(r) => "region "@ + names[r as int] + " does not exist"@,
        TypeErrorView::MissingBlock(b) => "block "@ + names[b as int] + " does not exist"@,
        TypeErrorView::MissingValue(v) => "value "@ + names[v as int] + " does not exist"@,
        TypeErrorView::RegionNotEmptyDuringReplacement { operation, region } => "cannot replace operation "@
            + names[operation as int] + "; region "@ + names[region as int]
            + " still owns blocks\u{2014}move its contents first"@,
    }
}

/// The text of a legality, as its variant's name.
pub open spec fn legality_text(l: Legality) -> Seq<char> {
    match l {
        Legality::Legal => "Legal"@,
        Legality::Illegal => "Illegal"@,
        Legality::Unknown => "Unknown"@,
    }
}

/// The ids a conversion error names.
pub open spec fn conversion_error_ids(e: ConversionErrorView) -> Seq<u64> {
    match e {
        ConversionErrorView::DynamicLegalityFailed { operation, .. } => seq![operation],
        ConversionErrorView::UnlegalizableOperation { operation, .. } => seq![operation],
        ConversionErrorView::Type(t) => type_error_ids(t),
        _ => Seq::empty(),
    }
}

/// The message of a conversion error, with `names[i]` the text of id `i`.
pub open spec fn conversion_error_text(e: ConversionErrorView, names: Seq<Seq<char>>) -> Seq<char> {
    match e {
        ConversionErrorView::Rewrite(m) => m,
        ConversionErrorView::DynamicLegalityFailed { operation, name, message } =>
            "dynamic legality check failed for operation "@ + names[operation as int] + " ('"@ + name + "'): "@
                + message,
        ConversionErrorView::UnlegalizableOperation { operation, name, legality } => "operation "@
            + names[operation as int] + " ('"@ + name + "') could not be legalized; classification: "@
            + legality_text(legality),
        ConversionErrorView::RewriteLimitExceeded { limit } => "conversion exceeded the rewrite limit of "@
            + decimal(limit),
        ConversionErrorView::Type(t) => type_error_text(t, names),
    }
}

pub open spec fn name_views(names: Seq<String>) -> Seq<Seq<char>> {
    names.map_values(|s: String| s@)
}

fn push_name(s: &mut String, names: &Vec<String>, id: u64)
    requires
        (id as int) < names@.len(),
    ensures
        final(s)@ == old(s)@ + name_views(names@)[id as int],
{
    assert(names.len() == names@.len());
    s.append(names[id as usize].as_str());
}

fn push_name_list(s: &mut String, names: &Vec<String>, ids: &Vec<u64>)
    requires
        ids_named(ids@, names@.len()),
    ensures
        final(s)@ == old(s)@ + name_list(ids@, name_views(names@)),
{
    let ghost start = s@;
    let ghost nv = name_views(names@);
    s.append("[");
    let mut i: usize = 0;
    proof {
        assert(ids@.take(0) =~= Seq::<u64>::empty());
    }
    while i < ids.len()
        invariant
            0 <= i <= ids@.len(),
            ids_named(ids@, names@.len()),
            nv == name_views(names@),
            s@ == start + "["@ + name_items(ids@.take(i as int), nv),
        decreases ids@.len() - i,
    {
        let ghost before = s@;
        if i > 0 {
            s.append(", ");
        }
        assert(ids[i as int] < names@.len());
        push_name(s, names, ids[i]);
        proof {
            let t = ids@.take(i + 1);
            assert(t.drop_last() =~= ids@.take(i as int));
            assert(t.last() == ids@[i as int]);
            if i == 0 {
                assert(t.len() == 1);
                assert(name_items(ids@.take(0), nv) =~= Seq::<char>::empty());
                assert(s@ =~= start + "["@ + name_items(t, nv));
            } else {
                assert(s@ =~= start + "["@ + name_items(t, nv));
            }
        }
        i = i + 1;
    }
    s.append("]");
    proof {
        assert(ids@.take(ids@.len() as int) =~= ids@);
    }
}

fn text(a: &str) -> (r: String)
    ensures
        r@ == a@,
{
    String::from_str(a)
}

impl TypeConversionError {
    /// The ids the error names.
    pub fn ids(&self) -> (r: Vec<u64>)
        ensures
            r@ == type_error_ids(self@),
    {
        let mut r: Vec<u64> = Vec::new();
        match self {
            TypeConversionError::NoConversion { source } => r.push(*source),
            TypeConversionError::RuleFailed { source, .. } => r.push(*source),
            TypeConversionError::NoMaterialization { requested, .. } => {
                r = requested.clone();
            },
            TypeConversionError::MaterializationTypeMismatch { value, expected, actual, .. } => {
                r.push(*value);
                r.push(*expected);
                r.push(*actual);
            },
            TypeConversionError::ResultTypeMismatch { expected, actual, .. } => {
                r = expected.clone();
                let mut more = actual.clone();
                r.append(&mut more);
            },
            TypeConversionError::CannotDropUsedArgument { block, value, .. } => {
                r.push(*block);
                r.push(*value);
            },
            TypeConversionError::RegionHasNoEntryBlock(x) => r.push(*x),
            TypeConversionError::MissingRegion(x) => r.push(*x),
            TypeConversionError::MissingBlock(x) => r.push(*x),
            TypeConversionError::MissingValue(x) => r.push(*x),
            TypeConversionError::RegionNotEmptyDuringReplacement { operation, region } => {
                r.push(*operation);
                r.push(*region);
            },
            _ => {},
        }
        proof {
            assert(r@ =~= type_error_ids(self@));
        }
        r
    }

    /// The error's message; `names[i]` is the text of id `i`.
    pub fn message(&self, names: &Vec<String>) -> (r: String)
        requires
            ids_named(type_error_ids(self@), names@.len()),
        ensures
            r@ == type_error_text(self@, name_views(names@)),
    {
        let ghost nv = name_views(names@);
        match self {
            TypeConversionError::NoConversion { source } => {
                let mut s = text("no conversion is registered for type ");
                proof { assert(type_error_ids(self@)[0] == *source); }
                push_name(&mut s, names, *source);
                s
            },
            TypeConversionError::RuleFailed { source, message } => {
                let mut s = text("conversion of type ");
                proof { assert(type_error_ids(self@)[0] == *source); }
                push_name(&mut s, names, *source);
                s.append(" failed: ");
                s.append(message.as_str());
                s
            },
            TypeConversionError::NoMaterialization { kind, requested } => {
                let mut s = text("no ");
                s.append(kind);
                s.append(" materialization can produce ");
                push_name_list(&mut s, names, requested);
                s
            },
            TypeConversionError::MaterializationFailed { kind, message } => {
                let mut s = text(kind);
                s.append(" materialization failed: ");
                s.append(message.as_str());
                s
            },
            TypeConversionError::MaterializationCountMismatch { kind, expected, actual } => {
                let mut s = text(kind);
                s.append(" materialization produced ");
                push_decimal(&mut s, *actual);
                s.append(" values; expected ");
                push_decimal(&mut s, *expected);
                s
            },
            TypeConversionError::MaterializationTypeMismatch { kind, value, expected, actual } => {
                proof {
                    let ids = type_error_ids(self@);
                    assert(ids[0] == *value && ids[1] == *expected && ids[2] == *actual);
                }
                let mut s = text(kind);
                s.append(" materialization produced value ");
                push_name(&mut s, names, *value);
                s.append(" of type ");
                push_name(&mut s, names, *actual);
                s.append("; expected ");
                push_name(&mut s, names, *expected);
                s
            },
            TypeConversionError::ExpectedSingleValue { operand, actual } => {
                let mut s = text("converted operand ");
                push_decimal(&mut s, *operand);
                s.append(" contains ");
                push_decimal(&mut s, *actual);
                s.append(" values; expected exactly one");
                s
            },
            TypeConversionError::ResultCountMismatch { expected, actual } => {
                let mut s = text("conversion supplied ");
                push_decimal(&mut s, *actual);
                s.append(" result groups; expected ");
                push_decimal(&mut s, *expected);
                s
            },
            TypeConversionError::ResultTypeMismatch { result, expected, actual } => {
                proof {
                    let ids = type_error_ids(self@);
                    assert(ids == expected@ + actual@);
                    assert forall|k: int| 0 <= k < actual@.len() implies (#[trigger] actual@[k] as int) < names@.len() by {
                        assert(ids[expected@.len() + k] == actual@[k]);
                    }
                    assert forall|k: int| 0 <= k < expected@.len() implies (#[trigger] expected@[k] as int) < names@.len() by {
                        assert(ids[k] == expected@[k]);
                    }
                }
                let mut s = text("converted result ");
                push_decimal(&mut s, *result);
                s.append(" has types ");
                push_name_list(&mut s, names, actual);
                s.append("; expected ");
                push_name_list(&mut s, names, expected);
                s
            },
            TypeConversionError::SignatureArgumentOutOfBounds { index, argument_count } => {
                let mut s = text("signature argument ");
                push_decimal(&mut s, *index);
                s.append(" is out of bounds for ");
                push_decimal(&mut s, *argument_count);
                s.append(" arguments");
                s
            },
            TypeConversionError::IncompleteSignatureConversion { index } => {
                let mut s = text("signature conversion has no mapping for argument ");
                push_decimal(&mut s, *index);
                s
            },
            TypeConversionError::SignatureArgumentCountMismatch { expected, actual } => {
                let mut s = text("signature conversion expects ");
                push_decimal(&mut s, *expected);
                s.append(" arguments but block has ");
                push_decimal(&mut s, *actual);
                s
            },
            TypeConversionError::CannotDropUsedArgument { block, index, value } => {
                proof {
                    let ids = type_error_ids(self@);
                    assert(ids[0] == *block && ids[1] == *value);
                }
                let mut s = text("cannot drop used argument ");
                push_decimal(&mut s, *index);
                s.append(" (");
                push_name(&mut s, names, *value);
                s.append(") of block ");
                push_name(&mut s, names, *block);
                s
            },
            TypeConversionError::RegionHasNoEntryBlock(x) => {
                proof { assert(type_error_ids(self@)[0] == *x); }
                let mut s = text("region ");
                push_name(&mut s, names, *x);
                s.append(" has no entry block");
                s
            },
            TypeConversionError::MissingRegion(x) => {
                proof { assert(type_error_ids(self@)[0] == *x); }
                let mut s = text("region ");
                push_name(&mut s, names, *x);
                s.append(" does not exist");
                s
            },
            TypeConversionError::MissingBlock(x) => {
                proof { assert(type_error_ids(self@)[0] == *x); }
                let mut s = text("block ");
                push_name(&mut s, names, *x);
                s.append(" does not exist");
                s
            },
            TypeConversionError::MissingValue(x) => {
                proof { assert(type_error_ids(self@)[0] == *x); }
                let mut s = text("value ");
                push_name(&mut s, names, *x);
                s.append(" does not exist");
                s
            },
            TypeConversionError::RegionNotEmptyDuringReplacement { operation, region } => {
                proof {
                    let ids = type_error_ids(self@);
                    assert(ids[0] == *operation && ids[1] == *region);
                }
                let mut s = text("cannot replace operation ");
                push_name(&mut s, names, *operation);
                s.append("; region ");
                push_name(&mut s, names, *region);
                s.append(" still owns blocks\u{2014}move its contents first");
                s
            },
        }
    }
}

fn legality_str(l: Legality) -> (r: &'static str)
    ensures
        r@ == legality_text(l),
{
    match l {
        Legality::Legal => "Legal",
        Legality::Illegal => "Illegal",
        Legality::Unknown => "Unknown",
    }
}

impl ConversionError {
    /// The ids the error names.
    pub fn ids(&self) -> (r: Vec<u64>)
        ensures
            r@ == conversion_error_ids(self@),
    {
        match self {
            ConversionError::DynamicLegalityFailed { operation, .. } => {
                let mut r = Vec::new();
                r.push(*operation);
                proof { assert(r@ =~= conversion_error_ids(self@)); }
                r
            },
            ConversionError::UnlegalizableOperation { operation, .. } => {
                let mut r = Vec::new();
                r.push(*operation);
                proof { assert(r@ =~= conversion_error_ids(self@)); }
                r
            },
            ConversionError::Type(t) => t.ids(),
            _ => {
                let r = Vec::new();
                proof { assert(r@ =~= conversion_error_ids(self@)); }
                r
            },
        }
    }

    /// The error's message; `names[i]` is the text of id `i`.
    pub fn message(&self, names: &Vec<String>) -> (r: String)
        requires
            ids_named(conversion_error_ids(self@), names@.len()),
        ensures
            r@ == conversion_error_text(self@, name_views(names@)),
    {
        match self {
            ConversionError::Rewrite(m) => m.clone(),
            ConversionError::DynamicLegalityFailed { operation, name, message } => {
                proof { assert(conversion_error_ids(self@)[0] == *operation); }
                let mut s = text("dynamic legality check failed for operation ");
                push_name(&mut s, names, *operation);
                s.append(" ('");
                s.append(name.as_str());
                s.append("'): ");
                s.append(message.as_str());
                s
            },
            ConversionError::UnlegalizableOperation { operation, name, legality } => {
                proof { assert(conversion_error_ids(self@)[0] == *operation); }
                let mut s = text("operation ");
                push_name(&mut s, names, *operation);
                s.append(" ('");
                s.append(name.as_str());
                s.append("') could not be legalized; classification: ");
                s.append(legality_str(*legality));
                s
            },
            ConversionError::RewriteLimitExceeded { limit } => {
                let mut s = text("conversion exceeded the rewrite limit of ");
                push_decimal(&mut s, *limit);
                s
            },
            ConversionError::Type(t) => t.message(names),
        }
    }
}

/// The operation a conversion error is about, if it is about one.
pub open spec fn conversion_error_operation(e: ConversionErrorView) -> Option<u64> {
    match e {
        ConversionErrorView::DynamicLegalityFailed { operation, .. } => Some(operation),
        ConversionErrorView::UnlegalizableOperation { operation, .. } => Some(operation),
        _ => None,
    }
}

impl ConversionError {
    /// The diagnostic a conversion pass reports when the conversion fails: an error with the
    /// error's message and the code `conversion.failed`, anchored at the operation the error
    /// is about when there is one.
    pub fn diagnostic(&self, names: &Vec<String>) -> (r: Diagnostic)
        requires
            ids_named(conversion_error_ids(self@), names@.len()),
        ensures
            r@ == (DiagnosticView {
                severity: DiagnosticSeverity::Error,
                code: Some("conversion.failed"@),
                message: conversion_error_text(self@, name_views(names@)),
                pass: None,
                anchor: match conversion_error_operation(self@) {
                    Some(o) => Some(AnchorView::Operation(o)),
                    None => None,
                },
                notes: Seq::empty(),
            }),
    {
        let message = self.message(names);
        let diagnostic = Diagnostic::error(message.as_str()).with_code("conversion.failed");
        match self.operation() {
            Some(operation) => diagnostic.at_operation(operation),
            None => diagnostic,
        }
    }
}

} // verus!
