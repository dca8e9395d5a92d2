use vstd::prelude::*;

use super::error::{ConversionError, ConversionErrorView, Legality};

verus! {

/// A partial conversion rewrites the illegal operations; a full one also those of unknown
/// legality.
#[derive(Clone, Copy, Debug, PartialEq, Eq, Structural)]
pub enum ConversionMode {
    Partial,
    Full,
}

/// The limit on the number of rewrites of one conversion.
#[derive(Debug)]
pub struct ConversionConfig {
    pub max_rewrites: usize,
}

impl Default for ConversionConfig {
    fn default() -> (r: ConversionConfig)
        ensures
            r.max_rewrites == 100000,
    {
        ConversionConfig { max_rewrites: 100000 }
    }
}

/// What a conversion did.
#[derive(Clone, Copy, Debug)]
pub struct ConversionReport {
    pub rewrites: usize,
    pub operations_examined: usize,
    pub remaining_unknown_operations: usize,
    pub block_arguments_converted: usize,
}

/// An operation must be rewritten: it is illegal, or of unknown legality in a full conversion.
pub open spec fn needs_conversion(mode: ConversionMode, legality: Legality) -> bool {
    legality == Legality::Illegal || (mode == ConversionMode::Full && legality == Legality::Unknown)
}

pub fn requires_conversion(mode: ConversionMode, legality: Legality) -> (r: bool)
    ensures
        r == needs_conversion(mode, legality),
{
    match (mode, legality) {
        (_, Legality::Illegal) => true,
        (ConversionMode::Full, Legality::Unknown) => true,
        _ => false,
    }
}

/// The decisions of a conversion between the rewrites themselves: the caller classifies the
/// operations and applies the patterns; the run counts, enforces the rewrite limit and says
/// when an operation cannot be legalized.
#[derive(Debug)]
pub struct ConversionRun {
    mode: ConversionMode,
    max_rewrites: usize,
    rewrites: usize,
    operations_examined: usize,
    remaining_unknown_operations: usize,
}

pub struct ConversionRunView {
    pub mode: ConversionMode,
    pub max_rewrites: nat,
    pub rewrites: nat,
    pub operations_examined: nat,
    pub remaining_unknown_operations: nat,
}

impl View for ConversionRun {
    type V = ConversionRunView;

    closed spec fn view(&self) -> ConversionRunView {
        ConversionRunView {
            mode: self.mode,
            max_rewrites: self.max_rewrites as nat,
            rewrites: self.rewrites as nat,
            operations_examined: self.operations_examined as nat,
            remaining_unknown_operations: self.remaining_unknown_operations as nat,
        }
    }
}

impl ConversionRun {
    pub fn start(mode: ConversionMode, config: &ConversionConfig) -> (r: ConversionRun)
        ensures
            r@ == (ConversionRunView {
                mode,
                max_rewrites: config.max_rewrites as nat,
                rewrites: 0,
                operations_examined: 0,
                remaining_unknown_operations: 0,
            }),
    {
        ConversionRun {
            mode,
            max_rewrites: config.max_rewrites,
            rewrites: 0,
            operations_examined: 0,
            remaining_unknown_operations: 0,
        }
    }

    /// Counts an examined operation and says whether it must be rewritten.
    pub fn examine(&mut self, legality: Legality) -> (r: bool)
        requires
            old(self)@.operations_examined < usize::MAX,
        ensures
            r == needs_conversion(old(self)@.mode, legality),
            final(self)@ == (ConversionRunView {
                operations_examined: old(self)@.operations_examined + 1,
                ..old(self)@
            }),
    {
        self.operations_examined = self.operations_examined + 1;
        requires_conversion(self.mode, legality)
    }

    /// Before rewriting an operation: fails once the rewrite limit is reached.
    pub fn check_limit(&self) -> (r: Result<(), ConversionError>)
        ensures
            match r {
                Ok(()) => self@.rewrites < self@.max_rewrites,
                Err(e) => self@.rewrites >= self@.max_rewrites && e@ == ConversionErrorView::RewriteLimitExceeded {
                    limit: self@.max_rewrites,
                },
            },
    {
        if self.rewrites >= self.max_rewrites {
            Err(ConversionError::RewriteLimitExceeded { limit: self.max_rewrites })
        } else {
            Ok(())
        }
    }

    /// After trying the patterns on an operation that must be rewritten: counts the rewrite,
    /// or fails when no pattern rewrote it.
    pub fn record_rewrite(&mut self, rewritten: bool, operation: u64, name: &str, legality: Legality) -> (r:
        Result<(), ConversionError>)
        requires
            old(self)@.rewrites < old(self)@.max_rewrites,
        ensures
            match r {
                Ok(()) => rewritten && final(self)@ == (ConversionRunView {
                    rewrites: old(self)@.rewrites + 1,
                    ..old(self)@
                }),
                Err(e) => !rewritten && final(self)@ == old(self)@ && e@
                    == ConversionErrorView::UnlegalizableOperation { operation, name: name@, legality },
            },
    {
        if !rewritten {
            return Err(ConversionError::UnlegalizableOperation { operation, name: name.to_string(), legality });
        }
        self.rewrites = self.rewrites + 1;
        Ok(())
    }

    /// After the rewrites: counts an operation left whose legality is unknown.
    pub fn count_remaining(&mut self, legality: Legality)
        requires
            old(self)@.remaining_unknown_operations < usize::MAX,
        ensures
            final(self)@ == (ConversionRunView {
                remaining_unknown_operations: old(self)@.remaining_unknown_operations + (if legality
                    == Legality::Unknown {
                    1nat
                } else {
                    0nat
                }),
                ..old(self)@
            }),
    {
        if legality == Legality::Unknown {
            self.remaining_unknown_operations = self.remaining_unknown_operations + 1;
        }
    }

    pub fn rewrites(&self) -> (r: usize)
        ensures
            r == self@.rewrites,
    {
        self.rewrites
    }

    pub fn into_report(self, block_arguments_converted: usize) -> (r: ConversionReport)
        ensures
            r.rewrites == self@.rewrites,
            r.operations_examined == self@.operations_examined,
            r.remaining_unknown_operations == self@.remaining_unknown_operations,
            r.block_arguments_converted == block_arguments_converted,
    {
        ConversionReport {
            rewrites: self.rewrites,
            operations_examined: self.operations_examined,
            remaining_unknown_operations: self.remaining_unknown_operations,
            block_arguments_converted,
        }
    }
}


/// An illegal operation is rewritten in every mode and a legal one in none; an operation of
/// unknown legality is rewritten by a full conversion and left by a partial one.
pub proof fn law_conversion_modes(mode: ConversionMode)
    ensures
        needs_conversion(mode, Legality::Illegal),
        !needs_conversion(mode, Legality::Legal),
        needs_conversion(mode, Legality::Unknown) <==> mode == ConversionMode::Full,
{
}

} // verus!
