use vstd::prelude::*;

use crate::text::{join3, join4, join5};

verus! {

/// Why a registration or a lookup in a registry failed. A dialect registry error is held by
/// its message.
#[derive(Debug)]
pub enum RegistryError {
    DuplicateExtension(String),
    DuplicatePass(String),
    MissingPass(String),
    DuplicatePipeline(String),
    MissingPipeline(String),
    InvalidName { kind: &'static str, name: String },
    Dialect(String),
    DuplicateConversion(String),
    InvalidConversion { name: String, message: String },
}

pub enum RegistryErrorView {
    DuplicateExtension(Seq<char>),
    DuplicatePass(Seq<char>),
    MissingPass(Seq<char>),
    DuplicatePipeline(Seq<char>),
    MissingPipeline(Seq<char>),
    InvalidName { kind: Seq<char>, name: Seq<char> },
    Dialect(Seq<char>),
    DuplicateConversion(Seq<char>),
    InvalidConversion { name: Seq<char>, message: Seq<char> },
}

impl View for RegistryError {
    type V = RegistryErrorView;

    open spec fn view(&self) -> RegistryErrorView {
        match self {
            RegistryError::DuplicateExtension(s) => RegistryErrorView::DuplicateExtension(s@),
            RegistryError::DuplicatePass(s) => RegistryErrorView::DuplicatePass(s@),
            RegistryError::MissingPass(s) => RegistryErrorView::MissingPass(s@),
            RegistryError::DuplicatePipeline(s) => RegistryErrorView::DuplicatePipeline(s@),
            RegistryError::MissingPipeline(s) => RegistryErrorView::MissingPipeline(s@),
            RegistryError::InvalidName { kind, name } => RegistryErrorView::InvalidName {
                kind: kind@,
                name: name@,
            },
            RegistryError::Dialect(s) => RegistryErrorView::Dialect(s@),
            RegistryError::DuplicateConversion(s) => RegistryErrorView::DuplicateConversion(s@),
            RegistryError::InvalidConversion { name, message } => RegistryErrorView::InvalidConversion {
                name: name@,
                message: message@,
            },
        }
    }
}

/// The message of a registry error.
pub open spec fn registry_error_text(e: RegistryErrorView) -> Seq<char> {
    match e {
        RegistryErrorView::DuplicateExtension(n) => "compiler extension '"@ + n + "' is already registered"@,
        RegistryErrorView::DuplicatePass(n) => "compiler pass '"@ + n + "' is already registered"@,
        RegistryErrorView::MissingPass(n) => "compiler pass '"@ + n + "' is not registered"@,
        RegistryErrorView::DuplicatePipeline(n) => "compiler pipeline '"@ + n + "' is already registered"@,
        RegistryErrorView::MissingPipeline(n) => "compiler pipeline '"@ + n + "' is not registered"@,
        RegistryErrorView::InvalidName { kind, name } => "invalid "@ + kind + " name '"@ + name + "'"@,
        RegistryErrorView::Dialect(m) => m,
        RegistryErrorView::DuplicateConversion(n) => "conversion edge '"@ + n + "' is already registered"@,
        RegistryErrorView::InvalidConversion { name, message } => "invalid conversion edge '"@ + name + "': "@
            + message,
    }
}

impl RegistryError {
    /// The error's message.
    pub fn to_string(&self) -> (r: String)
        ensures
            r@ == registry_error_text(self@),
    {
        match self {
            RegistryError::DuplicateExtension(n) => join3("compiler extension '", n.as_str(), "' is already registered"),
            RegistryError::DuplicatePass(n) => join3("compiler pass '", n.as_str(), "' is already registered"),
            RegistryError::MissingPass(n) => join3("compiler pass '", n.as_str(), "' is not registered"),
            RegistryError::DuplicatePipeline(n) => join3("compiler pipeline '", n.as_str(), "' is already registered"),
            RegistryError::MissingPipeline(n) => join3("compiler pipeline '", n.as_str(), "' is not registered"),
            RegistryError::InvalidName { kind, name } => join5("invalid ", kind, " name '", name.as_str(), "'"),
            RegistryError::Dialect(m) => m.clone(),
            RegistryError::DuplicateConversion(n) => join3("conversion edge '", n.as_str(), "' is already registered"),
            RegistryError::InvalidConversion { name, message } => join4("invalid conversion edge '", name.as_str(), "': ", message.as_str()),
        }
    }
}

} // verus!
