//! Error taxonomy of the library.
//!
//! Generation-phase errors (`MalformedRegistry`, `UnknownExtension`,
//! `ConflictingExtension`, `UnsupportedTarget`) abort the whole
//! generation: no partial binding set is ever produced. Runtime errors
//! (`SymbolUnavailable`, `InvalidArgument`) are reported to the caller.

use vstd::prelude::*;

verus! {

/// Every failure the library can report.
#[derive(Debug, Clone, PartialEq, Eq)]
pub enum Error {
    /// The registry source is structurally invalid: a duplicate name
    /// inside one namespace universe, or an extension that references
    /// a command or enum the registry does not define.
    MalformedRegistry,
    /// A requested extension name is absent from the registry.
    UnknownExtension(String),
    /// An extension adds a symbol whose signature or value conflicts
    /// with an entry already in the resolved set. Carries the name of
    /// the offending extension.
    ConflictingExtension(String),
    /// The platform selector does not recognize the target identifier.
    UnsupportedTarget,
    /// A resolved symbol has no runtime counterpart in the loaded
    /// library. Carries the symbol name.
    SymbolUnavailable(String),
    /// A marshalling argument (pixel format, type, or size) is outside
    /// the recognized tables or would not fit the native layout.
    InvalidArgument,
}

/// Mathematical image of [`Error`]: string payloads become `Seq<char>`.
pub enum SpecError {
    MalformedRegistry,
    UnknownExtension(Seq<char>),
    ConflictingExtension(Seq<char>),
    UnsupportedTarget,
    SymbolUnavailable(Seq<char>),
    InvalidArgument,
}

impl DeepView for Error {
    type V = SpecError;

    open spec fn deep_view(&self) -> SpecError {
        match self {
            Error::MalformedRegistry => SpecError::MalformedRegistry,
            Error::UnknownExtension(n) => SpecError::UnknownExtension(n@),
            Error::ConflictingExtension(n) => SpecError::ConflictingExtension(n@),
            Error::UnsupportedTarget => SpecError::UnsupportedTarget,
            Error::SymbolUnavailable(n) => SpecError::SymbolUnavailable(n@),
            Error::InvalidArgument => SpecError::InvalidArgument,
        }
    }
}

} // verus!
