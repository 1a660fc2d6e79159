use vstd::prelude::*;

verus! {

/// Failure taxonomy shared by the scaffolding stores and the orchestrator.
#[derive(Clone, Copy, Debug, PartialEq, Eq, Structural)]
pub enum ScaffoldError {
    /// `add` was called for a game id the registry already holds.
    AlreadyExists,
    /// `remove` was called for a game id the registry does not hold.
    NotFound,
    /// A manifest does not have the structural shape the tool expects.
    SchemaError,
    /// The module manifest lacks a feature section entirely.
    MissingFeatureSection,
    /// The identifier is empty after prefix normalization.
    InvalidName,
    /// The external module-directory-initialization collaborator failed.
    ExternalToolFailure,
    /// A store could not be read or written.
    IOFailure,
}

} // verus!
