use vstd::prelude::*;

verus! {

/// Errors raised while assembling a contract from its parts.
#[derive(Debug, PartialEq, Eq, Structural)]
pub enum ConstructionError {
    MissingName,
    MissingPath,
}

/// Errors of units of measure.
#[derive(Debug, PartialEq, Eq)]
pub enum UnitOfMeasureError {
    UnsupportedUnit(String),
    Incompatible,
}

/// Errors raised while compiling a contract into its runtime artifacts.
#[derive(Debug, PartialEq, Eq)]
pub enum CompileError {
    MissingRust,
    MissingGraphViz,
    Other(String),
}

/// Errors of malformed input at the model-construction boundary.
#[derive(Debug, PartialEq, Eq)]
pub enum ParsingError {
    InvalidConsertTreePath(String),
    InvalidPathFileStem,
    UnsupportedOperator(String),
    WrongIndex(String, String),
    EmptyCovered,
    InvalidRange,
    CyclicPropagation(String),
    MissingElement(String),
}

} // verus!

verus! {

/// Errors of composing contracts into a system of systems.
#[derive(Debug)]
pub enum CompositionError {
    /// The candidate has demands or required services that no member
    /// fulfills; these are listed.
    Incompatible {
        path: String,
        unmatched_demands: Vec<crate::elements::Demand>,
        unmatched_required_services: Vec<crate::services::RequiredService>,
    },
    /// A system of systems can only be seeded with an independent contract.
    Dependent,
}

/// Every error of the library.
#[derive(Debug)]
#[allow(inconsistent_fields)]
pub enum ConSertError {
    Compile { source: CompileError },
    Construction { source: ConstructionError },
    Parsing { source: ParsingError },
    Composition { source: CompositionError },
    UnitOfMeasure { source: UnitOfMeasureError },
}

} // verus!
