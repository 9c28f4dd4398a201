//! Errors in what the user asked for.
use vstd::prelude::*;

verus! {

/// A conflicting or invalid combination of options.
#[derive(Debug, PartialEq, Eq)]
pub enum OptionsError {
    /// The minimum number of runs is larger than the maximum.
    EmptyRunsRange,
    /// The options ask for no run at all.
    ZeroRuns,
    /// More command names than commands (the number of commands).
    TooManyCommandNames(usize),
    /// Neither one name nor one per command (names given, commands built).
    UnexpectedCommandNameCount(usize, usize),
    /// Parameter names declared more than once, in sorted order.
    DuplicateParameterNames(Vec<String>),
    /// The parameter lists give more commands than a vector can hold.
    TooManyCommands,
    /// The text of `--shell` names no program (the text given).
    UnparsableShell(String),
    /// A numeric option that is not a number (the option's name).
    NumericParsingError(String),
}

/// A parameter scan that cannot be expanded.
#[derive(Debug, PartialEq, Eq)]
pub enum ParameterScanError {
    /// A bound or the step is not a decimal number (the text given).
    InvalidNumber(String),
    /// A bound has fraction digits but no step size is given.
    StepRequired,
    /// The step is zero.
    ZeroStep,
    /// The step leads away from the end of the range.
    StepDirection,
    /// The scan yields more values or commands than a vector can hold.
    TooLarge,
    /// Neither one name nor one per command (names given, commands built).
    UnexpectedCommandNameCount(usize, usize),
}

} // verus!
