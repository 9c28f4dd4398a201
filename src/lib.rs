//! The core of a command-line benchmarking tool, with contracts proved by
//! Verus: commands expanded over parameter lists and numeric scans with
//! their placeholders filled, the run-count and display options, and the
//! decisions taken on measured timings.
pub mod analysis;
pub mod command;
pub mod commands;
pub mod dupes;
pub mod error;
pub mod numbers;
pub mod options;
pub mod parameters;
pub mod scan;
pub mod shell;
pub mod text;
pub mod tokenize;
