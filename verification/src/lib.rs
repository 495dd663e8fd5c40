//! Static taint analysis of Python source: dangerous call sites, the
//! definitions that feed them, and satisfiability scripts for SQL injection.

pub mod commands;
pub mod constraint_gen;
pub mod cross_slicer;
pub mod indexer;
pub mod model;
pub mod prover;
pub mod python_parser;
pub mod slicer;
pub mod solver;
pub mod syntax;
pub mod taint;
pub mod text;

pub use cross_slicer::{CrossFileAnalysisResult, CrossFileFlow, CrossFileSlicer};
pub use indexer::{ProjectIndexer, Symbol, SymbolKind};
pub use model::{AnalysisResult, ExploitStatus, PathNode, Sink, SinkType};
