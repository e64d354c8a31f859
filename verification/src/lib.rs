//! Static analysis core for a circuit description language.
//!
//! The library strips comments from source text while preserving byte
//! offsets, models the control-flow graph of a single template or function
//! in static single assignment form, and runs the taint, constraint and
//! side-effect analyses that classify each definition as contributing or
//! not contributing to witness or constraint generation.

pub mod bitset;
pub mod constraint_analysis;
pub mod graph;
pub mod ir;
pub mod parser_logic;
pub mod scan;
pub mod side_effect_analysis;
pub mod taint_analysis;
pub mod report;
