//! The verified core of Modern EES, an equation solver in the manner of EES:
//! the lexer and parser of equation programs, dimensional analysis with
//! exact unit scales, the structure of equation systems (equations,
//! constants, strings, unknowns), the plans of function calls, parametric
//! table rows, and the memo of property answers.

pub mod ast;
pub mod cache;
pub mod calls;
pub mod diagnostic;
pub mod equations;
pub mod lexer;
pub mod names;
pub mod param_table;
pub mod parser;
pub mod props;
pub mod text;
pub mod units;

pub use equations::ConvergenceStatus;
pub use parser::{parse_expression, parse_program};
pub use units::analyze_units;
