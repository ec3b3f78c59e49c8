//! Verified core logic of an analyzer rule registry, a JSON token source
//! and the labelled-block step of a control flow graph builder.

pub mod order;
pub mod seqs;
pub mod keys;
pub mod registry;
pub mod text;
pub mod json_syntax;
pub mod lexer;
pub mod token_source;
pub mod control_flow;
mod fx;
pub mod analysis;
pub mod rule_registry;
