//! A small expression-oriented scripting language: variables, user-defined
//! functions, and a dual execution strategy, with the front end and the
//! evaluation engine specified and proved in Verus.
//!
//! Source text flows through the lexer (`lex`) into a token stream, through
//! the block parser (`parse`) into a tree of lines, nested blocks, function
//! definitions and call sites, and into the engine (`engine`), which converts
//! each line to postfix order (`postfix`) and runs it against the shared
//! `Environment` (`env`).  A call is dispatched by a static analysis of the
//! target's body (`analysis`): a body that reaches another stored function is
//! interpreted under a parameter overlay; a call-free body takes the fast
//! path, whose contract (the one a native back end must meet) is the verified
//! model in `fastpath`.  Numbers are IEEE 754 binary64 values carried as bit
//! patterns (`value`); `laws` states and proves the evaluator's laws, among
//! them that the two execution strategies agree.

pub mod analysis;
pub mod display;
pub mod engine;
pub mod env;
pub mod fastpath;
pub mod laws;
pub mod lex;
pub mod parse;
pub mod postfix;
pub mod text;
pub mod value;
