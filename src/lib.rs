//! A GLSL preprocessor front-end: a lexer that elides line continuations and glues
//! multi-character operators, the preprocessor's state and macro definitions, conditional
//! compilation, macro expansion, and diagnostics with positions.

pub mod conditional;
pub mod error;
pub mod eval;
pub mod expand;
pub mod glue;
pub mod line_map;
pub mod parser;
pub mod pre;
pub mod process;
pub mod processor;
pub mod text;
pub mod token;
pub mod unescaped;
