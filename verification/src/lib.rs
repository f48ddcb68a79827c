//! The source front end of a small C-subset compiler: a lexer over raw bytes,
//! a backtracking recursive-descent parser, a located abstract syntax tree,
//! and caret-pointing diagnostics.  Every scanner step and every grammar rule
//! is proved to compute exactly its pure specification twin on a mathematical
//! model of the lexer, so backtracking, precedence, and the diagnostic texts
//! are pinned down, not just exercised.

pub mod declaration;
pub mod expression;
pub mod lexer;
pub mod parser;
pub mod statement;
pub mod text;
