//! A front-end parser for a Smalltalk-family language: source text in,
//! syntax tree out.
//!
//! * `syntax` holds the tree, and for each node its mathematical model.
//! * `glyph` classifies the characters of a text once, up front.
//! * `lexical`, `literal` and `grammar` state the grammar as functions of
//!   the classified text and a position; `lexical`, `literal`, `expression`
//!   and `messages` hold the executable rules, each proved to return what
//!   its model says.
//! * `parser` offers every rule on plain text.
//! * `error` is what a failed rule reports, `outcome` what any rule gives.
//! * `compiler` is where the consumers of the tree will live.
//!
//! The grammar is an ordered choice: alternatives are tried in a fixed order,
//! each from the same position, and the first that matches wins. A sequence
//! of statements, and the parameters of a block, go one step further: once a
//! statement or a parameter has begun, what follows must complete it, and a
//! failure there is the failure of the whole sequence. Whitespace is read
//! after a token, never before one. A rule fails as a whole or not at all;
//! it never hands out part of a tree.
//!
//! Nesting is read by recursion, one level of calls for each level of
//! parentheses, brackets or arrays. The grammar sets no limit on it, so the
//! limit is that of the stack the caller runs on.

pub mod compiler;
pub mod error;
pub mod expression;
pub mod glyph;
pub mod grammar;
pub mod lexical;
pub mod literal;
pub mod messages;
pub mod outcome;
pub mod parser;
pub mod syntax;
