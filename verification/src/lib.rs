//! A grammar-driven packrat parsing engine, with the diagnostics and the
//! term language that sit around it.
//!
//! The engine:
//! - `grammar`: character classes, rule bodies, actions, the table of
//!   rules, and the checks made on a grammar when it is loaded;
//! - `semantics`: what a grammar expression means, as a mathematical
//!   function of grammar, input and position;
//! - `parser_result`: the outcome of a parse and how outcomes compose;
//! - `action_result`, `bindings`: the values a parse produces and the
//!   captures of a scope;
//! - `parser_core`, `parser_rule`: the parsing session with its memory of
//!   outcomes, and the interpreter;
//! - `properties`, `laws`: what holds of every evaluation.
//!
//! Around it:
//! - `jerror`: diagnostics;
//! - `lambday`, `jonla_syntax`, `jonla`: the terms of the core language and
//!   their reader;
//! - `lexer`: how tokens are gathered into lines;
//! - `text`: strings as sequences of characters.

pub mod text;
pub mod grammar;
pub mod parser_result;
pub mod action_result;
pub mod bindings;
pub mod semantics;
pub mod properties;
pub mod parser_core;
pub mod parser_rule;
pub mod laws;
pub mod jerror;
pub mod lambday;
pub mod jonla_syntax;
pub mod jonla;
pub mod lexer;
