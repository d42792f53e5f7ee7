//! Core of a small symbolic algebra engine.
//!
//! Expressions are immutable *terms* held in a [`term::TermHeap`]; a
//! [`term::Term`] is a handle that identifies one allocation, so handle
//! equality is pointer equality.  Symbols are interned ([`symbol::Symbols`]),
//! every term header carries a De Bruijn cache summarising its free
//! variables ([`variable::DeBruijnCache`]), text is parsed by a recursive
//! descent parser ([`parse`]), and a recursion-bounded rewrite engine
//! ([`simplify`]) applies the built-in simplification rules.

pub mod application;
pub mod builtins;
pub mod byte_string;
pub mod constants;
pub mod error;
pub mod integer;
pub mod lambda;
pub mod lex;
pub mod parse;
pub mod scope;
pub mod simplify;
pub mod string;
pub mod symbol;
pub mod term;
pub mod variable;
