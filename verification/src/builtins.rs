//! Simplification of applications of builtins.
//!
//! The registry maps a symbol, by identity, to the handler that simplifies
//! applications of that symbol.

#![allow(non_snake_case)]

use vstd::prelude::*;
use crate::constants::Constants;
use crate::constants::constants_wf;
use crate::constants::name_cos;
use crate::constants::name_derivative;
use crate::constants::name_sin;
use crate::symbol::Symbol;
use crate::term::TermHeap;

pub mod Cos;
pub mod Derivative;
pub mod Sin;

verus! {

/// The builtins the simplifier implements.
#[derive(Clone, Copy, Debug, Eq, PartialEq, Structural)]
pub enum BuiltinId {
    /// Symbolic differentiation.
    Derivative,
    /// The cosine identities.
    Cosine,
    /// The sine identities.
    Sine,
}

/// The builtin, if any, that a symbol name refers to.
pub open spec fn builtin_of(name: Seq<u8>) -> Option<BuiltinId> {
    if name == name_derivative() {
        Some(BuiltinId::Derivative)
    } else if name == name_cos() {
        Some(BuiltinId::Cosine)
    } else if name == name_sin() {
        Some(BuiltinId::Sine)
    } else {
        None
    }
}

/// Lookup table for implementations of builtins.
///
/// Dispatch is by symbol identity: the table holds the canonical symbol of
/// each builtin, and [`Builtins::get`] compares handles.
pub struct Builtins {
    pub Derivative: Symbol,
    pub Cos: Symbol,
    pub Sin: Symbol,
}

/// The registry holds exactly the canonical symbols of the builtins.
pub open spec fn builtins_wf(b: Builtins, c: Constants) -> bool {
    &&& b.Derivative == c.Derivative
    &&& b.Cos == c.Cos
    &&& b.Sin == c.Sin
}

impl Builtins {
    /// Collect all builtins into the table.
    pub fn new(constants: &Constants) -> (b: Builtins)
        ensures
            builtins_wf(b, *constants),
    {
        Builtins {
            Derivative: constants.Derivative,
            Cos: constants.Cos,
            Sin: constants.Sin,
        }
    }

    /// Get the implementation for a particular builtin.
    ///
    /// If the symbol does not refer to a builtin, this method returns
    /// [`None`].
    pub fn get(&self, symbol: &Symbol) -> (r: Option<BuiltinId>)
        ensures
            r == (if symbol.id() == self.Derivative.id() {
                Some(BuiltinId::Derivative)
            } else if symbol.id() == self.Cos.id() {
                Some(BuiltinId::Cosine)
            } else if symbol.id() == self.Sin.id() {
                Some(BuiltinId::Sine)
            } else {
                None::<BuiltinId>
            }),
    {
        if symbol.term().ptr_eq(&self.Derivative.term()) {
            Some(BuiltinId::Derivative)
        } else if symbol.term().ptr_eq(&self.Cos.term()) {
            Some(BuiltinId::Cosine)
        } else if symbol.term().ptr_eq(&self.Sin.term()) {
            Some(BuiltinId::Sine)
        } else {
            None
        }
    }
}

/// The three builtin names are pairwise distinct.
pub proof fn lemma_builtin_names_distinct()
    ensures
        name_derivative() != name_cos(),
        name_derivative() != name_sin(),
        name_cos() != name_sin(),
{
    assert(name_derivative().len() != name_cos().len());
    assert(name_derivative().len() != name_sin().len());
    assert(name_cos()[0] != name_sin()[0]);
}

/// What identity dispatch decides, in terms of names: for a symbol term of
/// a heap that the interner covers, comparing against the registry's
/// canonical symbols is the same as comparing names.
pub proof fn lemma_builtins_get(
    b: Builtins,
    c: Constants,
    heap: TermHeap,
    syms: crate::symbol::Symbols,
    s: Symbol,
)
    requires
        builtins_wf(b, c),
        constants_wf(c, heap),
        syms.wf(heap),
        crate::term::is_symbol_at(heap@, s.id()),
    ensures
        (if s.id() == b.Derivative.id() {
            Some(BuiltinId::Derivative)
        } else if s.id() == b.Cos.id() {
            Some(BuiltinId::Cosine)
        } else if s.id() == b.Sin.id() {
            Some(BuiltinId::Sine)
        } else {
            None::<BuiltinId>
        }) == builtin_of(crate::term::symbol_name_at(heap@, s.id())),
{
    broadcast use crate::symbol::lemma_spec_term_id;

    lemma_builtin_names_distinct();
    let name = crate::term::symbol_name_at(heap@, s.id());
    if name == name_derivative() {
        crate::symbol::lemma_symbol_unique(heap, syms, s.spec_term(), b.Derivative.spec_term());
    } else if name == name_cos() {
        crate::symbol::lemma_symbol_unique(heap, syms, s.spec_term(), b.Cos.spec_term());
    } else if name == name_sin() {
        crate::symbol::lemma_symbol_unique(heap, syms, s.spec_term(), b.Sin.spec_term());
    }
}

} // verus!
