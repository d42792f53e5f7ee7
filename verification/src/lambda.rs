//! Working with lambda terms.
//!
//! The payload of a lambda term is a parameter list and a body term.

use vstd::prelude::*;
use vstd::view::View as ViewTrait;
use crate::symbol::Symbol;
use crate::term::Kind;
use crate::term::Node;
use crate::term::NodeData;
use crate::term::Term;
use crate::term::TermHeap;
use crate::term::TermX;
use crate::term::interp_at;
use crate::term::interp_params;
use crate::term::is_symbol_at;
use crate::term::kind_of;
use crate::term::lemma_interp_stable;
use crate::term::node_wf;
use crate::term::symbol_name_at;

verus! {

broadcast use vstd::seq::group_seq_axioms;

/// When to evaluate a lambda argument.
#[derive(Clone, Copy, Debug)]
pub enum Strictness {
    /// Immediately evaluate the argument when applying the lambda.
    Strict,
    /// Substitute the argument into the lambda body as-is.
    NonStrict,
}

/// Information about a lambda parameter.
#[derive(Clone, Copy, Debug)]
pub struct Parameter {
    /// When to evaluate the argument bound to this parameter.
    pub strictness: Strictness,
    /// The name the parameter is written with.
    pub name: Symbol,
}

impl Term {
    /// Create a lambda term.
    ///
    /// The De Bruijn cache of the new term is the cache of the body shifted
    /// right by the number of parameters: the lambda binds that many
    /// innermost indices.
    pub fn lambda(heap: &mut TermHeap, parameters: Vec<Parameter>, body: Term) -> (t: Term)
        requires
            old(heap).wf(),
            old(heap).has(body),
            parameters@.len() >= 1,
            forall|k: int|
                0 <= k < parameters@.len() ==> is_symbol_at(
                    old(heap)@,
                    (#[trigger] parameters@[k]).name.id(),
                ),
        ensures
            final(heap).wf(),
            final(heap).grown_from(*old(heap)),
            final(heap)@.len() == old(heap)@.len() + 1,
            final(heap).has(t),
            t.id() == old(heap)@.len(),
            final(heap).interp(t) == (TermX::Lambda {
                parameters: interp_params(old(heap)@, parameters@),
                body: Box::new(old(heap).interp(body)),
            }),
            kind_of(final(heap)@[t.id()].data) == Kind::Lambda,
            (final(heap)@[t.id()].data matches NodeData::Lambda { parameters: sp, body: sb }
                && sb == body && sp@ == parameters@),
    {
        let shift: u32 = if parameters.len() >= 16 {
            16
        } else {
            parameters.len() as u32
        };
        let cache = body.cache(heap).shift_out(shift);
        let ghost old_heap = *heap;
        let ghost params_snap = parameters@;
        let node = Node { cache, data: NodeData::Lambda { parameters, body } };
        proof {
            let nodes2 = heap@.push(node);
            let i = heap@.len() as int;
            assert(node_wf(heap@, body.id()));
            lemma_interp_stable(heap@, nodes2, body.id());
            assert(interp_params(nodes2, params_snap) =~= interp_params(heap@, params_snap)) by {
                assert forall|k: int| 0 <= k < params_snap.len() implies symbol_name_at(
                    nodes2,
                    params_snap[k].name.id(),
                ) == symbol_name_at(heap@, params_snap[k].name.id()) by {
                    let nid = params_snap[k].name.id();
                    assert(nodes2[nid] == heap@[nid]);
                }
            }
            assert(node_wf(nodes2, i));
        }
        heap.allocate(node)
    }
}

} // verus!
