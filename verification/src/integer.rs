//! Working with integer terms.
//!
//! The payload of an integer term is a single machine-word signed value.
//! In the future this kind should support integers of arbitrary size.

use vstd::prelude::*;
use vstd::view::View as ViewTrait;
use crate::term::Kind;
use crate::term::Node;
use crate::term::NodeData;
use crate::term::Term;
use crate::term::TermHeap;
use crate::term::TermX;
use crate::term::View;
use crate::term::interp_at;
use crate::term::kind_of;
use crate::term::node_wf;
use crate::variable::DeBruijnCache;

verus! {

broadcast use vstd::seq::group_seq_axioms;

impl Term {
    /// Create an integer term.
    ///
    /// An integer has no free variables, so its De Bruijn cache is empty.
    pub fn integer_i32(heap: &mut TermHeap, value: i32) -> (t: Term)
        requires
            old(heap).wf(),
        ensures
            final(heap).wf(),
            final(heap).grown_from(*old(heap)),
            final(heap)@.len() == old(heap)@.len() + 1,
            final(heap).has(t),
            t.id() == old(heap)@.len(),
            final(heap).interp(t) == (TermX::Integer { value: value as int }),
            kind_of(final(heap)@[t.id()].data) == Kind::Integer,
    {
        let node = Node { cache: DeBruijnCache::empty(), data: NodeData::Integer { value } };
        proof {
            let nodes2 = heap@.push(node);
            let i = heap@.len() as int;
            assert(interp_at(nodes2, i) == (TermX::Integer { value: value as int }));
            assert(node_wf(nodes2, i));
        }
        heap.allocate(node)
    }

    /// Whether this is that specific integer term.
    pub fn eq_integer_i32(&self, heap: &TermHeap, value: i32) -> (r: bool)
        requires
            heap.wf(),
            heap.has(*self),
        ensures
            r <==> heap.interp(*self) == (TermX::Integer { value: value as int }),
    {
        match self.view(heap) {
            View::Integer(own) => own == value,
            _ => false,
        }
    }
}

} // verus!
