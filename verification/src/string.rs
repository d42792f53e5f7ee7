//! Working with string terms.
//!
//! The payload of a string term is a packed sequence of bytes.

use vstd::prelude::*;
use vstd::view::View as ViewTrait;
use crate::term::Kind;
use crate::term::Node;
use crate::term::NodeData;
use crate::term::Term;
use crate::term::TermHeap;
use crate::term::TermX;
use crate::term::interp_at;
use crate::term::kind_of;
use crate::term::node_wf;
use crate::variable::DeBruijnCache;

verus! {

broadcast use vstd::seq::group_seq_axioms;

impl Term {
    /// Create a string term.
    ///
    /// A string has no free variables, so its De Bruijn cache is empty.
    pub fn string(heap: &mut TermHeap, bytes: Vec<u8>) -> (t: Term)
        requires
            old(heap).wf(),
        ensures
            final(heap).wf(),
            final(heap).grown_from(*old(heap)),
            final(heap)@.len() == old(heap)@.len() + 1,
            final(heap).has(t),
            t.id() == old(heap)@.len(),
            final(heap).interp(t) == (TermX::String { bytes: bytes@ }),
            kind_of(final(heap)@[t.id()].data) == Kind::String,
    {
        let ghost contents = bytes@;
        let node = Node { cache: DeBruijnCache::empty(), data: NodeData::String { bytes } };
        proof {
            let nodes2 = heap@.push(node);
            let i = heap@.len() as int;
            assert(interp_at(nodes2, i) == (TermX::String { bytes: contents }));
            assert(node_wf(nodes2, i));
        }
        heap.allocate(node)
    }
}

} // verus!
