//! Working with application terms.
//!
//! The payload of an application term is the function being applied and the
//! list of arguments it is applied to.

use vstd::prelude::*;
use vstd::view::View as ViewTrait;
use crate::term::Kind;
use crate::term::Node;
use crate::term::NodeData;
use crate::term::Term;
use crate::term::TermHeap;
use crate::term::TermX;
use crate::term::cache_of_list;
use crate::term::interp_at;
use crate::term::interp_each;
use crate::term::interp_list;
use crate::term::kind_of;
use crate::term::lemma_cache_list_step;
use crate::term::lemma_interp_each;
use crate::term::lemma_interp_list_stable;
use crate::term::lemma_interp_stable;
use crate::term::node_wf;
use crate::variable::DeBruijnCache;

verus! {

broadcast use vstd::seq::group_seq_axioms;

impl Term {
    /// Create an application term.
    ///
    /// The De Bruijn cache of the new term is the union of the caches of
    /// the function and of every argument.
    pub fn application(heap: &mut TermHeap, function: Term, arguments: Vec<Term>) -> (t: Term)
        requires
            old(heap).wf(),
            old(heap).has(function),
            forall|k: int| 0 <= k < arguments@.len() ==> old(heap).has(#[trigger] arguments@[k]),
        ensures
            final(heap).wf(),
            final(heap).grown_from(*old(heap)),
            final(heap)@.len() == old(heap)@.len() + 1,
            final(heap).has(t),
            t.id() == old(heap)@.len(),
            final(heap).interp(t) == (TermX::Application {
                function: Box::new(old(heap).interp(function)),
                arguments: interp_each(*old(heap), arguments@),
            }),
            kind_of(final(heap)@[t.id()].data) == Kind::Application,
            (final(heap)@[t.id()].data matches NodeData::Application { function: sf, arguments: sa }
                && sf == function && sa@ == arguments@),
    {
        let ghost bound = heap@.len() as int;
        let mut cache = DeBruijnCache::empty();
        let mut k = arguments.len();
        proof {
            assert(arguments@.subrange(k as int, arguments@.len() as int) =~= Seq::<
                Term,
            >::empty());
        }
        while k > 0
            invariant
                *heap == *old(heap),
                heap.wf(),
                bound == heap@.len() as int,
                k <= arguments@.len(),
                forall|j: int|
                    0 <= j < arguments@.len() ==> 0 <= (#[trigger] arguments@[j]).id() < bound,
                cache@ == cache_of_list(
                    interp_list(
                        heap@,
                        arguments@.subrange(k as int, arguments@.len() as int),
                        bound,
                    ),
                ),
            decreases k,
        {
            k = k - 1;
            proof {
                lemma_cache_list_step(*heap, arguments@, bound, k as int);
            }
            cache = arguments[k].cache(heap).union_with(cache);
        }
        proof {
            assert(arguments@.subrange(0, arguments@.len() as int) =~= arguments@);
        }
        let cache = function.cache(heap).union_with(cache);
        let ghost old_heap = *heap;
        let ghost args_snap = arguments@;
        let node = Node { cache, data: NodeData::Application { function, arguments } };
        proof {
            let nodes2 = heap@.push(node);
            let i = heap@.len() as int;
            assert(node_wf(heap@, function.id()));
            lemma_interp_stable(heap@, nodes2, function.id());
            lemma_interp_list_stable(heap@, nodes2, args_snap, i);
            lemma_interp_each(old_heap, args_snap, i);
            assert(node_wf(nodes2, i));
        }
        heap.allocate(node)
    }
}

} // verus!
