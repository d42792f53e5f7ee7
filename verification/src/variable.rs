//! Working with variable terms and De Bruijn caches.
//!
//! The payload of a variable term is a single De Bruijn index.  Every term
//! additionally carries a [`DeBruijnCache`] summarising which variables with
//! small indices occur free beneath it.

use vstd::prelude::*;
use vstd::view::View as ViewTrait;
use crate::term::Kind;
use crate::term::Node;
use crate::term::NodeData;
use crate::term::Term;
use crate::term::TermHeap;
use crate::term::TermX;
use crate::term::View;
use crate::term::interp_at;
use crate::term::kind_of;
use crate::term::node_wf;

verus! {

broadcast use vstd::seq::group_seq_axioms;

/// A De Bruijn index references a variable.
///
/// Index 0 names the innermost binder; index k refers k binders outward.
#[derive(Clone, Copy, Debug, Eq, PartialEq, Structural)]
pub struct DeBruijn(pub u32);

/// Set of De Bruijn indices used to locate free variables.
///
/// Each term carries a De Bruijn cache in its header.  When the cache can
/// answer the question "does variable i appear free in this term?", the
/// answer is found in constant time.  The cache only has space for variables
/// with indices below 16; inserting a larger index puts it into a special
/// "unknown" state from which it can no longer answer.
#[derive(Clone, Copy, Debug, Eq, PartialEq, Structural)]
pub struct DeBruijnCache {
    bits: u16,
}

/// The bit pattern of the "unknown" cache state.
pub open spec fn unknown_bits() -> u16 {
    0xFFFFu16
}

/// Cache contents after inserting index `i`.
pub open spec fn spec_insert(bits: u16, i: nat) -> u16 {
    if i >= 16 {
        unknown_bits()
    } else {
        bits | (1u16 << (i as u16))
    }
}

/// Union of two caches.
pub open spec fn spec_or(a: u16, b: u16) -> u16 {
    a | b
}

/// Cache contents after discarding the `k` lowest indices.
pub open spec fn spec_shr(a: u16, k: nat) -> u16 {
    if a == unknown_bits() {
        a
    } else if k >= 16 {
        0u16
    } else {
        a >> (k as u16)
    }
}

/// Whether bit `i` is set in `bits`.
pub open spec fn spec_bit(bits: u16, i: nat) -> bool {
    i < 16 && bits & (1u16 << (i as u16)) != 0
}

/// The cache's answer to "does variable `i` occur free?".
pub open spec fn spec_contains(bits: u16, i: nat) -> Option<bool> {
    if bits == unknown_bits() {
        None
    } else if i >= 16 {
        Some(false)
    } else {
        Some(spec_bit(bits, i))
    }
}

/// Facts about bitwise OR the cache proofs rest on: a union that is not
/// "unknown" has no "unknown" operand, and the union keeps every bit of
/// either operand.
pub proof fn lemma_or_bit(a: u16, b: u16, i: u16)
    requires
        i < 16,
    ensures
        (a | b) != 0xFFFFu16 ==> a != 0xFFFFu16 && b != 0xFFFFu16,
        a & (1u16 << i) != 0 ==> (a | b) & (1u16 << i) != 0,
        b & (1u16 << i) != 0 ==> (a | b) & (1u16 << i) != 0,
{
    assert((a | b) != 0xFFFFu16 ==> a != 0xFFFFu16 && b != 0xFFFFu16) by (bit_vector);
    assert(a & (1u16 << i) != 0 ==> (a | b) & (1u16 << i) != 0) by (bit_vector);
    assert(b & (1u16 << i) != 0 ==> (a | b) & (1u16 << i) != 0) by (bit_vector);
}

/// Setting a bit sets that bit, and never clears another.
pub proof fn lemma_insert_bit(b: u16, i: u16)
    requires
        i < 16,
    ensures
        (b | (1u16 << i)) & (1u16 << i) != 0,
{
    assert(i < 16 ==> (b | (1u16 << i)) & (1u16 << i) != 0) by (bit_vector);
}

/// A right shift moves bit `j == i + k` to bit `i`.
pub proof fn lemma_shr_bit(c: u16, k: u16, i: u16, j: u16)
    requires
        k < 16,
        j < 16,
        i + k == j,
    ensures
        c & (1u16 << j) != 0 ==> (c >> k) & (1u16 << i) != 0,
{
    assert(k < 16 && j < 16 && i < 16 && j == i + k && c & (1u16 << j) != 0 ==> (c >> k) & (1u16
        << i) != 0) by (bit_vector);
}

impl vstd::view::View for DeBruijnCache {
    type V = u16;

    closed spec fn view(&self) -> u16 {
        self.bits
    }
}

impl DeBruijnCache {
    /// The cache with no variables in it.
    pub fn empty() -> (r: Self)
        ensures
            r@ == 0u16,
    {
        Self { bits: 0 }
    }

    /// The cache in the "unknown" state.
    pub fn unknown() -> (r: Self)
        ensures
            r@ == unknown_bits(),
    {
        Self { bits: 0xFFFF }
    }

    /// Whether the cache is in the "unknown" state.
    pub fn is_unknown(self) -> (r: bool)
        ensures
            r <==> self@ == unknown_bits(),
    {
        self.bits == 0xFFFF
    }

    /// Whether the cache contains a given variable.
    ///
    /// If this method returns `Some`, the answer is correct.  Otherwise the
    /// cache is in the "unknown" state and the caller must fall back to a
    /// traversal of the term.
    pub fn contains(self, de_bruijn: DeBruijn) -> (r: Option<bool>)
        ensures
            r == spec_contains(self@, de_bruijn.0 as nat),
    {
        if self.bits == 0xFFFF {
            None
        } else if de_bruijn.0 >= 16 {
            Some(false)
        } else {
            Some(self.bits & (1u16 << (de_bruijn.0 as u16)) != 0)
        }
    }

    /// Insert a variable into the cache.
    ///
    /// If the De Bruijn index is 16 or more the cache enters the "unknown"
    /// state.  Inserting the last missing small index also yields the
    /// "unknown" bit pattern, which is exactly the fully-populated set.
    pub fn insert(self, de_bruijn: DeBruijn) -> (r: Self)
        ensures
            r@ == spec_insert(self@, de_bruijn.0 as nat),
    {
        if de_bruijn.0 >= 16 {
            Self { bits: 0xFFFF }
        } else {
            Self { bits: self.bits | (1u16 << (de_bruijn.0 as u16)) }
        }
    }

    /// Take the set union of two caches.
    ///
    /// Bitwise OR; if either side is unknown, so is the union.
    pub fn union_with(self, rhs: Self) -> (r: Self)
        ensures
            r@ == spec_or(self@, rhs@),
    {
        Self { bits: self.bits | rhs.bits }
    }

    /// The cache recorded for a freshly created variable term.
    pub(crate) fn for_variable(de_bruijn: DeBruijn) -> (r: Self)
        ensures
            r@ == spec_insert(0u16, de_bruijn.0 as nat),
    {
        Self::empty().insert(de_bruijn)
    }

    /// Decrement each index in the cache by `k`, discarding those that
    /// would drop below zero.
    ///
    /// This computes the cache of a lambda term from the cache of its body:
    /// the lambda binds the `k` innermost indices.  Shifts of 16 or more
    /// clear a known cache entirely; the "unknown" state is preserved.
    pub fn shift_out(self, k: u32) -> (r: Self)
        ensures
            r@ == spec_shr(self@, k as nat),
    {
        if self.bits == 0xFFFF {
            self
        } else if k >= 16 {
            Self { bits: 0 }
        } else {
            Self { bits: self.bits >> (k as u16) }
        }
    }
}

impl Term {
    /// Create a variable term.
    ///
    /// A variable appears free in itself, so the De Bruijn cache of the new
    /// term is the empty cache with the variable's own index inserted.
    pub fn variable(heap: &mut TermHeap, de_bruijn: DeBruijn) -> (t: Term)
        requires
            old(heap).wf(),
        ensures
            final(heap).wf(),
            final(heap).grown_from(*old(heap)),
            final(heap)@.len() == old(heap)@.len() + 1,
            final(heap).has(t),
            t.id() == old(heap)@.len(),
            final(heap).interp(t) == (TermX::Variable { index: de_bruijn.0 as nat }),
            kind_of(final(heap)@[t.id()].data) == Kind::Variable,
    {
        let cache = DeBruijnCache::for_variable(de_bruijn);
        let node = Node { cache, data: NodeData::Variable { de_bruijn } };
        proof {
            let nodes2 = heap@.push(node);
            let i = heap@.len() as int;
            assert(interp_at(nodes2, i) == (TermX::Variable { index: de_bruijn.0 as nat }));
            assert(node_wf(nodes2, i));
        }
        heap.allocate(node)
    }

    /// Whether this is that specific variable term.
    pub fn eq_variable(&self, heap: &TermHeap, de_bruijn: DeBruijn) -> (r: bool)
        requires
            heap.wf(),
            heap.has(*self),
        ensures
            r <==> heap.interp(*self) == (TermX::Variable { index: de_bruijn.0 as nat }),
    {
        proof {
            assert(node_wf(heap@, self.id()));
        }
        match self.view(heap) {
            View::Variable(own) => own == de_bruijn,
            _ => false,
        }
    }
}

} // verus!
