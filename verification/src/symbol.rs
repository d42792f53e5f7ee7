//! Working with symbol terms and the symbol interner.
//!
//! A symbol denotes a named constant.  Symbols are interned: the interner
//! maps each name to one canonical symbol term, so two symbols are equal
//! exactly when their handles are pointer-equal, and symbol comparison is a
//! constant-time handle comparison.

use vstd::prelude::*;
use vstd::view::View as ViewTrait;
use crate::term::Kind;
use crate::term::Node;
use crate::term::NodeData;
use crate::term::Term;
use crate::term::TermHeap;
use crate::term::TermX;
use crate::term::View;
use crate::term::interp_at;
use crate::term::is_symbol_at;
use crate::term::kind_of;
use crate::term::node_wf;
use crate::term::symbol_name_at;
use crate::variable::DeBruijnCache;

verus! {

broadcast use vstd::seq::group_seq_axioms;

/// Handle to a symbol term.
///
/// As symbols are interned, handle equality coincides with name equality,
/// which is why `==` on this type compares the handles alone.
///
/// You cannot create symbols directly.  Symbol creation happens only through
/// [`Symbols::get`].
#[derive(Clone, Copy, Debug, Eq, PartialEq, Structural)]
pub struct Symbol {
    inner: Term,
}

impl Symbol {
    /// The identity of the underlying allocation.
    pub closed spec fn id(self) -> int {
        self.inner.id()
    }

    /// The underlying term handle.
    pub closed spec fn spec_term(self) -> Term {
        self.inner
    }

    /// Unwrap the symbol term.
    ///
    /// Unlike [`Term::symbol`], this copies the handle for you, so you can
    /// write `s.term()` instead of `Term::symbol(s)`.
    pub fn term(&self) -> (t: Term)
        ensures
            t == self.spec_term(),
            t.id() == self.id(),
    {
        self.inner
    }

    /// Wrap a term handle that is known to identify a symbol term.
    ///
    /// This is internal to the crate: the invariant that symbols are
    /// interned is maintained by handing out `Symbol` values only for
    /// canonical symbol terms.
    pub(crate) fn wrap(t: Term) -> (s: Symbol)
        ensures
            s.spec_term() == t,
            s.id() == t.id(),
    {
        Symbol { inner: t }
    }

    /// The name of the symbol.
    pub fn name(&self, heap: &TermHeap) -> (r: Vec<u8>)
        requires
            is_symbol_at(heap@, self.id()),
        ensures
            r@ == symbol_name_at(heap@, self.id()),
    {
        match &heap.node_at(self.inner.as_ptr()).data {
            NodeData::Symbol { name } => crate::term::copy_vec(name),
            _ => Vec::new(),
        }
    }
}

/// Compare two byte strings for equality.
pub(crate) fn bytes_eq(a: &[u8], b: &[u8]) -> (r: bool)
    ensures
        r <==> a@ == b@,
{
    if a.len() != b.len() {
        proof {
            assert(a@.len() != b@.len());
        }
        return false;
    }
    let mut i: usize = 0;
    while i < a.len()
        invariant
            i <= a@.len(),
            a@.len() == b@.len(),
            forall|j: int| 0 <= j < i ==> a@[j] == b@[j],
        decreases a@.len() - i,
    {
        if a[i] != b[i] {
            return false;
        }
        i = i + 1;
    }
    proof {
        assert(a@ =~= b@);
    }
    true
}

/// Copy a byte slice into an owned vector.
pub(crate) fn bytes_to_vec(s: &[u8]) -> (r: Vec<u8>)
    ensures
        r@ == s@,
{
    let mut r: Vec<u8> = Vec::new();
    let mut i: usize = 0;
    while i < s.len()
        invariant
            i <= s@.len(),
            r@ == s@.subrange(0, i as int),
        decreases s@.len() - i,
    {
        r.push(s[i]);
        i = i + 1;
        assert(r@ =~= s@.subrange(0, i as int));
    }
    assert(r@ =~= s@);
    r
}

impl Term {
    /// Unwrap a symbol term.
    pub fn symbol(symbol: Symbol) -> (t: Term)
        ensures
            t == symbol.spec_term(),
            t.id() == symbol.id(),
    {
        symbol.term()
    }

    /// Create a symbol term without interning it.
    ///
    /// Only the interner may call this: every symbol term visible outside
    /// this module is canonical.
    fn symbol_uninterned(heap: &mut TermHeap, name: &[u8]) -> (t: Term)
        requires
            old(heap).wf(),
        ensures
            final(heap).wf(),
            final(heap).grown_from(*old(heap)),
            final(heap)@.len() == old(heap)@.len() + 1,
            final(heap).has(t),
            t.id() == old(heap)@.len(),
            is_symbol_at(final(heap)@, t.id()),
            symbol_name_at(final(heap)@, t.id()) == name@,
            final(heap).interp(t) == (TermX::Symbol { name: name@ }),
    {
        let bytes = bytes_to_vec(name);
        let node = Node { cache: DeBruijnCache::empty(), data: NodeData::Symbol { name: bytes } };
        proof {
            let nodes2 = heap@.push(node);
            let i = heap@.len() as int;
            assert(interp_at(nodes2, i) == (TermX::Symbol { name: name@ }));
            assert(node_wf(nodes2, i));
        }
        heap.allocate(node)
    }

    /// Whether this is a symbol term.
    pub fn is_symbol(&self, heap: &TermHeap) -> (r: bool)
        requires
            heap.has(*self),
        ensures
            r <==> is_symbol_at(heap@, self.id()),
    {
        match &heap.node_at(self.as_ptr()).data {
            NodeData::Symbol { .. } => true,
            _ => false,
        }
    }

    /// Whether this is that specific symbol term.
    ///
    /// Because symbols are interned, this single handle comparison decides
    /// name equality; see [`lemma_eq_symbol_interp`].
    pub fn eq_symbol(&self, symbol: &Symbol) -> (r: bool)
        ensures
            r <==> self.id() == symbol.id(),
    {
        self.as_ptr() == symbol.term().as_ptr()
    }

    /// Wrap a symbol term, if it is one.
    pub fn as_symbol(&self, heap: &TermHeap) -> (r: Option<Symbol>)
        requires
            heap.has(*self),
        ensures
            match r {
                Some(s) => is_symbol_at(heap@, self.id()) && s.spec_term() == *self && s.id()
                    == self.id(),
                None => !is_symbol_at(heap@, self.id()),
            },
    {
        if self.is_symbol(heap) {
            Some(Symbol::wrap(*self))
        } else {
            None
        }
    }

}

/// Table of interned symbols.
///
/// The table holds the canonical handle for every symbol term of the heap:
/// symbol terms are created only through [`Symbols::get`], which returns the
/// existing handle whenever the name was seen before.
pub struct Symbols {
    table: Vec<Term>,
}

impl vstd::view::View for Symbols {
    type V = Seq<Term>;

    closed spec fn view(&self) -> Seq<Term> {
        self.table@
    }
}

impl Symbols {
    /// The interner invariant, relative to the heap the symbols live in:
    /// every table entry is a symbol term, no two entries share a name, and
    /// every symbol term of the heap is in the table.
    /// Whether a symbol with the given name bytes is already interned.
    pub open spec fn contains_name(self, heap: TermHeap, name: Seq<u8>) -> bool {
        exists|k: int|
            0 <= k < self@.len() && symbol_name_at(heap@, (#[trigger] self@[k]).id()) == name
    }

    pub open spec fn wf(self, heap: TermHeap) -> bool {
        &&& forall|k: int| 0 <= k < self@.len() ==> is_symbol_at(heap@, (#[trigger] self@[k]).id())
        &&& forall|k1: int, k2: int|
            0 <= k1 < k2 < self@.len() ==> symbol_name_at(heap@, self@[k1].id())
                != symbol_name_at(heap@, self@[k2].id())
        &&& forall|i: int|
            #[trigger] is_symbol_at(heap@, i) ==> exists|k: int|
                0 <= k < self@.len() && (#[trigger] self@[k]).id() == i
    }

    /// Create a new table with no symbols.
    pub fn new() -> (r: Self)
        ensures
            r@.len() == 0,
            forall|heap: TermHeap| heap@.len() == 0 ==> r.wf(heap),
    {
        let r = Symbols { table: Vec::new() };
        proof {
            assert forall|heap: TermHeap| heap@.len() == 0 implies r.wf(heap) by {
                assert forall|i: int| #[trigger] is_symbol_at(heap@, i) implies exists|k: int|
                    0 <= k < r@.len() && (#[trigger] r@[k]).id() == i by {
                    assert(false);
                }
            }
        }
        r
    }

    /// Get or create the symbol with the given name.
    ///
    /// When a symbol with the same name was already created, this method
    /// returns that same symbol term.
    pub fn get(&mut self, heap: &mut TermHeap, name: &[u8]) -> (s: Symbol)
        requires
            old(heap).wf(),
            old(self).wf(*old(heap)),
        ensures
            final(heap).wf(),
            final(self).wf(*final(heap)),
            final(heap).grown_from(*old(heap)),
            old(self)@.is_prefix_of(final(self)@),
            final(heap).has(s.spec_term()),
            is_symbol_at(final(heap)@, s.id()),
            symbol_name_at(final(heap)@, s.id()) == name@,
            final(heap).interp(s.spec_term()) == (TermX::Symbol { name: name@ }),
            old(self).contains_name(*old(heap), name@) ==> *final(heap) == *old(heap)
                && *final(self) == *old(self),
            !old(self).contains_name(*old(heap), name@) ==> final(heap)@.len() == old(heap)@.len()
                + 1 && final(self)@ == old(self)@.push(s.spec_term()),
    {
        let mut k: usize = 0;
        while k < self.table.len()
            invariant
                *heap == *old(heap),
                *self == *old(self),
                heap.wf(),
                self.wf(*heap),
                k <= self@.len(),
                forall|j: int| 0 <= j < k ==> symbol_name_at(heap@, self@[j].id()) != name@,
            decreases self@.len() - k,
        {
            let t = self.table[k];
            let matches_name = match &heap.node_at(t.as_ptr()).data {
                NodeData::Symbol { name: own } => bytes_eq(own.as_slice(), name),
                _ => false,
            };
            if matches_name {
                proof {
                    assert(is_symbol_at(heap@, t.id()));
                    assert(heap@.is_prefix_of(heap@));
                    assert(self@.is_prefix_of(self@));
                    assert(symbol_name_at(old(heap)@, (old(self)@[k as int]).id()) == name@);
                    assert(old(self).contains_name(*old(heap), name@));
                }
                return Symbol::wrap(t);
            }
            k = k + 1;
        }
        proof {
            if old(self).contains_name(*old(heap), name@) {
                let j = choose|j: int|
                    0 <= j < old(self)@.len() && symbol_name_at(
                        old(heap)@,
                        (#[trigger] old(self)@[j]).id(),
                    ) == name@;
                assert(symbol_name_at(heap@, self@[j].id()) == name@);
                assert(false);
            }
        }
        let ghost heap1 = *heap;
        let t = Term::symbol_uninterned(heap, name);
        self.table.push(t);
        proof {
            let heap2 = *heap;
            assert forall|k1: int, k2: int| 0 <= k1 < k2 < self@.len() implies symbol_name_at(
                heap2@,
                self@[k1].id(),
            ) != symbol_name_at(heap2@, self@[k2].id()) by {
                if k2 < self@.len() - 1 {
                    assert(heap2@[self@[k1].id()] == heap1@[self@[k1].id()]);
                    assert(heap2@[self@[k2].id()] == heap1@[self@[k2].id()]);
                } else {
                    assert(heap2@[self@[k1].id()] == heap1@[self@[k1].id()]);
                    assert(symbol_name_at(heap1@, self@[k1].id()) != name@);
                }
            }
            assert forall|i: int| #[trigger] is_symbol_at(heap2@, i) implies exists|k: int|
                0 <= k < self@.len() && (#[trigger] self@[k]).id() == i by {
                if i < heap1@.len() {
                    assert(heap2@[i] == heap1@[i]);
                    assert(is_symbol_at(heap1@, i));
                    let k0 = choose|k0: int|
                        0 <= k0 < old(self)@.len() && (#[trigger] old(self)@[k0]).id() == i;
                    assert(self@[k0].id() == i);
                } else {
                    assert(self@[self@.len() - 1].id() == i);
                }
            }
            assert forall|k0: int| 0 <= k0 < self@.len() implies is_symbol_at(
                heap2@,
                (#[trigger] self@[k0]).id(),
            ) by {
                if k0 < self@.len() - 1 {
                    assert(is_symbol_at(heap1@, self@[k0].id()));
                    assert(heap2@[self@[k0].id()] == heap1@[self@[k0].id()]);
                }
            }
        }
        Symbol::wrap(t)
    }
}

/// Symbols with the same identity are the same handle.
pub proof fn lemma_symbol_id_injective(a: Symbol, b: Symbol)
    requires
        a.id() == b.id(),
    ensures
        a == b,
{
    crate::term::lemma_term_id_injective(a.inner, b.inner);
}

/// A symbol's underlying term handle has the symbol's identity.
pub broadcast proof fn lemma_spec_term_id(s: Symbol)
    ensures
        #[trigger] s.spec_term().id() == s.id(),
{
}

/// The interner invariant survives heap growth, as long as none of the new
/// nodes is a symbol: every symbol term still has its table entry.
pub proof fn lemma_symbols_wf_grow(syms: Symbols, h1: TermHeap, h2: TermHeap)
    requires
        syms.wf(h1),
        h2.grown_from(h1),
        forall|i: int| h1@.len() <= i < h2@.len() ==> !(#[trigger] h2@[i].data is Symbol),
    ensures
        syms.wf(h2),
{
    assert forall|i: int| 0 <= i < h1@.len() implies h2@[i] == h1@[i] by {
        assert(h1@[i] == h2@.subrange(0, h1@.len() as int)[i]);
    }
    assert forall|i: int| #[trigger] is_symbol_at(h2@, i) implies exists|k: int|
        0 <= k < syms@.len() && (#[trigger] syms@[k]).id() == i by {
        assert(i < h1@.len());
        assert(is_symbol_at(h1@, i));
    }
    assert forall|k: int| 0 <= k < syms@.len() implies is_symbol_at(
        h2@,
        (#[trigger] syms@[k]).id(),
    ) by {
        assert(is_symbol_at(h1@, syms@[k].id()));
    }
    assert forall|k1: int, k2: int| 0 <= k1 < k2 < syms@.len() implies symbol_name_at(
        h2@,
        syms@[k1].id(),
    ) != symbol_name_at(h2@, syms@[k2].id()) by {
        assert(is_symbol_at(h1@, syms@[k1].id()));
        assert(is_symbol_at(h1@, syms@[k2].id()));
    }
}

/// In one heap that an interner covers, symbol terms with equal names are
/// the same allocation.
pub proof fn lemma_symbol_unique(heap: TermHeap, syms: Symbols, a: Term, b: Term)
    requires
        syms.wf(heap),
        is_symbol_at(heap@, a.id()),
        is_symbol_at(heap@, b.id()),
        symbol_name_at(heap@, a.id()) == symbol_name_at(heap@, b.id()),
    ensures
        a.id() == b.id(),
{
    let k1 = choose|k: int| 0 <= k < syms@.len() && (#[trigger] syms@[k]).id() == a.id();
    let k2 = choose|k: int| 0 <= k < syms@.len() && (#[trigger] syms@[k]).id() == b.id();
    if k1 != k2 {
        assert(symbol_name_at(heap@, syms@[k1].id()) != symbol_name_at(heap@, syms@[k2].id()));
    }
}

/// Symbol identity: two handles obtained from the interner for equal name
/// bytes are pointer-equal, even when the heap has grown between the two
/// lookups.
pub proof fn lemma_interner_identity(
    h1: TermHeap,
    h2: TermHeap,
    syms: Symbols,
    s1: Symbol,
    s2: Symbol,
)
    requires
        h2.grown_from(h1),
        syms.wf(h2),
        is_symbol_at(h1@, s1.id()),
        is_symbol_at(h2@, s2.id()),
        symbol_name_at(h1@, s1.id()) == symbol_name_at(h2@, s2.id()),
    ensures
        s1.id() == s2.id(),
        s1 == s2,
{
    assert(h1@[s1.id()] == h2@.subrange(0, h1@.len() as int)[s1.id()]);
    assert(is_symbol_at(h2@, s1.id()));
    assert(symbol_name_at(h2@, s1.id()) == symbol_name_at(h1@, s1.id()));
    lemma_symbol_unique(h2, syms, s1.spec_term(), s2.spec_term());
    crate::term::lemma_term_id_injective(s1.spec_term(), s2.spec_term());
}

/// What a handle comparison against an interned symbol decides: the handles
/// coincide exactly when the term is the symbol term with that name.
pub proof fn lemma_eq_symbol_interp(heap: TermHeap, syms: Symbols, t: Term, s: Symbol)
    requires
        heap.wf(),
        syms.wf(heap),
        heap.has(t),
        is_symbol_at(heap@, s.id()),
    ensures
        (t.id() == s.id()) <==> (heap.interp(t) == (TermX::Symbol {
            name: symbol_name_at(heap@, s.id()),
        })),
{
    if heap.interp(t) == (TermX::Symbol { name: symbol_name_at(heap@, s.id()) }) {
        assert(node_wf(heap@, t.id()));
        match heap@[t.id()].data {
            NodeData::Symbol { .. } => {
                lemma_symbol_unique(heap, syms, t, s.spec_term());
            },
            _ => {
                assert(false);
            },
        }
    }
}

} // verus!
