//! Data type for terms.
//!
//! A term is an immutable value of one of six kinds.  Terms live in a
//! [`TermHeap`]; a [`Term`] is a handle naming one allocation in that heap,
//! so two handles are "the same object" exactly when [`Term::ptr_eq`] holds.
//! Terms form a DAG built leaves-first: every node only refers to nodes
//! allocated before it.
//!
//! The mathematical model of a term is the tree [`TermX`]; the function
//! [`interp_at`] reads a handle's tree out of the heap.  The heap invariant
//! [`TermHeap::wf`] states that every node's De Bruijn cache equals the
//! cache computed by the composition rules ([`cache_of`]).

use vstd::prelude::*;
use vstd::view::View as ViewTrait;
use crate::lambda::Parameter;
use crate::lambda::Strictness;
use crate::symbol::Symbol;
use crate::variable::DeBruijn;
use crate::variable::DeBruijnCache;
use crate::variable::spec_insert;
use crate::variable::spec_or;
use crate::variable::spec_shr;

verus! {

broadcast use vstd::seq::group_seq_axioms;

/// Different kinds of terms.
///
/// The payload layout depends on this tag.  There is one module per kind
/// that implements working with terms of that kind.
#[derive(Clone, Copy, Debug, Eq, PartialEq, Structural)]
pub enum Kind {
    Application,
    Integer,
    Lambda,
    String,
    Symbol,
    Variable,
}

/// Handle to a term of any kind.
///
/// A handle identifies one allocation in a [`TermHeap`].  Copying a handle
/// never copies the term; `==` on handles is pointer equality.
#[derive(Clone, Copy, Debug, Eq, PartialEq, Structural)]
pub struct Term {
    idx: usize,
}

impl Term {
    /// The identity of the allocation this handle refers to.
    pub closed spec fn id(self) -> int {
        self.idx as int
    }

    /// Wrap an allocation index as a handle.
    pub(crate) fn from_index(idx: usize) -> (t: Term)
        ensures
            t.id() == idx as int,
    {
        Term { idx }
    }

    /// Access the term's identity as a plain value.
    ///
    /// Two terms are the same object exactly when these values coincide.
    pub fn as_ptr(&self) -> (r: usize)
        ensures
            r as int == self.id(),
    {
        self.idx
    }

    /// Whether two handles refer to the same allocation.
    pub fn ptr_eq(&self, other: &Term) -> (r: bool)
        ensures
            r <==> self.id() == other.id(),
            r <==> *self == *other,
    {
        self.idx == other.idx
    }
}

/// Kind-specific payload of one allocated term.
pub enum NodeData {
    /// The function being applied and the list of arguments.
    Application { function: Term, arguments: Vec<Term> },
    /// One machine-word signed value.
    Integer { value: i32 },
    /// The parameter list and the body.
    Lambda { parameters: Vec<Parameter>, body: Term },
    /// The bytes of a string term.
    String { bytes: Vec<u8> },
    /// The name bytes of a symbol term.
    Symbol { name: Vec<u8> },
    /// The De Bruijn index of a variable term.
    Variable { de_bruijn: DeBruijn },
}

/// One allocated term: a header (the De Bruijn cache) and the payload.
pub struct Node {
    /// Summary of the free variables under this term.
    pub cache: DeBruijnCache,
    /// The kind-specific payload.
    pub data: NodeData,
}

/// The arena all terms are allocated in.
///
/// Allocation only ever appends, and nodes are immutable once written, so a
/// handle's meaning never changes while the heap grows.
pub struct TermHeap {
    pub(crate) nodes: Vec<Node>,
}

/// Borrowed-free view of a term, one variant per kind.
///
/// This is how downstream code generally inspects terms, if not through the
/// `as_*`/`eq_*` methods on [`Term`].  Handles and payload bytes are copied
/// out of the heap.
#[allow(missing_docs)]
pub enum View {
    Application(Term, Vec<Term>),
    Integer(i32),
    Lambda(Vec<Parameter>, Term),
    String(Vec<u8>),
    Symbol(Symbol),
    Variable(DeBruijn),
}

/// The mathematical model of a term: the tree a handle denotes.
#[verifier::ext_equal]
pub enum TermX {
    Application { function: Box<TermX>, arguments: Seq<TermX> },
    Integer { value: int },
    Lambda { parameters: Seq<ParameterX>, body: Box<TermX> },
    String { bytes: Seq<u8> },
    Symbol { name: Seq<u8> },
    Variable { index: nat },
}

/// The mathematical model of a lambda parameter.
#[verifier::ext_equal]
pub struct ParameterX {
    pub strictness: Strictness,
    pub name: Seq<u8>,
}

/// The kind tag of a payload.
pub open spec fn kind_of(d: NodeData) -> Kind {
    match d {
        NodeData::Application { .. } => Kind::Application,
        NodeData::Integer { .. } => Kind::Integer,
        NodeData::Lambda { .. } => Kind::Lambda,
        NodeData::String { .. } => Kind::String,
        NodeData::Symbol { .. } => Kind::Symbol,
        NodeData::Variable { .. } => Kind::Variable,
    }
}

/// Whether every child handle in `d` names an allocation before `i`.
pub open spec fn data_bounded(d: NodeData, i: int) -> bool {
    match d {
        NodeData::Application { function, arguments } => {
            &&& 0 <= function.id() < i
            &&& forall|k: int|
                0 <= k < arguments@.len() ==> 0 <= (#[trigger] arguments@[k]).id() < i
        },
        NodeData::Lambda { parameters, body } => {
            &&& 0 <= body.id() < i
            &&& forall|k: int|
                0 <= k < parameters@.len() ==> 0 <= (#[trigger] parameters@[k]).name.id() < i
        },
        _ => true,
    }
}

/// Whether `i` names a symbol allocation in `nodes`.
pub open spec fn is_symbol_at(nodes: Seq<Node>, i: int) -> bool {
    0 <= i < nodes.len() && nodes[i].data is Symbol
}

/// The name bytes of the symbol allocated at `i`.
pub open spec fn symbol_name_at(nodes: Seq<Node>, i: int) -> Seq<u8> {
    if 0 <= i < nodes.len() {
        match nodes[i].data {
            NodeData::Symbol { name } => name@,
            _ => Seq::empty(),
        }
    } else {
        Seq::empty()
    }
}

/// The model of a parameter list.
pub open spec fn interp_params(nodes: Seq<Node>, ps: Seq<Parameter>) -> Seq<ParameterX> {
    Seq::new(
        ps.len(),
        |k: int|
            ParameterX {
                strictness: ps[k].strictness,
                name: symbol_name_at(nodes, ps[k].name.id()),
            },
    )
}

/// The tree denoted by the allocation at `i`.
///
/// For an index that is out of range, or a node whose children are not
/// allocated before it (which [`TermHeap::wf`] rules out), an arbitrary
/// default tree is returned to keep the function total.
pub open spec fn interp_at(nodes: Seq<Node>, i: int) -> TermX
    decreases i, 1int, 0int,
{
    if 0 <= i < nodes.len() && data_bounded(nodes[i].data, i) {
        match nodes[i].data {
            NodeData::Application { function, arguments } => TermX::Application {
                function: Box::new(interp_at(nodes, function.id())),
                arguments: interp_list(nodes, arguments@, i),
            },
            NodeData::Integer { value } => TermX::Integer { value: value as int },
            NodeData::Lambda { parameters, body } => TermX::Lambda {
                parameters: interp_params(nodes, parameters@),
                body: Box::new(interp_at(nodes, body.id())),
            },
            NodeData::String { bytes } => TermX::String { bytes: bytes@ },
            NodeData::Symbol { name } => TermX::Symbol { name: name@ },
            NodeData::Variable { de_bruijn } => TermX::Variable { index: de_bruijn.0 as nat },
        }
    } else {
        TermX::Integer { value: 0 }
    }
}

/// The trees denoted by a list of handles, all allocated before `bound`.
pub open spec fn interp_list(nodes: Seq<Node>, ts: Seq<Term>, bound: int) -> Seq<TermX>
    decreases bound, 0int, ts.len(),
{
    if ts.len() == 0 {
        Seq::empty()
    } else {
        let head = if 0 <= ts[0].id() < bound {
            interp_at(nodes, ts[0].id())
        } else {
            TermX::Integer { value: 0 }
        };
        Seq::empty().push(head) + interp_list(nodes, ts.subrange(1, ts.len() as int), bound)
    }
}

/// The De Bruijn cache prescribed for a tree by the composition rules.
pub open spec fn cache_of(t: TermX) -> u16
    decreases t, 1int,
{
    match t {
        TermX::Variable { index } => spec_insert(0u16, index),
        TermX::Application { function, arguments } => spec_or(
            cache_of(*function),
            cache_of_list(arguments),
        ),
        TermX::Lambda { parameters, body } => spec_shr(cache_of(*body), parameters.len()),
        _ => 0u16,
    }
}

/// The union of the caches of a list of trees.
pub open spec fn cache_of_list(ts: Seq<TermX>) -> u16
    decreases ts, 0int,
{
    if ts.len() == 0 {
        0u16
    } else {
        spec_or(cache_of(ts[0]), cache_of_list(ts.subrange(1, ts.len() as int)))
    }
}

/// Whether variable `i` occurs free in the tree `t`.
pub open spec fn has_free(t: TermX, i: nat) -> bool
    decreases t, 1int,
{
    match t {
        TermX::Variable { index } => index == i,
        TermX::Application { function, arguments } => has_free(*function, i) || has_free_list(
            arguments,
            i,
        ),
        TermX::Lambda { parameters, body } => has_free(*body, (i + parameters.len()) as nat),
        _ => false,
    }
}

/// Whether variable `i` occurs free in any tree of the list.
pub open spec fn has_free_list(ts: Seq<TermX>, i: nat) -> bool
    decreases ts, 0int,
{
    if ts.len() == 0 {
        false
    } else {
        has_free(ts[0], i) || has_free_list(ts.subrange(1, ts.len() as int), i)
    }
}

/// The per-node part of the heap invariant.
pub open spec fn node_wf(nodes: Seq<Node>, i: int) -> bool {
    &&& 0 <= i < nodes.len()
    &&& data_bounded(nodes[i].data, i)
    &&& match nodes[i].data {
        NodeData::Lambda { parameters, body } => {
            &&& parameters@.len() >= 1
            &&& forall|k: int|
                0 <= k < parameters@.len() ==> is_symbol_at(
                    nodes,
                    (#[trigger] parameters@[k]).name.id(),
                )
        },
        _ => true,
    }
    &&& nodes[i].cache@ == cache_of(interp_at(nodes, i))
}

impl ViewTrait for TermHeap {
    type V = Seq<Node>;

    closed spec fn view(&self) -> Seq<Node> {
        self.nodes@
    }
}

impl TermHeap {
    /// The heap invariant: every node is well formed.
    pub open spec fn wf(self) -> bool {
        forall|i: int| 0 <= i < self@.len() ==> #[trigger] node_wf(self@, i)
    }

    /// Whether `t` names an allocation of this heap.
    pub open spec fn has(self, t: Term) -> bool {
        0 <= t.id() < self@.len()
    }

    /// The tree denoted by `t`.
    pub open spec fn interp(self, t: Term) -> TermX {
        interp_at(self@, t.id())
    }

    /// Whether this heap is the result of only allocating on top of
    /// `prior`: every allocation of `prior` is still there, with the same
    /// meaning.
    pub open spec fn grown_from(self, prior: TermHeap) -> bool {
        &&& prior@.is_prefix_of(self@)
        &&& forall|j: int|
            0 <= j < prior@.len() ==> interp_at(self@, j) == #[trigger] interp_at(prior@, j)
    }

    /// Create an empty heap.
    pub fn new() -> (heap: TermHeap)
        ensures
            heap.wf(),
            heap@.len() == 0,
    {
        TermHeap { nodes: Vec::new() }
    }
}

/// Copy a vector of plain values.
pub(crate) fn copy_vec<T: Copy>(v: &Vec<T>) -> (r: Vec<T>)
    ensures
        r@ == v@,
{
    let mut r: Vec<T> = Vec::new();
    let mut i: usize = 0;
    while i < v.len()
        invariant
            i <= v.len(),
            r@ == v@.subrange(0, i as int),
        decreases v.len() - i,
    {
        r.push(v[i]);
        i = i + 1;
        assert(r@ =~= v@.subrange(0, i as int));
    }
    assert(r@ =~= v@);
    r
}

/// Handle identities are in one-to-one correspondence with handles.
pub proof fn lemma_term_id_injective(a: Term, b: Term)
    requires
        a.id() == b.id(),
    ensures
        a == b,
{
}

impl TermHeap {
    /// Borrow the node a valid index names.
    pub(crate) fn node_at(&self, i: usize) -> (n: &Node)
        requires
            (i as int) < self@.len(),
        ensures
            *n == self@[i as int],
    {
        &self.nodes[i]
    }

    /// Append one already well-formed node.
    pub(crate) fn allocate(&mut self, node: Node) -> (t: Term)
        requires
            old(self).wf(),
            node_wf(old(self)@.push(node), old(self)@.len() as int),
        ensures
            final(self).wf(),
            final(self)@ == old(self)@.push(node),
            final(self).grown_from(*old(self)),
            final(self).has(t),
            t.id() == old(self)@.len(),
    {
        proof {
            lemma_wf_push(self@, node);
        }
        let t = Term::from_index(self.nodes.len());
        self.nodes.push(node);
        t
    }
}

/// What [`Term::view`] guarantees about the view it hands out: the view's
/// handles are the very children stored in the node, not tree-equal
/// copies, so handle comparisons on them decide sharing.
pub open spec fn view_ok(heap: TermHeap, t: Term, v: View) -> bool {
    match v {
        View::Application(f, args) => {
            &&& (heap@[t.id()].data matches NodeData::Application { function, arguments }
                && function == f && arguments@ == args@)
            &&& 0 <= f.id() < t.id()
            &&& forall|k: int| 0 <= k < args@.len() ==> 0 <= (#[trigger] args@[k]).id() < t.id()
            &&& heap.interp(t) == (TermX::Application {
                function: Box::new(heap.interp(f)),
                arguments: interp_list(heap@, args@, t.id()),
            })
        },
        View::Integer(x) => heap.interp(t) == (TermX::Integer { value: x as int }),
        View::Lambda(params, body) => {
            &&& (heap@[t.id()].data matches NodeData::Lambda { parameters, body: stored }
                && stored == body && parameters@ == params@)
            &&& 0 <= body.id() < t.id()
            &&& params@.len() >= 1
            &&& forall|k: int|
                0 <= k < params@.len() ==> is_symbol_at(heap@, (#[trigger] params@[k]).name.id())
                    && 0 <= params@[k].name.id() < t.id()
            &&& heap.interp(t) == (TermX::Lambda {
                parameters: interp_params(heap@, params@),
                body: Box::new(heap.interp(body)),
            })
        },
        View::String(bytes) => heap.interp(t) == (TermX::String { bytes: bytes@ }),
        View::Symbol(s) => {
            &&& s.id() == t.id()
            &&& s.spec_term() == t
            &&& is_symbol_at(heap@, t.id())
            &&& heap.interp(t) == (TermX::Symbol { name: symbol_name_at(heap@, t.id()) })
        },
        View::Variable(db) => heap.interp(t) == (TermX::Variable { index: db.0 as nat }),
    }
}

impl Term {
    /// Borrow-free view of the components of the term.
    pub fn view(&self, heap: &TermHeap) -> (v: View)
        requires
            heap.wf(),
            heap.has(*self),
        ensures
            view_ok(*heap, *self, v),
    {
        proof {
            assert(node_wf(heap@, self.id()));
        }
        match &heap.nodes[self.idx].data {
            NodeData::Application { function, arguments } => View::Application(
                *function,
                copy_vec(arguments),
            ),
            NodeData::Integer { value } => View::Integer(*value),
            NodeData::Lambda { parameters, body } => View::Lambda(copy_vec(parameters), *body),
            NodeData::String { bytes } => View::String(copy_vec(bytes)),
            NodeData::Symbol { .. } => View::Symbol(Symbol::wrap(*self)),
            NodeData::Variable { de_bruijn } => View::Variable(*de_bruijn),
        }
    }

    /// The cached free-variable summary stored in the term's header.
    pub fn cache(&self, heap: &TermHeap) -> (c: DeBruijnCache)
        requires
            heap.has(*self),
        ensures
            c == heap@[self.id()].cache,
    {
        heap.nodes[self.idx].cache
    }

    /// The kind of the term.
    pub fn kind(&self, heap: &TermHeap) -> (k: Kind)
        requires
            heap.has(*self),
        ensures
            k == kind_of(heap@[self.id()].data),
    {
        match &heap.nodes[self.idx].data {
            NodeData::Application { .. } => Kind::Application,
            NodeData::Integer { .. } => Kind::Integer,
            NodeData::Lambda { .. } => Kind::Lambda,
            NodeData::String { .. } => Kind::String,
            NodeData::Symbol { .. } => Kind::Symbol,
            NodeData::Variable { .. } => Kind::Variable,
        }
    }
}

/// The trees of a list of handles, element by element.
pub open spec fn interp_each(heap: TermHeap, ts: Seq<Term>) -> Seq<TermX> {
    Seq::new(ts.len(), |k: int| heap.interp(ts[k]))
}

/// For handles below `bound`, [`interp_list`] and [`interp_each`] agree.
pub proof fn lemma_interp_each(heap: TermHeap, ts: Seq<Term>, bound: int)
    requires
        forall|k: int| 0 <= k < ts.len() ==> 0 <= (#[trigger] ts[k]).id() < bound,
    ensures
        interp_list(heap@, ts, bound) == interp_each(heap, ts),
{
    lemma_interp_list_props(heap@, ts, bound);
    assert(interp_list(heap@, ts, bound) =~= interp_each(heap, ts));
}

/// Unfolds the cache of a suffix of a list of arguments by one element.
pub proof fn lemma_cache_list_step(heap: TermHeap, ts: Seq<Term>, bound: int, k: int)
    requires
        heap.wf(),
        0 <= bound <= heap@.len(),
        forall|j: int| 0 <= j < ts.len() ==> 0 <= (#[trigger] ts[j]).id() < bound,
        0 <= k < ts.len(),
    ensures
        cache_of_list(interp_list(heap@, ts.subrange(k, ts.len() as int), bound)) == spec_or(
            heap@[ts[k].id()].cache@,
            cache_of_list(interp_list(heap@, ts.subrange(k + 1, ts.len() as int), bound)),
        ),
{
    let s = ts.subrange(k, ts.len() as int);
    let rest = ts.subrange(k + 1, ts.len() as int);
    assert(s[0] == ts[k]);
    assert(s.subrange(1, s.len() as int) =~= rest);
    let h = interp_at(heap@, ts[k].id());
    let hs = Seq::empty().push(h) + interp_list(heap@, rest, bound);
    assert(interp_list(heap@, s, bound) == hs);
    assert(hs[0] == h);
    assert(hs.subrange(1, hs.len() as int) =~= interp_list(heap@, rest, bound));
    assert(node_wf(heap@, ts[k].id()));
}

/// [`interp_list`] indexes into the element trees.
pub proof fn lemma_interp_list_props(nodes: Seq<Node>, ts: Seq<Term>, bound: int)
    requires
        forall|k: int| 0 <= k < ts.len() ==> 0 <= (#[trigger] ts[k]).id() < bound,
    ensures
        interp_list(nodes, ts, bound).len() == ts.len(),
        forall|k: int|
            0 <= k < ts.len() ==> interp_list(nodes, ts, bound)[k] == interp_at(
                nodes,
                ts[k].id(),
            ),
    decreases ts.len(),
{
    if ts.len() == 0 {
    } else {
        let rest = ts.subrange(1, ts.len() as int);
        lemma_interp_list_props(nodes, rest, bound);
        assert forall|k: int| 0 <= k < ts.len() implies interp_list(nodes, ts, bound)[k]
            == interp_at(nodes, ts[k].id()) by {
            if k > 0 {
                assert(rest[k - 1] == ts[k]);
            }
        }
    }
}

/// Growing the heap does not change the tree an existing handle denotes.
pub proof fn lemma_interp_stable(nodes1: Seq<Node>, nodes2: Seq<Node>, i: int)
    requires
        nodes1.is_prefix_of(nodes2),
        0 <= i < nodes1.len(),
    ensures
        interp_at(nodes2, i) == interp_at(nodes1, i),
    decreases i, 1int, 0int,
{
    assert(nodes1[i] == nodes2.subrange(0, nodes1.len() as int)[i]);
    match nodes1[i].data {
        NodeData::Application { function, arguments } => {
            if data_bounded(nodes1[i].data, i) {
                lemma_interp_stable(nodes1, nodes2, function.id());
                lemma_interp_list_stable(nodes1, nodes2, arguments@, i);
            }
        },
        NodeData::Lambda { parameters, body } => {
            if data_bounded(nodes1[i].data, i) {
                lemma_interp_stable(nodes1, nodes2, body.id());
                assert(interp_params(nodes2, parameters@) =~= interp_params(
                    nodes1,
                    parameters@,
                )) by {
                    assert forall|k: int| 0 <= k < parameters@.len() implies symbol_name_at(
                        nodes2,
                        parameters@[k].name.id(),
                    ) == symbol_name_at(nodes1, parameters@[k].name.id()) by {
                        let nid = parameters@[k].name.id();
                        assert(nodes1[nid] == nodes2.subrange(0, nodes1.len() as int)[nid]);
                    }
                }
            }
        },
        _ => {},
    }
}

/// Growing the heap does not change the trees of a list of handles.
pub proof fn lemma_interp_list_stable(nodes1: Seq<Node>, nodes2: Seq<Node>, ts: Seq<Term>, bound: int)
    requires
        nodes1.is_prefix_of(nodes2),
        0 <= bound <= nodes1.len(),
    ensures
        interp_list(nodes2, ts, bound) == interp_list(nodes1, ts, bound),
    decreases bound, 0int, ts.len(),
{
    if ts.len() == 0 {
    } else {
        if 0 <= ts[0].id() < bound {
            lemma_interp_stable(nodes1, nodes2, ts[0].id());
        }
        lemma_interp_list_stable(nodes1, nodes2, ts.subrange(1, ts.len() as int), bound);
    }
}

/// Growing the heap keeps an existing node well formed.
pub proof fn lemma_node_wf_stable(nodes1: Seq<Node>, nodes2: Seq<Node>, i: int)
    requires
        nodes1.is_prefix_of(nodes2),
        node_wf(nodes1, i),
    ensures
        node_wf(nodes2, i),
{
    assert(nodes1[i] == nodes2.subrange(0, nodes1.len() as int)[i]);
    lemma_interp_stable(nodes1, nodes2, i);
    match nodes1[i].data {
        NodeData::Lambda { parameters, body } => {
            assert forall|k: int| 0 <= k < parameters@.len() implies is_symbol_at(
                nodes2,
                (#[trigger] parameters@[k]).name.id(),
            ) by {
                let nid = parameters@[k].name.id();
                assert(nodes1[nid] == nodes2.subrange(0, nodes1.len() as int)[nid]);
            }
        },
        _ => {},
    }
}

/// A heap stays well formed when one well-formed node is appended.
pub proof fn lemma_wf_push(nodes: Seq<Node>, node: Node)
    requires
        forall|i: int| 0 <= i < nodes.len() ==> #[trigger] node_wf(nodes, i),
        node_wf(nodes.push(node), nodes.len() as int),
    ensures
        forall|i: int| 0 <= i < nodes.push(node).len() ==> #[trigger] node_wf(nodes.push(node), i),
        nodes.is_prefix_of(nodes.push(node)),
        forall|j: int|
            0 <= j < nodes.len() ==> interp_at(nodes.push(node), j) == #[trigger] interp_at(
                nodes,
                j,
            ),
{
    assert(nodes =~= nodes.push(node).subrange(0, nodes.len() as int));
    assert forall|i: int| 0 <= i < nodes.push(node).len() implies #[trigger] node_wf(
        nodes.push(node),
        i,
    ) by {
        if i < nodes.len() {
            lemma_node_wf_stable(nodes, nodes.push(node), i);
        }
    }
    assert forall|j: int| 0 <= j < nodes.len() implies interp_at(nodes.push(node), j)
        == #[trigger] interp_at(nodes, j) by {
        lemma_interp_stable(nodes, nodes.push(node), j);
    }
}

/// De Bruijn cache soundness: a cache computed by the composition rules
/// that is not "unknown" covers every free variable of the tree.
pub proof fn lemma_cache_sound(t: TermX)
    ensures
        cache_of(t) != crate::variable::unknown_bits() ==> forall|i: nat|
            has_free(t, i) ==> crate::variable::spec_bit(cache_of(t), i),
    decreases t, 1int,
{
    if cache_of(t) != crate::variable::unknown_bits() {
        match t {
            TermX::Variable { index } => {
                assert(index < 16);
                crate::variable::lemma_insert_bit(0u16, index as u16);
            },
            TermX::Application { function, arguments } => {
                let cf = cache_of(*function);
                let cl = cache_of_list(arguments);
                lemma_cache_sound(*function);
                lemma_cache_sound_list(arguments);
                crate::variable::lemma_or_bit(cf, cl, 0u16);
                assert forall|i: nat| has_free(t, i) implies crate::variable::spec_bit(
                    cache_of(t),
                    i,
                ) by {
                    if has_free(*function, i) {
                        assert(crate::variable::spec_bit(cf, i));
                        crate::variable::lemma_or_bit(cf, cl, i as u16);
                    } else {
                        assert(has_free_list(arguments, i));
                        assert(crate::variable::spec_bit(cl, i));
                        crate::variable::lemma_or_bit(cf, cl, i as u16);
                    }
                }
            },
            TermX::Lambda { parameters, body } => {
                let cb = cache_of(*body);
                let k = parameters.len();
                lemma_cache_sound(*body);
                assert forall|i: nat| has_free(t, i) implies crate::variable::spec_bit(
                    cache_of(t),
                    i,
                ) by {
                    assert(has_free(*body, (i + k) as nat));
                    assert(cb != crate::variable::unknown_bits());
                    assert(crate::variable::spec_bit(cb, (i + k) as nat));
                    assert(i + k < 16);
                    crate::variable::lemma_shr_bit(cb, k as u16, i as u16, (i + k) as u16);
                }
            },
            _ => {},
        }
    }
}

/// De Bruijn cache soundness for a list of trees.
pub proof fn lemma_cache_sound_list(ts: Seq<TermX>)
    ensures
        cache_of_list(ts) != crate::variable::unknown_bits() ==> forall|i: nat|
            has_free_list(ts, i) ==> crate::variable::spec_bit(cache_of_list(ts), i),
    decreases ts, 0int,
{
    if ts.len() > 0 && cache_of_list(ts) != crate::variable::unknown_bits() {
        let c0 = cache_of(ts[0]);
        let cr = cache_of_list(ts.subrange(1, ts.len() as int));
        lemma_cache_sound(ts[0]);
        lemma_cache_sound_list(ts.subrange(1, ts.len() as int));
        crate::variable::lemma_or_bit(c0, cr, 0u16);
        assert forall|i: nat| has_free_list(ts, i) implies crate::variable::spec_bit(
            cache_of_list(ts),
            i,
        ) by {
            if has_free(ts[0], i) {
                assert(crate::variable::spec_bit(c0, i));
                crate::variable::lemma_or_bit(c0, cr, i as u16);
            } else {
                assert(has_free_list(ts.subrange(1, ts.len() as int), i));
                assert(crate::variable::spec_bit(cr, i));
                crate::variable::lemma_or_bit(c0, cr, i as u16);
            }
        }
    }
}

/// De Bruijn cache soundness, as the heap guarantees it: when the cached
/// summary of a term answers that variable `i` does not occur, the term has
/// no free occurrence of variable `i`.
pub proof fn lemma_cache_answers(heap: TermHeap, t: Term, i: nat)
    requires
        heap.wf(),
        heap.has(t),
        crate::variable::spec_contains(heap@[t.id()].cache@, i) == Some(false),
    ensures
        !has_free(heap.interp(t), i),
{
    assert(node_wf(heap@, t.id()));
    lemma_cache_sound(heap.interp(t));
}

/// Element-wise interpretation is stable when the heap grows.
pub proof fn lemma_interp_each_grow(h1: TermHeap, h2: TermHeap, ts: Seq<Term>)
    requires
        h2.grown_from(h1),
        forall|k: int| 0 <= k < ts.len() ==> h1.has(#[trigger] ts[k]),
    ensures
        interp_each(h2, ts) == interp_each(h1, ts),
{
    assert forall|k: int| 0 <= k < ts.len() implies interp_at(h2@, (#[trigger] ts[k]).id())
        == interp_at(h1@, ts[k].id()) by {
    }
    assert(interp_each(h2, ts) =~= interp_each(h1, ts));
}

/// In a well-formed heap, the variant of a term's tree is the kind of its
/// node.
pub proof fn lemma_interp_variant(heap: TermHeap, t: Term)
    requires
        heap.wf(),
        heap.has(t),
    ensures
        heap.interp(t) is Application <==> heap@[t.id()].data is Application,
        heap.interp(t) is Integer <==> heap@[t.id()].data is Integer,
        heap.interp(t) is Lambda <==> heap@[t.id()].data is Lambda,
        heap.interp(t) is String <==> heap@[t.id()].data is String,
        heap.interp(t) is Symbol <==> heap@[t.id()].data is Symbol,
        heap.interp(t) is Variable <==> heap@[t.id()].data is Variable,
{
    assert(node_wf(heap@, t.id()));
}

/// The largest identity in a list of handles (zero for an empty list).
pub open spec fn max_id(ts: Seq<Term>) -> int
    decreases ts.len(),
{
    if ts.len() == 0 {
        0
    } else {
        let m = max_id(ts.drop_last());
        if ts.last().id() > m {
            ts.last().id()
        } else {
            m
        }
    }
}

/// Every element's identity is at most the maximum; handles below a bound
/// keep the maximum below that bound.
pub proof fn lemma_max_id(ts: Seq<Term>, b: int)
    requires
        0 < b,
        forall|k: int| 0 <= k < ts.len() ==> 0 <= (#[trigger] ts[k]).id() < b,
    ensures
        0 <= max_id(ts) < b,
        forall|k: int| 0 <= k < ts.len() ==> (#[trigger] ts[k]).id() <= max_id(ts),
    decreases ts.len(),
{
    if ts.len() > 0 {
        assert(forall|k: int|
            0 <= k < ts.drop_last().len() ==> ts.drop_last()[k] == (#[trigger] ts[k]));
        lemma_max_id(ts.drop_last(), b);
        assert(ts[ts.len() - 1] == ts.last());
        assert forall|k: int| 0 <= k < ts.len() implies (#[trigger] ts[k]).id() <= max_id(ts) by {
            if k < ts.len() - 1 {
                assert(ts.drop_last()[k] == ts[k]);
            }
        }
    }
}

/// `grown_from` is reflexive.
pub broadcast proof fn lemma_grown_refl(h: TermHeap)
    ensures
        #[trigger] h.grown_from(h),
{
    assert(h@.is_prefix_of(h@));
}

/// `grown_from` chains.
pub broadcast proof fn lemma_grown_trans(a: TermHeap, b: TermHeap, c: TermHeap)
    requires
        #[trigger] b.grown_from(a),
        #[trigger] c.grown_from(b),
    ensures
        c.grown_from(a),
{
    assert(a@.is_prefix_of(c@));
}

} // verus!
