//! Functions for simplifying terms.
//!
//! The simplifier is a recursion-bounded rewrite engine.  Its behaviour is
//! specified by [`spec_simplify`]: applications dispatch on the simplified
//! function through the builtin registry, symbols evaluate to their session
//! definitions, and everything else is already simple enough.  Whenever a
//! sub-simplification leaves a term unchanged, the simplifier returns the
//! original allocation rather than a rebuilt copy; the postconditions state
//! this sharing guarantee as pointer equality.  Arity mismatches on a
//! builtin and recursion-limit exhaustion are recorded in the context's
//! warnings, and the postconditions say exactly when an entry is appended.

use vstd::prelude::*;
use vstd::view::View as ViewTrait;
use crate::builtins::BuiltinId;
use crate::builtins::Builtins;
use crate::builtins::builtin_of;
use crate::builtins::builtins_wf;
use crate::constants::Constants;
use crate::constants::constants_wf;
use crate::constants::name_add;
use crate::constants::name_cos;
use crate::constants::name_derivative;
use crate::constants::name_pi;
use crate::constants::name_sin;
use crate::constants::neg_sin_lambda;
use crate::symbol::Symbol;
use crate::symbol::Symbols;
use crate::term::Term;
use crate::term::TermHeap;
use crate::term::TermX;
use crate::term::View;
use crate::term::cache_of;
use crate::term::interp_at;
use crate::term::is_symbol_at;
use crate::term::symbol_name_at;
use crate::variable::spec_contains;

verus! {

broadcast use vstd::seq::group_seq_axioms;

/// Panicked with when a host asks the simplifier to stop.
///
/// The cooperative stop flag lives outside this crate: an embedder that
/// runs the simplifier on another thread may install a flag and unwind with
/// this value.  The core itself is single-threaded and runs to completion.
pub struct StopRequested;

/// Object for emitting warnings.
///
/// The core itself records its warnings in [`Context::warnings`]; an
/// embedder that wants them elsewhere implements this trait and drains the
/// record.
pub trait Warner {

}

/// One warning the simplifier can emit.
#[derive(Clone, Copy, Debug, Eq, PartialEq, Structural)]
pub enum Warning {
    /// A builtin was applied to the wrong number of arguments.
    ArityMismatch,
    /// The recursion budget was exhausted, so a term was returned
    /// unsimplified.
    RecursionLimitReached,
}

/// Per-session state such as global definitions.
pub struct Session {
    /// Global definitions, as created with `:=`: pairs of a defined symbol
    /// and its defining term.
    pub definitions: Vec<(Symbol, Term)>,
}

impl Session {
    /// Create a session with no definitions.
    pub fn new() -> (r: Session)
        ensures
            r.definitions@.len() == 0,
    {
        Session { definitions: Vec::new() }
    }

    /// The session invariant: keys are symbol terms, no key repeats, and
    /// every defining term lives in the heap.
    pub open spec fn wf(self, heap: TermHeap) -> bool {
        &&& forall|k: int|
            0 <= k < self.definitions@.len() ==> is_symbol_at(
                heap@,
                (#[trigger] self.definitions@[k]).0.id(),
            ) && heap.has(self.definitions@[k].1)
        &&& forall|k1: int, k2: int|
            0 <= k1 < k2 < self.definitions@.len() ==> (#[trigger] self.definitions@[k1]).0.id()
                != (#[trigger] self.definitions@[k2]).0.id()
    }

    /// The definitions as a map from symbol name to defined tree.
    pub open spec fn defs_view(self, heap: TermHeap) -> Map<Seq<u8>, TermX> {
        defs_map(heap@, self.definitions@)
    }
}

/// The definition table read as a map, later entries overriding earlier
/// ones.
pub open spec fn defs_map(nodes: Seq<crate::term::Node>, entries: Seq<(Symbol, Term)>) -> Map<
    Seq<u8>,
    TermX,
>
    decreases entries.len(),
{
    if entries.len() == 0 {
        Map::empty()
    } else {
        defs_map(nodes, entries.drop_last()).insert(
            symbol_name_at(nodes, entries.last().0.id()),
            interp_at(nodes, entries.last().1.id()),
        )
    }
}

/// A name is defined exactly when some entry carries it.
pub proof fn lemma_defs_map_contains(nodes: Seq<crate::term::Node>, entries: Seq<(Symbol, Term)>, name: Seq<u8>)
    ensures
        defs_map(nodes, entries).contains_key(name) <==> exists|k: int|
            0 <= k < entries.len() && symbol_name_at(nodes, (#[trigger] entries[k]).0.id())
                == name,
    decreases entries.len(),
{
    if entries.len() > 0 {
        lemma_defs_map_contains(nodes, entries.drop_last(), name);
        if defs_map(nodes, entries).contains_key(name) {
            if symbol_name_at(nodes, entries.last().0.id()) == name {
                assert(entries[entries.len() - 1] == entries.last());
            } else {
                let k = choose|k: int|
                    0 <= k < entries.drop_last().len() && symbol_name_at(
                        nodes,
                        (#[trigger] entries.drop_last()[k]).0.id(),
                    ) == name;
                assert(entries[k] == entries.drop_last()[k]);
            }
        }
        if exists|k: int|
            0 <= k < entries.len() && symbol_name_at(nodes, (#[trigger] entries[k]).0.id())
                == name {
            let k = choose|k: int|
                0 <= k < entries.len() && symbol_name_at(nodes, (#[trigger] entries[k]).0.id())
                    == name;
            if k < entries.len() - 1 {
                assert(entries.drop_last()[k] == entries[k]);
            }
        }
    }
}

/// The entry that carries a name, if no later entry carries it too, gives
/// the name's value in the map.
pub proof fn lemma_defs_map_value(nodes: Seq<crate::term::Node>, entries: Seq<(Symbol, Term)>, k: int)
    requires
        0 <= k < entries.len(),
        forall|j: int|
            k < j < entries.len() ==> symbol_name_at(nodes, (#[trigger] entries[j]).0.id())
                != symbol_name_at(nodes, entries[k].0.id()),
    ensures
        defs_map(nodes, entries)[symbol_name_at(nodes, entries[k].0.id())] == interp_at(
            nodes,
            entries[k].1.id(),
        ),
    decreases entries.len(),
{
    if k == entries.len() - 1 {
        assert(entries[k] == entries.last());
    } else {
        assert(entries.drop_last()[k] == entries[k]);
        assert(forall|j: int|
            k < j < entries.drop_last().len() ==> entries.drop_last()[j] == (
            #[trigger] entries[j]));
        lemma_defs_map_value(nodes, entries.drop_last(), k);
        assert(entries[entries.len() - 1] == entries.last());
    }
}

/// The session keeps its meaning when the heap grows.
pub proof fn lemma_session_grow(s: Session, h1: TermHeap, h2: TermHeap)
    requires
        s.wf(h1),
        h2.grown_from(h1),
    ensures
        s.wf(h2),
        s.defs_view(h2) == s.defs_view(h1),
{
    assert forall|k: int| 0 <= k < s.definitions@.len() implies h2@[(
    #[trigger] s.definitions@[k]).0.id()] == h1@[s.definitions@[k].0.id()] by {
        assert(h1@[s.definitions@[k].0.id()] == h2@.subrange(0, h1@.len() as int)[s.definitions@[
            k
        ].0.id()]);
    }
    lemma_defs_map_grow(h1, h2, s.definitions@);
}

/// The fold is stable when the heap grows, entry by entry.
proof fn lemma_defs_map_grow(h1: TermHeap, h2: TermHeap, entries: Seq<(Symbol, Term)>)
    requires
        h2.grown_from(h1),
        forall|k: int|
            0 <= k < entries.len() ==> is_symbol_at(h1@, (#[trigger] entries[k]).0.id())
                && h1.has(entries[k].1),
    ensures
        defs_map(h2@, entries) == defs_map(h1@, entries),
    decreases entries.len(),
{
    if entries.len() > 0 {
        assert(forall|k: int|
            0 <= k < entries.drop_last().len() ==> entries.drop_last()[k] == (
            #[trigger] entries[k]));
        lemma_defs_map_grow(h1, h2, entries.drop_last());
        assert(entries[entries.len() - 1] == entries.last());
        let sid = entries.last().0.id();
        assert(h1@[sid] == h2@.subrange(0, h1@.len() as int)[sid]);
        assert(symbol_name_at(h2@, sid) == symbol_name_at(h1@, sid));
        assert(interp_at(h2@, entries.last().1.id()) == interp_at(h1@, entries.last().1.id()));
    }
}

/// Information threaded through the simplifier.
///
/// This bundles the shared state: the term heap, the interner, the builtin
/// registry, the constants table, the per-session definitions, and the
/// remaining recursion budget.  The budget is decremented for the duration
/// of each re-entrant descent ([`recurse`]) and restored on return.
pub struct Context {
    /// The heap all terms live in.
    pub heap: TermHeap,
    /// The symbol interner.
    pub symbols: Symbols,
    /// The builtin registry.
    pub builtins: Builtins,
    /// The table of shared constant terms.
    pub constants: Constants,
    /// The per-session definitions.
    pub session: Session,
    /// Remaining depth of simplifier descent.  Once zero, simplification no
    /// longer descends.
    pub recursion_limit: usize,
    /// The warnings emitted so far: one entry per arity mismatch on a
    /// builtin and per recursion-limit exhaustion.  The simplifier only
    /// appends.
    pub warnings: Vec<Warning>,
}

impl Context {
    /// The conjunction of every component's invariant.
    pub open spec fn wf(self) -> bool {
        &&& self.heap.wf()
        &&& self.symbols.wf(self.heap)
        &&& constants_wf(self.constants, self.heap)
        &&& builtins_wf(self.builtins, self.constants)
        &&& self.session.wf(self.heap)
    }

    /// The definitions the simplification consults.
    pub open spec fn defs(self) -> Map<Seq<u8>, TermX> {
        self.session.defs_view(self.heap)
    }

    /// The tree a handle denotes in this context's heap.
    pub open spec fn interp(self, t: Term) -> TermX {
        self.heap.interp(t)
    }

    /// Whether a handle lives in this context's heap.
    pub open spec fn has(self, t: Term) -> bool {
        self.heap.has(t)
    }

    /// Record a global definition, replacing any previous definition of the
    /// same symbol.
    pub fn define(&mut self, symbol: Symbol, term: Term)
        requires
            old(self).wf(),
            is_symbol_at(old(self).heap@, symbol.id()),
            old(self).heap.has(term),
        ensures
            final(self).wf(),
            final(self).heap == old(self).heap,
            final(self).symbols == old(self).symbols,
            final(self).builtins == old(self).builtins,
            final(self).constants == old(self).constants,
            final(self).recursion_limit == old(self).recursion_limit,
            final(self).warnings == old(self).warnings,
            final(self).defs() == old(self).defs().insert(
                symbol_name_at(old(self).heap@, symbol.id()),
                old(self).heap.interp(term),
            ),
    {
        let ghost name = symbol_name_at(self.heap@, symbol.id());
        let mut k: usize = 0;
        while k < self.session.definitions.len()
            invariant
                *self == *old(self),
                old(self).wf(),
                is_symbol_at(old(self).heap@, symbol.id()),
                old(self).heap.has(term),
                k <= self.session.definitions@.len(),
                forall|j: int|
                    0 <= j < k ==> (#[trigger] self.session.definitions@[j]).0.id() != symbol.id(),
            decreases self.session.definitions@.len() - k,
        {
            let entry = self.session.definitions[k];
            if entry.0.term().ptr_eq(&symbol.term()) {
                self.session.definitions.set(k, (symbol, term));
                proof {
                    crate::symbol::lemma_symbol_id_injective(
                        old(self).session.definitions@[k as int].0,
                        symbol,
                    );
                    lemma_defs_view_key(*old(self), *self, symbol, term, k as int);
                }
                return ;
            }
            k = k + 1;
        }
        self.session.definitions.push((symbol, term));
        proof {
            lemma_defs_view_key(*old(self), *self, symbol, term, self.session.definitions@.len()
                - 1);
        }
    }
}

/// What every simplification step leaves intact: the heap has only grown,
/// the warnings record has only gained entries, and every other component
/// of the context is untouched.
pub open spec fn ctx_preserved(prior: Context, now: Context) -> bool {
    &&& now.heap.grown_from(prior.heap)
    &&& now.symbols == prior.symbols
    &&& now.builtins == prior.builtins
    &&& now.constants == prior.constants
    &&& now.session == prior.session
    &&& now.recursion_limit == prior.recursion_limit
    &&& now.defs() == prior.defs()
    &&& prior.warnings@.is_prefix_of(now.warnings@)
}

/// Re-establish the context invariant after the heap grew by non-symbol
/// nodes only.
pub proof fn lemma_ctx_frame(prior: Context, now: Context)
    requires
        prior.wf(),
        now.heap.wf(),
        now.heap.grown_from(prior.heap),
        now.symbols == prior.symbols,
        now.builtins == prior.builtins,
        now.constants == prior.constants,
        now.session == prior.session,
        now.recursion_limit == prior.recursion_limit,
        now.warnings == prior.warnings,
        forall|i: int|
            prior.heap@.len() <= i < now.heap@.len() ==> !((#[trigger] now.heap@[i]).data
                is Symbol),
    ensures
        now.wf(),
        ctx_preserved(prior, now),
{
    crate::symbol::lemma_symbols_wf_grow(prior.symbols, prior.heap, now.heap);
    crate::constants::lemma_constants_wf_grow(prior.constants, prior.heap, now.heap);
    lemma_session_grow(prior.session, prior.heap, now.heap);
    assert(prior.warnings@.is_prefix_of(now.warnings@));
}

/// `ctx_preserved` chains.
pub proof fn lemma_ctx_trans(a: Context, b: Context, c: Context)
    requires
        ctx_preserved(a, b),
        ctx_preserved(b, c),
    ensures
        ctx_preserved(a, c),
{
    crate::term::lemma_grown_trans(a.heap, b.heap, c.heap);
    assert(a.warnings@.is_prefix_of(c.warnings@));
}

/// A context is preserved by doing nothing.
pub proof fn lemma_ctx_refl(a: Context)
    ensures
        ctx_preserved(a, a),
{
    crate::term::lemma_grown_refl(a.heap);
    assert(a.warnings@.is_prefix_of(a.warnings@));
}

/// Look up the session definition of a symbol, by handle identity.
fn find_definition(c: &Context, symbol: &Symbol) -> (r: Option<Term>)
    requires
        c.wf(),
        is_symbol_at(c.heap@, symbol.id()),
    ensures
        match r {
            Some(d) => c.defs().contains_key(symbol_name_at(c.heap@, symbol.id())) && c.heap.has(
                d,
            ) && c.heap.interp(d) == c.defs()[symbol_name_at(c.heap@, symbol.id())],
            None => !c.defs().contains_key(symbol_name_at(c.heap@, symbol.id())),
        },
{
    broadcast use crate::symbol::lemma_spec_term_id;

    let ghost name = symbol_name_at(c.heap@, symbol.id());
    let ghost entries = c.session.definitions@;
    let mut k: usize = 0;
    while k < c.session.definitions.len()
        invariant
            c.wf(),
            is_symbol_at(c.heap@, symbol.id()),
            name == symbol_name_at(c.heap@, symbol.id()),
            entries == c.session.definitions@,
            k <= entries.len(),
            forall|j: int| 0 <= j < k ==> (#[trigger] entries[j]).0.id() != symbol.id(),
        decreases entries.len() - k,
    {
        let entry = c.session.definitions[k];
        if entry.0.term().ptr_eq(&symbol.term()) {
            proof {
                assert(symbol_name_at(c.heap@, entries[k as int].0.id()) == name);
                assert forall|j: int| k < j < entries.len() implies symbol_name_at(
                    c.heap@,
                    (#[trigger] entries[j]).0.id(),
                ) != name by {
                    if symbol_name_at(c.heap@, entries[j].0.id()) == name {
                        crate::symbol::lemma_symbol_unique(
                            c.heap,
                            c.symbols,
                            entries[j].0.spec_term(),
                            symbol.spec_term(),
                        );
                    }
                }
                lemma_defs_map_value(c.heap@, entries, k as int);
                lemma_defs_map_contains(c.heap@, entries, name);
            }
            return Some(entry.1);
        }
        k = k + 1;
    }
    proof {
        lemma_defs_map_contains(c.heap@, entries, name);
        if c.defs().contains_key(name) {
            let j = choose|j: int|
                0 <= j < entries.len() && symbol_name_at(c.heap@, (#[trigger] entries[j]).0.id())
                    == name;
            crate::symbol::lemma_symbol_unique(
                c.heap,
                c.symbols,
                entries[j].0.spec_term(),
                symbol.spec_term(),
            );
        }
    }
    None
}

/// What simplification computes, on trees.
///
/// With an exhausted budget the input is returned unchanged.  Applications
/// first simplify their function under a decremented budget, then dispatch
/// to a builtin handler; symbols evaluate to their session definitions,
/// except reserved symbols (defined as themselves); every other kind is
/// already simple enough.
pub open spec fn spec_simplify(defs: Map<Seq<u8>, TermX>, t: TermX, budget: nat) -> TermX
    decreases budget, 1int, t, 4int,
{
    if budget == 0 {
        t
    } else {
        match t {
            TermX::Application { .. } => spec_simplify_application(defs, t, budget),
            TermX::Symbol { .. } => spec_simplify_symbol(defs, t, budget),
            _ => t,
        }
    }
}

/// Application step: simplify the function, try a builtin rewrite, and
/// otherwise rebuild with the new function — or return the input itself
/// when the function did not change.
pub open spec fn spec_simplify_application(defs: Map<Seq<u8>, TermX>, t: TermX, budget: nat) -> TermX
    decreases budget, 1int, t, 3int,
{
    if budget == 0 {
        t
    } else {
        match t {
        TermX::Application { function, arguments } => {
            let f2 = spec_simplify(defs, *function, (budget - 1) as nat);
            match spec_apply_builtin(defs, f2, arguments, budget) {
                Some(r) => r,
                None => if f2 == *function {
                    t
                } else {
                    TermX::Application { function: Box::new(f2), arguments }
                },
            }
        },
        _ => t,
    }
    }
}

/// Dispatch on the simplified function: a rewrite happens only when it is
/// a builtin symbol whose handler finds one.
pub open spec fn spec_apply_builtin(
    defs: Map<Seq<u8>, TermX>,
    f2: TermX,
    args: Seq<TermX>,
    budget: nat,
) -> Option<TermX>
    decreases budget, 1int, args, 2int,
{
    match f2 {
        TermX::Symbol { name } => {
            match builtin_of(name) {
                Some(BuiltinId::Cosine) => spec_cos(defs, args, budget),
                Some(BuiltinId::Sine) => spec_sin(defs, args, budget),
                Some(BuiltinId::Derivative) => spec_derivative(defs, args, budget),
                None => None,
            }
        },
        _ => None,
    }
}

/// The `Cos` identities: `Cos(0)` is `1` and `Cos(Pi)` is `-1`.
pub open spec fn spec_cos(defs: Map<Seq<u8>, TermX>, args: Seq<TermX>, budget: nat) -> Option<
    TermX,
>
    decreases budget, 1int, args, 1int,
{
    if budget == 0 || args.len() != 1 {
        None
    } else {
        let op2 = spec_simplify(defs, args[0], (budget - 1) as nat);
        if op2 == (TermX::Integer { value: 0 }) {
            Some(TermX::Integer { value: 1 })
        } else if op2 == (TermX::Symbol { name: name_pi() }) {
            Some(TermX::Integer { value: -1 })
        } else if op2 == args[0] {
            None
        } else {
            Some(
                TermX::Application {
                    function: Box::new(TermX::Symbol { name: name_cos() }),
                    arguments: seq![op2],
                },
            )
        }
    }
}

/// The `Sin` identities: `Sin(0)` and `Sin(Pi)` are `0`.
pub open spec fn spec_sin(defs: Map<Seq<u8>, TermX>, args: Seq<TermX>, budget: nat) -> Option<
    TermX,
>
    decreases budget, 1int, args, 1int,
{
    if budget == 0 || args.len() != 1 {
        None
    } else {
        let op2 = spec_simplify(defs, args[0], (budget - 1) as nat);
        if op2 == (TermX::Integer { value: 0 }) {
            Some(TermX::Integer { value: 0 })
        } else if op2 == (TermX::Symbol { name: name_pi() }) {
            Some(TermX::Integer { value: 0 })
        } else if op2 == args[0] {
            None
        } else {
            Some(
                TermX::Application {
                    function: Box::new(TermX::Symbol { name: name_sin() }),
                    arguments: seq![op2],
                },
            )
        }
    }
}

/// The `Derivative` rewrite: simplify the operand, differentiate it as a
/// function, and otherwise rebuild.
pub open spec fn spec_derivative(defs: Map<Seq<u8>, TermX>, args: Seq<TermX>, budget: nat) -> Option<
    TermX,
>
    decreases budget, 1int, args, 1int,
{
    if budget == 0 || args.len() != 1 {
        None
    } else {
        let f2 = spec_simplify(defs, args[0], (budget - 1) as nat);
        match spec_derivative_of_function(defs, f2, budget) {
            Some(d) => Some(d),
            None => if f2 == args[0] {
                None
            } else {
                Some(
                    TermX::Application {
                        function: Box::new(TermX::Symbol { name: name_derivative() }),
                        arguments: seq![f2],
                    },
                )
            },
        }
    }
}

/// The derivative of a unary function: `Sin` gives `Cos`, `Cos` gives the
/// canonical `|x| Multiply(-1, Sin(x))`, and a one-parameter lambda gives a
/// lambda whose body is the derivative of the body.
pub open spec fn spec_derivative_of_function(defs: Map<Seq<u8>, TermX>, f: TermX, budget: nat) -> Option<
    TermX,
>
    decreases budget, 0int, f, 3int,
{
    if f == (TermX::Symbol { name: name_sin() }) {
        Some(TermX::Symbol { name: name_cos() })
    } else if f == (TermX::Symbol { name: name_cos() }) {
        Some(neg_sin_lambda())
    } else {
        match f {
            TermX::Lambda { parameters, body } => {
                if parameters.len() == 1 {
                    match spec_derivative_of_term(defs, 0, *body, budget) {
                        Some(d) => Some(TermX::Lambda { parameters, body: Box::new(d) }),
                        None => None,
                    }
                } else {
                    None
                }
            },
            _ => None,
        }
    }
}

/// The cache's answer to "is `t` constant in variable `p`?".
pub open spec fn spec_is_constant(p: nat, t: TermX) -> Option<bool> {
    match spec_contains(cache_of(t), p) {
        Some(b) => Some(!b),
        None => None,
    }
}

/// The derivative of a term with respect to De Bruijn index `p`: terms the
/// cache knows to be constant give zero, the variable itself gives one, and
/// a sum obeys the sum rule.
pub open spec fn spec_derivative_of_term(
    defs: Map<Seq<u8>, TermX>,
    p: nat,
    t: TermX,
    budget: nat,
) -> Option<TermX>
    decreases budget, 0int, t, 2int,
{
    if spec_is_constant(p, t) == Some(true) {
        Some(TermX::Integer { value: 0 })
    } else if t == (TermX::Variable { index: p }) {
        Some(TermX::Integer { value: 1 })
    } else {
        match t {
            TermX::Application { function, arguments } => {
                if *function == (TermX::Symbol { name: name_add() }) {
                    spec_derivative_of_add(defs, p, arguments, budget)
                } else {
                    None
                }
            },
            _ => None,
        }
    }
}

/// The sum rule: drop summands known constant, differentiate the rest, and
/// simplify the rebuilt sum.
pub open spec fn spec_derivative_of_add(
    defs: Map<Seq<u8>, TermX>,
    p: nat,
    ts: Seq<TermX>,
    budget: nat,
) -> Option<TermX>
    decreases budget, 0int, ts, 1int,
{
    if budget == 0 {
        None
    } else {
    match spec_derive_each(defs, p, ts, budget) {
        Some(ds) => Some(spec_simplify(defs, spec_make_add(ds), (budget - 1) as nat)),
        None => None,
    }
    }
}

/// Differentiate each summand that the cache does not prove constant; fail
/// if any of them fails.
pub open spec fn spec_derive_each(
    defs: Map<Seq<u8>, TermX>,
    p: nat,
    ts: Seq<TermX>,
    budget: nat,
) -> Option<Seq<TermX>>
    decreases budget, 0int, ts, 0int,
{
    if ts.len() == 0 {
        Some(Seq::empty())
    } else {
        let rest = spec_derive_each(defs, p, ts.subrange(1, ts.len() as int), budget);
        if spec_is_constant(p, ts[0]) == Some(true) {
            rest
        } else {
            match (spec_derivative_of_term(defs, p, ts[0], budget), rest) {
                (Some(d), Some(r)) => Some(Seq::empty().push(d) + r),
                _ => None,
            }
        }
    }
}

/// A sum of zero terms is zero, of one term that term, of more an `Add`
/// application.
pub open spec fn spec_make_add(ds: Seq<TermX>) -> TermX {
    if ds.len() == 0 {
        TermX::Integer { value: 0 }
    } else if ds.len() == 1 {
        ds[0]
    } else {
        TermX::Application { function: Box::new(TermX::Symbol { name: name_add() }), arguments: ds }
    }
}

/// Symbol step: undefined and reserved symbols stay; any other definition
/// is simplified under a decremented budget.
pub open spec fn spec_simplify_symbol(defs: Map<Seq<u8>, TermX>, t: TermX, budget: nat) -> TermX
    decreases budget, 1int, t, 3int,
{
    if budget == 0 {
        t
    } else {
    match t {
        TermX::Symbol { name } => {
            if !defs.contains_key(name) {
                t
            } else if defs[name] == t {
                t
            } else {
                spec_simplify(defs, defs[name], (budget - 1) as nat)
            }
        },
        _ => t,
    }
    }
}

/// Whether every definition of the session is reserved: each defined
/// symbol is defined as itself.
pub open spec fn reserved_only(defs: Map<Seq<u8>, TermX>) -> bool {
    forall|n: Seq<u8>| #[trigger] defs.contains_key(n) ==> defs[n] == (TermX::Symbol { name: n })
}

/// A symbol simplifies to itself when every definition is reserved.
pub proof fn lemma_symbol_fixed(defs: Map<Seq<u8>, TermX>, name: Seq<u8>, budget: nat)
    requires
        reserved_only(defs),
    ensures
        spec_simplify(defs, TermX::Symbol { name }, budget) == (TermX::Symbol { name }),
{
}

/// Round-trip: simplifying a second time changes nothing, for a session
/// whose definitions are all reserved.
///
/// The restriction is necessary, not a convenience.  With non-reserved
/// definitions the claim fails at small budgets — with `A` defined as `B`
/// and `B` defined as the integer one, a budget of two takes `A` only as
/// far as `B`, and a second pass moves on to the integer — and it fails at
/// *every* budget once a definition captures a symbol a handler emits:
/// with `Cos` defined as an integer, `Derivative(Sin)` simplifies to the
/// `Cos` symbol, which a second pass evaluates to that integer.
pub proof fn lemma_simplify_idempotent(defs: Map<Seq<u8>, TermX>, t: TermX, budget: nat)
    requires
        reserved_only(defs),
    ensures
        spec_simplify(defs, spec_simplify(defs, t, budget), budget) == spec_simplify(
            defs,
            t,
            budget,
        ),
    decreases budget,
{
    if budget == 0 {
    } else {
        match t {
            TermX::Application { function, arguments } => {
                let f2 = spec_simplify(defs, *function, (budget - 1) as nat);
                lemma_simplify_idempotent(defs, *function, (budget - 1) as nat);
                assert forall|k: int| 0 <= k < arguments.len() implies spec_simplify(
                    defs,
                    #[trigger] spec_simplify(defs, arguments[k], (budget - 1) as nat),
                    (budget - 1) as nat,
                ) == spec_simplify(defs, arguments[k], (budget - 1) as nat) by {
                    lemma_simplify_idempotent(defs, arguments[k], (budget - 1) as nat);
                }
                match spec_apply_builtin(defs, f2, arguments, budget) {
                    Some(r) => {
                        lemma_builtin_result_fixed(defs, f2, arguments, budget);
                    },
                    None => {
                        if f2 == *function {
                        } else {
                            let r = TermX::Application { function: Box::new(f2), arguments };
                            assert(spec_simplify(defs, r, budget) == r) by {
                                assert(spec_simplify(defs, f2, (budget - 1) as nat) == f2);
                            }
                        }
                    },
                }
            },
            TermX::Symbol { name } => {
                lemma_symbol_fixed(defs, name, budget);
            },
            _ => {},
        }
    }
}

/// An application of a builtin symbol on which its handler finds no
/// rewrite simplifies to itself.
proof fn lemma_unary_app_fixed(defs: Map<Seq<u8>, TermX>, fname: Seq<u8>, op: TermX, budget: nat)
    requires
        reserved_only(defs),
        budget >= 1,
        spec_simplify(defs, op, (budget - 1) as nat) == op,
        spec_apply_builtin(defs, TermX::Symbol { name: fname }, seq![op], budget) is None,
    ensures
        ({
            let r = TermX::Application {
                function: Box::new(TermX::Symbol { name: fname }),
                arguments: seq![op],
            };
            spec_simplify(defs, r, budget) == r
        }),
{
    let r = TermX::Application {
        function: Box::new(TermX::Symbol { name: fname }),
        arguments: seq![op],
    };
    lemma_symbol_fixed(defs, fname, (budget - 1) as nat);
    assert(spec_simplify_application(defs, r, budget) == r);
}

/// A rewrite a builtin hands back is already fully simplified.
proof fn lemma_builtin_result_fixed(
    defs: Map<Seq<u8>, TermX>,
    f2: TermX,
    args: Seq<TermX>,
    budget: nat,
)
    requires
        reserved_only(defs),
        budget >= 1,
        spec_apply_builtin(defs, f2, args, budget) is Some,
        forall|k: int|
            0 <= k < args.len() ==> spec_simplify(
                defs,
                #[trigger] spec_simplify(defs, args[k], (budget - 1) as nat),
                (budget - 1) as nat,
            ) == spec_simplify(defs, args[k], (budget - 1) as nat),
    ensures
        ({
            let r = spec_apply_builtin(defs, f2, args, budget)->Some_0;
            spec_simplify(defs, r, budget) == r
        }),
{
    let r = spec_apply_builtin(defs, f2, args, budget)->Some_0;
    match f2 {
        TermX::Symbol { name } => {
            match builtin_of(name) {
                Some(BuiltinId::Cosine) => {
                    let op2 = spec_simplify(defs, args[0], (budget - 1) as nat);
                    if op2 == (TermX::Integer { value: 0 }) {
                    } else if op2 == (TermX::Symbol { name: name_pi() }) {
                    } else {
                        assert(r == (TermX::Application {
                            function: Box::new(TermX::Symbol { name: name_cos() }),
                            arguments: seq![op2],
                        }));
                        assert(spec_simplify(defs, op2, (budget - 1) as nat) == op2) by {
                            assert(seq![op2][0] == op2);
                        }
                        crate::builtins::lemma_builtin_names_distinct();
                        assert(spec_cos(defs, seq![op2], budget) is None) by {
                            assert(seq![op2][0] == op2);
                        }
                        lemma_unary_app_fixed(defs, name_cos(), op2, budget);
                    }
                },
                Some(BuiltinId::Sine) => {
                    let op2 = spec_simplify(defs, args[0], (budget - 1) as nat);
                    if op2 == (TermX::Integer { value: 0 }) {
                    } else if op2 == (TermX::Symbol { name: name_pi() }) {
                    } else {
                        assert(r == (TermX::Application {
                            function: Box::new(TermX::Symbol { name: name_sin() }),
                            arguments: seq![op2],
                        }));
                        assert(spec_simplify(defs, op2, (budget - 1) as nat) == op2) by {
                            assert(seq![op2][0] == op2);
                        }
                        crate::builtins::lemma_builtin_names_distinct();
                        assert(spec_sin(defs, seq![op2], budget) is None) by {
                            assert(seq![op2][0] == op2);
                        }
                        lemma_unary_app_fixed(defs, name_sin(), op2, budget);
                    }
                },
                Some(BuiltinId::Derivative) => {
                    let fd = spec_simplify(defs, args[0], (budget - 1) as nat);
                    match spec_derivative_of_function(defs, fd, budget) {
                        Some(d) => {
                            assert(r == d);
                            if d == (TermX::Symbol { name: name_cos() }) {
                                lemma_symbol_fixed(defs, name_cos(), budget);
                            } else {
                                assert(d is Lambda);
                            }
                        },
                        None => {
                            assert(r == (TermX::Application {
                                function: Box::new(TermX::Symbol { name: name_derivative() }),
                                arguments: seq![fd],
                            }));
                            assert(spec_simplify(defs, fd, (budget - 1) as nat) == fd) by {
                                assert(seq![fd][0] == fd);
                            }
                            crate::builtins::lemma_builtin_names_distinct();
                            assert(spec_derivative(defs, seq![fd], budget) is None) by {
                                assert(seq![fd][0] == fd);
                            }
                            lemma_unary_app_fixed(defs, name_derivative(), fd, budget);
                        },
                    }
                },
                None => {
                    assert(false);
                },
            }
        },
        _ => {
            assert(false);
        },
    }
}

/// Simplification leaves variables, integers, lambdas and strings alone.
pub proof fn lemma_simplify_fixed_on_atoms(defs: Map<Seq<u8>, TermX>, t: TermX, budget: nat)
    requires
        !(t is Application),
        !(t is Symbol),
    ensures
        spec_simplify(defs, t, budget) == t,
{
}

/// Replacing the one entry that carries a symbol updates its binding.
proof fn lemma_defs_map_set(
    nodes: Seq<crate::term::Node>,
    olds: Seq<(Symbol, Term)>,
    news: Seq<(Symbol, Term)>,
    k: int,
    symbol: Symbol,
    term: Term,
)
    requires
        0 <= k < olds.len(),
        news.len() == olds.len(),
        news[k] == (symbol, term),
        olds[k].0 == symbol,
        forall|j: int| 0 <= j < olds.len() && j != k ==> news[j] == (#[trigger] olds[j]),
        forall|j: int|
            0 <= j < olds.len() && j != k ==> symbol_name_at(nodes, (#[trigger] olds[j]).0.id())
                != symbol_name_at(nodes, symbol.id()),
    ensures
        defs_map(nodes, news) == defs_map(nodes, olds).insert(
            symbol_name_at(nodes, symbol.id()),
            interp_at(nodes, term.id()),
        ),
    decreases olds.len(),
{
    let name = symbol_name_at(nodes, symbol.id());
    let v = interp_at(nodes, term.id());
    assert(olds[olds.len() - 1] == olds.last());
    assert(news[news.len() - 1] == news.last());
    if k == olds.len() - 1 {
        assert(news.drop_last() =~= olds.drop_last());
        assert(defs_map(nodes, olds).insert(name, v) =~= defs_map(nodes, olds.drop_last()).insert(
            name,
            v,
        ));
    } else {
        assert(forall|j: int|
            0 <= j < olds.drop_last().len() && j != k ==> news.drop_last()[j] == (
            #[trigger] olds.drop_last()[j]));
        assert(news.drop_last()[k] == (symbol, term));
        assert(olds.drop_last()[k] == olds[k]);
        assert(forall|j: int|
            0 <= j < olds.drop_last().len() && j != k ==> symbol_name_at(
                nodes,
                (#[trigger] olds.drop_last()[j]).0.id(),
            ) != name);
        lemma_defs_map_set(nodes, olds.drop_last(), news.drop_last(), k, symbol, term);
        let lname = symbol_name_at(nodes, olds.last().0.id());
        assert(lname != name);
        assert(news.last() == olds.last());
        assert(defs_map(nodes, olds.drop_last()).insert(name, v).insert(
            lname,
            interp_at(nodes, olds.last().1.id()),
        ) =~= defs_map(nodes, olds.drop_last()).insert(
            lname,
            interp_at(nodes, olds.last().1.id()),
        ).insert(name, v));
    }
}

/// After writing `(symbol, term)` at position `k` of the definition table
/// (all other entries unchanged, no other entry sharing the symbol), the
/// definitions map gains exactly that binding.
proof fn lemma_defs_view_key(prior: Context, now: Context, symbol: Symbol, term: Term, k: int)
    requires
        prior.wf(),
        is_symbol_at(prior.heap@, symbol.id()),
        prior.heap.has(term),
        now.heap == prior.heap,
        now.symbols == prior.symbols,
        now.constants == prior.constants,
        now.builtins == prior.builtins,
        0 <= k < now.session.definitions@.len(),
        now.session.definitions@[k] == (symbol, term),
        now.session.definitions@.len() == prior.session.definitions@.len() && (
        prior.session.definitions@[k]).0 == symbol || (now.session.definitions@.len()
            == prior.session.definitions@.len() + 1 && k == prior.session.definitions@.len()),
        forall|j: int|
            0 <= j < prior.session.definitions@.len() && j != k
                ==> now.session.definitions@[j] == (#[trigger] prior.session.definitions@[j]),
        forall|j: int|
            0 <= j < prior.session.definitions@.len() && j != k ==> (
            #[trigger] prior.session.definitions@[j]).0.id() != symbol.id(),
    ensures
        now.wf(),
        now.defs() == prior.defs().insert(
            symbol_name_at(prior.heap@, symbol.id()),
            prior.heap.interp(term),
        ),
{
    broadcast use crate::symbol::lemma_spec_term_id;

    let heap = prior.heap;
    let name = symbol_name_at(heap@, symbol.id());
    let olds = prior.session.definitions@;
    let news = now.session.definitions@;
    assert forall|j: int| 0 <= j < olds.len() && j != k implies symbol_name_at(
        heap@,
        (#[trigger] olds[j]).0.id(),
    ) != name by {
        if symbol_name_at(heap@, olds[j].0.id()) == name {
            crate::symbol::lemma_symbol_unique(
                heap,
                prior.symbols,
                olds[j].0.spec_term(),
                symbol.spec_term(),
            );
        }
    }
    assert(news[k].0 == symbol);
    assert forall|k1: int, k2: int| 0 <= k1 < k2 < news.len() implies (#[trigger] news[k1]).0.id()
        != (#[trigger] news[k2]).0.id() by {
        if k1 != k && k2 != k {
            assert(news[k1] == olds[k1]);
            assert(news[k2] == olds[k2]);
        } else if k1 == k {
            assert(news[k2] == olds[k2]);
            assert(olds[k2].0.id() != symbol.id());
        } else {
            assert(news[k1] == olds[k1]);
            assert(olds[k1].0.id() != symbol.id());
        }
    }
    assert forall|j: int| 0 <= j < news.len() implies is_symbol_at(
        heap@,
        (#[trigger] news[j]).0.id(),
    ) && heap.has(news[j].1) by {
        if j != k {
            assert(news[j] == olds[j]);
        }
    }
    assert(now.session.wf(heap));
    if news.len() == olds.len() {
        lemma_defs_map_set(heap@, olds, news, k, symbol, term);
    } else {
        assert(news.drop_last() =~= olds);
        assert(news[news.len() - 1] == news.last());
    }
}

/// Call [`simplify`] with a decremented recursion budget, restoring the
/// budget when the inner call returns.
pub fn recurse(c: &mut Context, term: Term) -> (r: Term)
    requires
        old(c).wf(),
        old(c).has(term),
        old(c).recursion_limit >= 1,
    ensures
        final(c).wf(),
        ctx_preserved(*old(c), *final(c)),
        final(c).has(r),
        final(c).interp(r) == spec_simplify(
            old(c).defs(),
            old(c).interp(term),
            (old(c).recursion_limit - 1) as nat,
        ),
        final(c).interp(r) == old(c).interp(term) ==> r == term,
    decreases c.recursion_limit, 0int, 0int, 0int,
{
    let limit = c.recursion_limit;
    c.recursion_limit = limit - 1;
    let r = simplify(c, term);
    c.recursion_limit = limit;
    r
}

/// Apply simplification rules to a term.
///
/// This does not necessarily reduce the term to a "most simple" form; the
/// exact semantics is [`spec_simplify`].  When nothing changes, the result
/// is the input allocation itself, never a structurally equal copy — in
/// particular a variable, an integer, a lambda or a string comes back
/// pointer-equal to the input.
pub fn simplify(c: &mut Context, term: Term) -> (r: Term)
    requires
        old(c).wf(),
        old(c).has(term),
    ensures
        final(c).wf(),
        ctx_preserved(*old(c), *final(c)),
        final(c).has(r),
        final(c).interp(r) == spec_simplify(
            old(c).defs(),
            old(c).interp(term),
            old(c).recursion_limit as nat,
        ),
        final(c).interp(r) == old(c).interp(term) ==> r == term,
        old(c).recursion_limit == 0 ==> r == term && final(c).heap == old(c).heap
            && final(c).warnings@ == old(c).warnings@.push(Warning::RecursionLimitReached),
    decreases c.recursion_limit, 2int, term.id(), 1int,
{
    if c.recursion_limit == 0 {
        c.warnings.push(Warning::RecursionLimitReached);
        proof {
            crate::term::lemma_grown_refl(c.heap);
            assert(old(c).warnings@.is_prefix_of(c.warnings@));
        }
        return term;
    }
    let v = term.view(&c.heap);
    match v {
        View::Application(..) => {
            match simplify_application(c, term) {
                Some(t2) => t2,
                None => term,
            }
        },
        View::Symbol(symbol) => simplify_symbol(c, &symbol),
        _ => {
            proof {
                lemma_ctx_refl(*c);
            }
            term
        },
    }
}

/// Simplify an application term.
///
/// Returns `None` when the application simplifies to itself: the function
/// is unchanged and no builtin rewrote it.
pub fn simplify_application(c: &mut Context, term: Term) -> (r: Option<Term>)
    requires
        old(c).wf(),
        old(c).has(term),
        old(c).interp(term) is Application,
        old(c).recursion_limit >= 1,
    ensures
        final(c).wf(),
        ctx_preserved(*old(c), *final(c)),
        ({
            let spec_out = spec_simplify_application(
                old(c).defs(),
                old(c).interp(term),
                old(c).recursion_limit as nat,
            );
            match r {
                Some(t2) => final(c).has(t2) && final(c).interp(t2) == spec_out && spec_out
                    != old(c).interp(term),
                None => spec_out == old(c).interp(term),
            }
        }),
    decreases c.recursion_limit, 2int, term.id(), 0int,
{
    let ghost c0 = *c;
    let ghost tx = c0.interp(term);
    let ghost budget = c0.recursion_limit as nat;
    let v = term.view(&c.heap);
    match v {
        View::Application(function, arguments) => {
            let ghost fx = c0.interp(function);
            let ghost argsx = crate::term::interp_each(c0.heap, arguments@);
            proof {
                crate::term::lemma_interp_each(c0.heap, arguments@, term.id());
                assert(tx == (TermX::Application { function: Box::new(fx), arguments: argsx }));
            }
            let function2 = recurse(c, function);
            let ghost c1 = *c;
            let ghost f2x = c1.interp(function2);
            proof {
                assert(f2x == spec_simplify(c0.defs(), fx, (budget - 1) as nat));
                assert forall|k: int| 0 <= k < arguments@.len() implies c1.has(
                    #[trigger] arguments@[k],
                ) by {}
                crate::term::lemma_interp_each_grow(c0.heap, c1.heap, arguments@);
            }
            let b: Option<BuiltinId> = match function2.as_symbol(&c.heap) {
                Some(bsym) => {
                    proof {
                        crate::builtins::lemma_builtins_get(
                            c.builtins,
                            c.constants,
                            c.heap,
                            c.symbols,
                            bsym,
                        );
                        assert(c.interp(function2) == (TermX::Symbol {
                            name: symbol_name_at(c.heap@, function2.id()),
                        }));
                    }
                    c.builtins.get(&bsym)
                },
                None => {
                    proof {
                        crate::term::lemma_interp_variant(c.heap, function2);
                    }
                    None
                },
            };
            proof {
                match b {
                    Some(id) => {
                        assert(f2x matches TermX::Symbol { name } && builtin_of(name) == Some(
                            id,
                        ));
                    },
                    None => {
                        assert(spec_apply_builtin(c0.defs(), f2x, argsx, budget) is None);
                    },
                }
            }
            let res: Option<Term> = match b {
                Some(BuiltinId::Cosine) => crate::builtins::Cos::simplify(c, &arguments),
                Some(BuiltinId::Sine) => crate::builtins::Sin::simplify(c, &arguments),
                Some(BuiltinId::Derivative) => crate::builtins::Derivative::simplify(
                    c,
                    &arguments,
                ),
                None => None,
            };
            proof {
                if b is Some {
                    lemma_ctx_trans(c0, c1, *c);
                } else {
                    assert(*c == c1);
                }
                match res {
                    Some(t2) => {
                        assert(spec_apply_builtin(c0.defs(), f2x, argsx, budget) == Some(
                            c.interp(t2),
                        ));
                    },
                    None => {
                        assert(spec_apply_builtin(c0.defs(), f2x, argsx, budget) is None);
                    },
                }
            }
            match res {
                Some(t2) => {
                    proof {
                        let x = c.interp(t2);
                        assert(x != tx) by {
                            lemma_rewrite_differs(c0.defs(), f2x, argsx, budget, fx);
                        }
                    }
                    Some(t2)
                },
                None => {
                    let ghost c2 = *c;
                    let r2 = rebuild_application(c, function, function2, &arguments);
                    proof {
                        lemma_ctx_trans(c0, c2, *c);
                        match r2 {
                            Some(t2) => {
                                assert(f2x != fx) by {
                                    if f2x == fx {
                                        assert(function2 == function);
                                    }
                                }
                                assert(c2.interp(function2) == f2x);
                                crate::term::lemma_interp_each_grow(c0.heap, c2.heap, arguments@);
                            },
                            None => {
                                assert(function2 == function);
                                assert(f2x == fx);
                            },
                        }
                    }
                    r2
                },
            }
        },
        _ => {
            proof {
                assert(false);
            }
            None
        },
    }
}

/// A rewrite a builtin returns is never the application it rewrote.
proof fn lemma_rewrite_differs(
    defs: Map<Seq<u8>, TermX>,
    f2: TermX,
    args: Seq<TermX>,
    budget: nat,
    fx: TermX,
)
    requires
        spec_apply_builtin(defs, f2, args, budget) is Some,
    ensures
        spec_apply_builtin(defs, f2, args, budget) != Some(
            TermX::Application { function: Box::new(fx), arguments: args },
        ),
{
    let sab = spec_apply_builtin(defs, f2, args, budget);
    let t_app = TermX::Application { function: Box::new(fx), arguments: args };
    if sab == Some(t_app) {
        match f2 {
            TermX::Symbol { name } => {
                if builtin_of(name) == Some(BuiltinId::Cosine) {
                    assert(args.len() == 1);
                    let op2 = spec_simplify(defs, args[0], (budget - 1) as nat);
                    assert(t_app == (TermX::Application {
                        function: Box::new(TermX::Symbol { name: name_cos() }),
                        arguments: seq![op2],
                    }));
                    assert(args == seq![op2]);
                    assert(args[0] == op2);
                } else if builtin_of(name) == Some(BuiltinId::Sine) {
                    assert(args.len() == 1);
                    let op2 = spec_simplify(defs, args[0], (budget - 1) as nat);
                    assert(t_app == (TermX::Application {
                        function: Box::new(TermX::Symbol { name: name_sin() }),
                        arguments: seq![op2],
                    }));
                    assert(args == seq![op2]);
                    assert(args[0] == op2);
                } else if builtin_of(name) == Some(BuiltinId::Derivative) {
                    assert(args.len() == 1);
                    let fd = spec_simplify(defs, args[0], (budget - 1) as nat);
                    match spec_derivative_of_function(defs, fd, budget) {
                        Some(d) => {
                            assert(!(d is Application));
                        },
                        None => {
                            assert(t_app == (TermX::Application {
                                function: Box::new(TermX::Symbol { name: name_derivative() }),
                                arguments: seq![fd],
                            }));
                            assert(args == seq![fd]);
                            assert(args[0] == fd);
                        },
                    }
                }
            },
            _ => {},
        }
    }
}

/// Rebuild an application around a simplified function, or hand back
/// nothing when the function kept its identity.
fn rebuild_application(
    c: &mut Context,
    function: Term,
    function2: Term,
    arguments: &Vec<Term>,
) -> (r: Option<Term>)
    requires
        old(c).wf(),
        old(c).has(function),
        old(c).has(function2),
        forall|k: int| 0 <= k < arguments@.len() ==> old(c).has(#[trigger] arguments@[k]),
    ensures
        final(c).wf(),
        ctx_preserved(*old(c), *final(c)),
        r is None <==> function2 == function,
        r matches Some(t2) ==> final(c).has(t2) && final(c).interp(t2) == (TermX::Application {
            function: Box::new(old(c).interp(function2)),
            arguments: crate::term::interp_each(old(c).heap, arguments@),
        }),
{
    if function2.ptr_eq(&function) {
        proof {
            crate::term::lemma_term_id_injective(function2, function);
            lemma_ctx_refl(*c);
        }
        None
    } else {
        let args2 = crate::term::copy_vec(arguments);
        let ghost cb = *c;
        let t2 = Term::application(&mut c.heap, function2, args2);
        proof {
            assert(!(c.heap@[t2.id()].data is Symbol)) by {
                assert(crate::term::kind_of(c.heap@[t2.id()].data) == crate::term::Kind::Application);
            }
            lemma_ctx_frame(cb, *c);
        }
        Some(t2)
    }
}

/// Simplify a symbol term.
///
/// An undefined symbol, or a reserved one (defined as itself), is returned
/// unchanged; any other definition is simplified under a decremented
/// budget.
pub fn simplify_symbol(c: &mut Context, symbol: &Symbol) -> (r: Term)
    requires
        old(c).wf(),
        is_symbol_at(old(c).heap@, symbol.id()),
        old(c).recursion_limit >= 1,
    ensures
        final(c).wf(),
        ctx_preserved(*old(c), *final(c)),
        final(c).has(r),
        final(c).interp(r) == spec_simplify_symbol(
            old(c).defs(),
            old(c).interp(symbol.spec_term()),
            old(c).recursion_limit as nat,
        ),
        final(c).interp(r) == old(c).interp(symbol.spec_term()) ==> r == symbol.spec_term(),
    decreases c.recursion_limit, 2int, symbol.id(), 0int,
{
    broadcast use crate::symbol::lemma_spec_term_id;

    let ghost c0 = *c;
    let ghost name = symbol_name_at(c0.heap@, symbol.id());
    proof {
        assert(c0.interp(symbol.spec_term()) == (TermX::Symbol { name }));
    }
    let definition = find_definition(c, symbol);
    match definition {
        None => {
            proof {
                lemma_ctx_refl(*c);
            }
            symbol.term()
        },
        Some(definition) => {
            proof {
                crate::term::lemma_interp_variant(c.heap, definition);
                if c.interp(definition) == (TermX::Symbol { name }) {
                    crate::symbol::lemma_symbol_unique(
                        c.heap,
                        c.symbols,
                        definition,
                        symbol.spec_term(),
                    );
                }
            }
            if definition.eq_symbol(symbol) {
                proof {
                    lemma_ctx_refl(*c);
                }
                symbol.term()
            } else {
                let r = recurse(c, definition);
                proof {
                    if c.interp(r) == (TermX::Symbol { name }) {
                        crate::term::lemma_interp_variant(c.heap, r);
                        assert(is_symbol_at(c.heap@, symbol.id())) by {
                            assert(c0.heap@[symbol.id()] == c.heap@.subrange(
                                0,
                                c0.heap@.len() as int,
                            )[symbol.id()]);
                        }
                        crate::symbol::lemma_symbol_unique(c.heap, c.symbols, r, symbol.spec_term());
                        crate::term::lemma_term_id_injective(r, symbol.spec_term());
                    }
                }
                r
            }
        },
    }
}

} // verus!
