//! Mapping from identifiers to De Bruijn indices.
//!
//! When the parser encounters an identifier it must decide whether it is a
//! bound variable or a free symbol.  A scope records the variables that are
//! in scope, ordered by De Bruijn index: entry 0 is the innermost binder.
//! Binding a lambda's parameters prepends them in reverse order, so the
//! k-th of n parameters (leftmost first) receives index `n - 1 - k`, and
//! everything already in scope is shifted outward by `n`.

use vstd::prelude::*;
use vstd::view::View as ViewTrait;
use crate::symbol::Symbol;
use crate::symbol::Symbols;
use crate::symbol::lemma_symbol_unique;
use crate::term::TermHeap;
use crate::term::copy_vec;
use crate::term::is_symbol_at;
use crate::term::symbol_name_at;
use crate::variable::DeBruijn;

verus! {

broadcast use vstd::seq::group_seq_axioms;

/// A scope: the chain of binders the parser is inside of.
///
/// The entry at position i is the name bound to De Bruijn index i, so the
/// innermost binder comes first.
pub struct Scope {
    env: Vec<Symbol>,
}

impl vstd::view::View for Scope {
    type V = Seq<Symbol>;

    closed spec fn view(&self) -> Seq<Symbol> {
        self.env@
    }
}

/// The names bound by a scope, by De Bruijn index.
pub open spec fn scope_names(heap: TermHeap, env: Seq<Symbol>) -> Seq<Seq<u8>> {
    Seq::new(env.len(), |i: int| symbol_name_at(heap@, env[i].id()))
}

/// The De Bruijn index a name resolves to: the position of its first
/// occurrence, counted from the innermost binder.
pub open spec fn scope_lookup(env: Seq<Seq<u8>>, name: Seq<u8>) -> Option<nat>
    decreases env.len(),
{
    if env.len() == 0 {
        None
    } else if env[0] == name {
        Some(0nat)
    } else {
        match scope_lookup(env.subrange(1, env.len() as int), name) {
            Some(i) => Some((i + 1) as nat),
            None => None,
        }
    }
}

/// `scope_lookup` returns the position of the first occurrence.
pub proof fn lemma_scope_lookup_at(env: Seq<Seq<u8>>, name: Seq<u8>, i: int)
    requires
        0 <= i <= env.len(),
        forall|j: int| 0 <= j < i ==> env[j] != name,
        i < env.len() ==> env[i] == name,
    ensures
        i < env.len() ==> scope_lookup(env, name) == Some(i as nat),
        i == env.len() ==> scope_lookup(env, name) is None,
    decreases env.len(),
{
    if env.len() == 0 {
    } else if env[0] == name {
        assert(i == 0);
    } else {
        let tail = env.subrange(1, env.len() as int);
        assert(forall|j: int| 0 <= j < i - 1 ==> tail[j] == env[j + 1]);
        lemma_scope_lookup_at(tail, name, i - 1);
    }
}

/// Names that are not in the prefix resolve past it, shifted by its length.
pub proof fn lemma_scope_lookup_skip(pre: Seq<Seq<u8>>, env: Seq<Seq<u8>>, name: Seq<u8>)
    requires
        forall|j: int| 0 <= j < pre.len() ==> pre[j] != name,
    ensures
        scope_lookup(pre + env, name) == match scope_lookup(env, name) {
            Some(i) => Some((i + pre.len()) as nat),
            None => None::<nat>,
        },
    decreases pre.len(),
{
    if pre.len() == 0 {
        assert(pre + env =~= env);
    } else {
        let whole = pre + env;
        assert(whole[0] == pre[0]);
        assert(whole.subrange(1, whole.len() as int) =~= pre.subrange(1, pre.len() as int) + env);
        lemma_scope_lookup_skip(pre.subrange(1, pre.len() as int), env, name);
    }
}

/// Parser/scope consistency: in a scope that binds `n` parameters inside
/// `env`, the `k`-th parameter (0-indexed, leftmost first) resolves to De
/// Bruijn index `n - 1 - k`, provided no later parameter shadows it.
pub proof fn lemma_parameter_resolution(params: Seq<Seq<u8>>, env: Seq<Seq<u8>>, k: int)
    requires
        0 <= k < params.len(),
        forall|j: int| k < j < params.len() ==> params[j] != params[k],
    ensures
        scope_lookup(params.reverse() + env, params[k]) == Some(
            (params.len() - 1 - k) as nat,
        ),
{
    let env2 = params.reverse() + env;
    let pos = params.len() - 1 - k;
    assert forall|j: int| 0 <= j < pos implies env2[j] != params[k] by {
        assert(env2[j] == params[params.len() - 1 - j]);
        assert(k < params.len() - 1 - j < params.len());
    }
    assert(env2[pos] == params[k]);
    lemma_scope_lookup_at(env2, params[k], pos);
}

/// Nested lambdas add to the shift: a name bound outside `n` fresh
/// parameters resolves to its outer index plus `n`.
pub proof fn lemma_shift_resolution(params: Seq<Seq<u8>>, env: Seq<Seq<u8>>, name: Seq<u8>)
    requires
        forall|j: int| 0 <= j < params.len() ==> params[j] != name,
    ensures
        scope_lookup(params.reverse() + env, name) == match scope_lookup(env, name) {
            Some(i) => Some((i + params.len()) as nat),
            None => None::<nat>,
        },
{
    assert(forall|j: int|
        0 <= j < params.len() ==> params.reverse()[j] == params[params.len() - 1 - j]);
    lemma_scope_lookup_skip(params.reverse(), env, name);
}

/// A resolved index is the position of an entry, so it is within range.
pub proof fn lemma_scope_lookup_range(env: Seq<Seq<u8>>, name: Seq<u8>)
    ensures
        match scope_lookup(env, name) {
            Some(i) => i < env.len(),
            None => true,
        },
    decreases env.len(),
{
    if env.len() > 0 && env[0] != name {
        lemma_scope_lookup_range(env.subrange(1, env.len() as int), name);
    }
}

/// The names a scope binds do not change when the heap grows.
pub proof fn lemma_scope_names_grow(h1: TermHeap, h2: TermHeap, env: Seq<Symbol>)
    requires
        h2.grown_from(h1),
        forall|k: int| 0 <= k < env.len() ==> 0 <= (#[trigger] env[k]).id() < h1@.len(),
    ensures
        scope_names(h2, env) == scope_names(h1, env),
{
    assert forall|k: int| 0 <= k < env.len() implies symbol_name_at(h2@, (#[trigger] env[k]).id())
        == symbol_name_at(h1@, env[k].id()) by {
        assert(h1@[env[k].id()] == h2@.subrange(0, h1@.len() as int)[env[k].id()]);
    }
    assert(scope_names(h2, env) =~= scope_names(h1, env));
}

impl Scope {
    /// Scope entries are symbol terms of the heap.
    pub open spec fn wf(self, heap: TermHeap) -> bool {
        forall|k: int| 0 <= k < self@.len() ==> is_symbol_at(heap@, (#[trigger] self@[k]).id())
    }

    /// The number of variables in scope.
    pub(crate) fn depth(&self) -> (r: usize)
        ensures
            r as int == self@.len(),
    {
        self.env.len()
    }

    /// Create a scope that binds the given variables inside the parent
    /// scope, if any.
    ///
    /// The variables are written leftmost-first; the rightmost one is the
    /// innermost binder, so the list is prepended in reverse order.
    pub fn new(parent: Option<&Scope>, variables: Vec<Symbol>) -> (r: Scope)
        ensures
            r@ == variables@.reverse() + match parent {
                Some(p) => p@,
                None => Seq::<Symbol>::empty(),
            },
    {
        let mut env: Vec<Symbol> = Vec::new();
        let mut k = variables.len();
        while k > 0
            invariant
                k <= variables@.len(),
                env@.len() == variables@.len() - k,
                forall|j: int|
                    0 <= j < env@.len() ==> env@[j] == variables@[variables@.len() - 1 - j],
            decreases k,
        {
            k = k - 1;
            env.push(variables[k]);
        }
        match parent {
            Some(p) => {
                let mut rest = copy_vec(&p.env);
                let ghost before = env@;
                env.append(&mut rest);
                proof {
                    assert(env@ =~= variables@.reverse() + p@);
                }
            },
            None => {
                proof {
                    assert(env@ =~= variables@.reverse() + Seq::<Symbol>::empty());
                }
            },
        }
        Scope { env }
    }

    /// Find the De Bruijn index corresponding to the given name.
    ///
    /// `None` means there is no bound variable with that name in scope, so
    /// the identifier denotes a free symbol.
    ///
    /// The comparison is a handle comparison, which decides name equality
    /// because both the entries and the name are interned symbols.
    pub fn get(&self, heap: &TermHeap, syms: &Symbols, name: &Symbol) -> (r: Option<DeBruijn>)
        requires
            syms.wf(*heap),
            self.wf(*heap),
            is_symbol_at(heap@, name.id()),
            self@.len() <= u32::MAX as usize,
        ensures
            r == match scope_lookup(scope_names(*heap, self@), symbol_name_at(heap@, name.id())) {
                Some(i) => Some(DeBruijn(i as u32)),
                None => None::<DeBruijn>,
            },
    {
        let ghost names = scope_names(*heap, self@);
        let ghost target = symbol_name_at(heap@, name.id());
        let mut i: usize = 0;
        while i < self.env.len()
            invariant
                names == scope_names(*heap, self@),
                target == symbol_name_at(heap@, name.id()),
                syms.wf(*heap),
                self.wf(*heap),
                is_symbol_at(heap@, name.id()),
                self@.len() <= u32::MAX as usize,
                i <= self@.len(),
                forall|j: int| 0 <= j < i ==> names[j] != target,
            decreases self@.len() - i,
        {
            let entry = self.env[i];
            if entry.term().ptr_eq(&name.term()) {
                proof {
                    lemma_scope_lookup_at(names, target, i as int);
                }
                return Some(DeBruijn(i as u32));
            }
            proof {
                if names[i as int] == target {
                    lemma_symbol_unique(*heap, *syms, self@[i as int].spec_term(),
                        name.spec_term());
                    assert(false);
                }
            }
            i = i + 1;
        }
        proof {
            lemma_scope_lookup_at(names, target, i as int);
        }
        None
    }
}

} // verus!
