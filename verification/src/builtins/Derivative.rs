//! Simplification of applications of `Derivative`.

use vstd::prelude::*;
use vstd::view::View as ViewTrait;
use crate::constants::name_add;
use crate::constants::name_cos;
use crate::constants::name_derivative;
use crate::constants::name_sin;
use crate::simplify::Context;
use crate::simplify::ctx_preserved;
use crate::simplify::lemma_ctx_frame;
use crate::simplify::lemma_ctx_refl;
use crate::simplify::lemma_ctx_trans;
use crate::simplify::recurse;
use crate::simplify::Warning;
use crate::simplify::spec_derivative;
use crate::simplify::spec_derivative_of_add;
use crate::simplify::spec_derivative_of_function;
use crate::simplify::spec_derivative_of_term;
use crate::simplify::spec_derive_each;
use crate::simplify::spec_is_constant;
use crate::simplify::spec_make_add;
use crate::simplify::spec_simplify;
use crate::term::Kind;
use crate::term::Term;
use crate::term::TermHeap;
use crate::term::TermX;
use crate::term::View;
use crate::term::interp_at;
use crate::term::interp_each;
use crate::term::interp_params;
use crate::term::is_symbol_at;
use crate::term::kind_of;
use crate::term::max_id;
use crate::term::node_wf;
use crate::term::symbol_name_at;
use crate::term::view_ok;
use crate::variable::DeBruijn;

verus! {

broadcast use vstd::seq::group_seq_axioms;

/// Whether `term` is a constant with respect to `parameter` for the
/// purpose of differentiation.
///
/// If this method returns `Some`, the answer is correct; otherwise the De
/// Bruijn cache could not tell and the caller must treat the term as
/// possibly depending on the variable.
pub fn is_constant(heap: &TermHeap, parameter: DeBruijn, term: &Term) -> (r: Option<bool>)
    requires
        heap.wf(),
        heap.has(*term),
    ensures
        r == spec_is_constant(parameter.0 as nat, heap.interp(*term)),
{
    proof {
        assert(node_wf(heap@, term.id()));
    }
    match term.cache(heap).contains(parameter) {
        Some(b) => Some(!b),
        None => None,
    }
}

/// Unfolds [`spec_derive_each`] of a suffix of the summands by one step.
proof fn lemma_derive_each_step(
    defs: Map<Seq<u8>, TermX>,
    p: nat,
    ts: Seq<TermX>,
    budget: nat,
    k: int,
)
    requires
        0 <= k < ts.len(),
    ensures
        spec_derive_each(defs, p, ts.subrange(k, ts.len() as int), budget) == ({
            let rest = spec_derive_each(defs, p, ts.subrange(k + 1, ts.len() as int), budget);
            if spec_is_constant(p, ts[k]) == Some(true) {
                rest
            } else {
                match (spec_derivative_of_term(defs, p, ts[k], budget), rest) {
                    (Some(d), Some(r)) => Some(Seq::empty().push(d) + r),
                    _ => None,
                }
            }
        }),
{
    let s = ts.subrange(k, ts.len() as int);
    assert(s[0] == ts[k]);
    assert(s.subrange(1, s.len() as int) =~= ts.subrange(k + 1, ts.len() as int));
}

/// Simplify an application of `Derivative`.
#[verifier::rlimit(60)]
pub fn simplify(c: &mut Context, arguments: &Vec<Term>) -> (r: Option<Term>)
    requires
        old(c).wf(),
        old(c).recursion_limit >= 1,
        forall|k: int| 0 <= k < arguments@.len() ==> old(c).has(#[trigger] arguments@[k]),
    ensures
        final(c).wf(),
        ctx_preserved(*old(c), *final(c)),
        ({
            let spec_out = spec_derivative(
                old(c).defs(),
                interp_each(old(c).heap, arguments@),
                old(c).recursion_limit as nat,
            );
            match r {
                Some(t2) => final(c).has(t2) && spec_out == Some(final(c).interp(t2)),
                None => spec_out is None,
            }
        }),
        arguments@.len() != 1 ==> final(c).heap == old(c).heap
            && final(c).warnings@ == old(c).warnings@.push(Warning::ArityMismatch),
    decreases c.recursion_limit, 1int, 0int, 0int,
{
    let ghost c0 = *c;
    let ghost argsx = interp_each(c0.heap, arguments@);
    if arguments.len() != 1 {
        c.warnings.push(Warning::ArityMismatch);
        proof {
            crate::term::lemma_grown_refl(c.heap);
            assert(old(c).warnings@.is_prefix_of(c.warnings@));
        }
        return None;
    }
    let original_function = arguments[0];
    proof {
        assert(argsx[0] == c0.interp(original_function));
    }
    let function = recurse(c, original_function);
    let ghost c1 = *c;
    let ghost f2x = c.interp(function);
    proof {
        assert(f2x == spec_simplify(c0.defs(), argsx[0], (c0.recursion_limit - 1) as nat));
    }
    let derived = of_function(c, function);
    proof {
        lemma_ctx_trans(c0, c1, *c);
    }
    match derived {
        Some(derivative) => Some(derivative),
        None => {
            if function.ptr_eq(&original_function) {
                proof {
                    assert(c1.interp(function) == c1.interp(original_function));
                    assert(c1.interp(original_function) == argsx[0]);
                }
                None
            } else {
                proof {
                    if f2x == argsx[0] {
                        assert(c1.interp(function) == c1.interp(original_function));
                        assert(function == original_function);
                    }
                }
                let derivative_term = c.constants.Derivative.term();
                let mut args2: Vec<Term> = Vec::new();
                args2.push(function);
                let ghost args2x = args2@;
                let ghost c2 = *c;
                let t2 = Term::application(&mut c.heap, derivative_term, args2);
                proof {
                    assert(!(c.heap@[t2.id()].data is Symbol)) by {
                        assert(kind_of(c.heap@[t2.id()].data) == Kind::Application);
                    }
                    lemma_ctx_frame(c2, *c);
                    lemma_ctx_trans(c0, c2, *c);
                    assert(c2.heap.interp(derivative_term) == (TermX::Symbol {
                        name: name_derivative(),
                    }));
                    assert(c2.interp(function) == f2x);
                    assert(interp_each(c2.heap, args2x) =~= seq![f2x]);
                    assert(c.interp(t2) == (TermX::Application {
                        function: Box::new(TermX::Symbol { name: name_derivative() }),
                        arguments: seq![f2x],
                    }));
                }
                Some(t2)
            }
        },
    }
}

/// Find the derivative of `function`, which must be a unary function: the
/// `Sin` symbol, the `Cos` symbol, or a one-parameter lambda.
#[verifier::rlimit(60)]
pub fn of_function(c: &mut Context, function: Term) -> (r: Option<Term>)
    requires
        old(c).wf(),
        old(c).has(function),
        old(c).recursion_limit >= 1,
    ensures
        final(c).wf(),
        ctx_preserved(*old(c), *final(c)),
        ({
            let spec_out = spec_derivative_of_function(
                old(c).defs(),
                old(c).interp(function),
                old(c).recursion_limit as nat,
            );
            match r {
                Some(d) => final(c).has(d) && spec_out == Some(final(c).interp(d)),
                None => spec_out is None,
            }
        }),
        old(c).interp(function) == (TermX::Symbol { name: name_sin() }) ==> r == Some(
            old(c).constants.Cos.spec_term(),
        ),
        old(c).interp(function) == (TermX::Symbol { name: name_cos() }) ==> r == Some(
            old(c).constants.lambda_neg_Sin,
        ),
    decreases c.recursion_limit, 0int, function.id(), 3int,
{
    let ghost c0 = *c;
    let ghost fx = c0.interp(function);
    proof {
        crate::symbol::lemma_eq_symbol_interp(c.heap, c.symbols, function, c.constants.Sin);
        crate::symbol::lemma_eq_symbol_interp(c.heap, c.symbols, function, c.constants.Cos);
        assert(symbol_name_at(c.heap@, c.constants.Sin.id()) == name_sin());
        assert(symbol_name_at(c.heap@, c.constants.Cos.id()) == name_cos());
        crate::builtins::lemma_builtin_names_distinct();
    }
    if function.eq_symbol(&c.constants.Sin) {
        let r = c.constants.Cos.term();
        proof {
            lemma_ctx_refl(*c);
            assert(c.interp(r) == (TermX::Symbol { name: name_cos() }));
        }
        return Some(r);
    }
    if function.eq_symbol(&c.constants.Cos) {
        proof {
            lemma_ctx_refl(*c);
        }
        return Some(c.constants.lambda_neg_Sin);
    }
    let v = function.view(&c.heap);
    match v {
        View::Lambda(parameters, body) => {
            if parameters.len() == 1 {
                let ghost paramsx = interp_params(c0.heap@, parameters@);
                let ghost bodyx = c0.interp(body);
                proof {
                    assert(fx == (TermX::Lambda {
                        parameters: paramsx,
                        body: Box::new(bodyx),
                    }));
                }
                match of_term(c, DeBruijn(0), body) {
                    Some(body_derivative) => {
                        let ghost c1 = *c;
                        proof {
                            assert forall|k: int| 0 <= k < parameters@.len() implies is_symbol_at(
                                c.heap@,
                                (#[trigger] parameters@[k]).name.id(),
                            ) by {
                                let nid = parameters@[k].name.id();
                                assert(c0.heap@[nid] == c.heap@.subrange(
                                    0,
                                    c0.heap@.len() as int,
                                )[nid]);
                            }
                        }
                        let ghost params_snap = parameters@;
                        let t2 = Term::lambda(&mut c.heap, parameters, body_derivative);
                        proof {
                            assert(!(c.heap@[t2.id()].data is Symbol)) by {
                                assert(kind_of(c.heap@[t2.id()].data) == Kind::Lambda);
                            }
                            lemma_ctx_frame(c1, *c);
                            lemma_ctx_trans(c0, c1, *c);
                            assert(interp_params(c1.heap@, params_snap) =~= paramsx) by {
                                assert forall|k: int|
                                    0 <= k < params_snap.len() implies symbol_name_at(
                                    c1.heap@,
                                    params_snap[k].name.id(),
                                ) == symbol_name_at(c0.heap@, params_snap[k].name.id()) by {
                                    let nid = params_snap[k].name.id();
                                    assert(c0.heap@[nid] == c1.heap@.subrange(
                                        0,
                                        c0.heap@.len() as int,
                                    )[nid]);
                                }
                            }
                        }
                        Some(t2)
                    },
                    None => None,
                }
            } else {
                proof {
                    lemma_ctx_refl(*c);
                }
                None
            }
        },
        _ => {
            proof {
                lemma_ctx_refl(*c);
            }
            None
        },
    }
}

/// Find the derivative of `term` with respect to the variable `parameter`.
pub fn of_term(c: &mut Context, parameter: DeBruijn, term: Term) -> (r: Option<Term>)
    requires
        old(c).wf(),
        old(c).has(term),
        old(c).recursion_limit >= 1,
    ensures
        final(c).wf(),
        ctx_preserved(*old(c), *final(c)),
        ({
            let spec_out = spec_derivative_of_term(
                old(c).defs(),
                parameter.0 as nat,
                old(c).interp(term),
                old(c).recursion_limit as nat,
            );
            match r {
                Some(d) => final(c).has(d) && spec_out == Some(final(c).interp(d)),
                None => spec_out is None,
            }
        }),
        spec_is_constant(parameter.0 as nat, old(c).interp(term)) == Some(true) ==> r == Some(
            old(c).constants.integer_0,
        ),
        spec_is_constant(parameter.0 as nat, old(c).interp(term)) != Some(true) && old(c).interp(
            term,
        ) == (TermX::Variable { index: parameter.0 as nat }) ==> r == Some(
            old(c).constants.integer_1,
        ),
    decreases c.recursion_limit, 0int, term.id(), 2int,
{
    let ghost c0 = *c;
    let ghost tx = c0.interp(term);
    match is_constant(&c.heap, parameter, &term) {
        Some(true) => {
            proof {
                lemma_ctx_refl(*c);
            }
            return Some(c.constants.integer_0);
        },
        _ => {},
    }
    if term.eq_variable(&c.heap, parameter) {
        proof {
            lemma_ctx_refl(*c);
        }
        return Some(c.constants.integer_1);
    }
    let v = term.view(&c.heap);
    match v {
        View::Application(function, arguments) => {
            let ghost argsx = interp_each(c0.heap, arguments@);
            proof {
                crate::term::lemma_interp_each(c0.heap, arguments@, term.id());
                crate::symbol::lemma_eq_symbol_interp(c.heap, c.symbols, function, c.constants.Add);
                assert(symbol_name_at(c.heap@, c.constants.Add.id()) == name_add());
            }
            if function.eq_symbol(&c.constants.Add) {
                proof {
                    assert(term.id() >= 1);
                    crate::term::lemma_max_id(arguments@, term.id());
                }
                of_add(c, parameter, &arguments)
            } else {
                proof {
                    lemma_ctx_refl(*c);
                }
                None
            }
        },
        _ => {
            proof {
                lemma_ctx_refl(*c);
            }
            None
        },
    }
}

/// Find the derivative of the sum of `terms` with respect to `parameter`:
/// the sum rule, skipping summands the cache knows to be constant.
pub fn of_add(c: &mut Context, parameter: DeBruijn, terms: &Vec<Term>) -> (r: Option<Term>)
    requires
        old(c).wf(),
        old(c).recursion_limit >= 1,
        forall|k: int| 0 <= k < terms@.len() ==> old(c).has(#[trigger] terms@[k]),
    ensures
        final(c).wf(),
        ctx_preserved(*old(c), *final(c)),
        ({
            let spec_out = spec_derivative_of_add(
                old(c).defs(),
                parameter.0 as nat,
                interp_each(old(c).heap, terms@),
                old(c).recursion_limit as nat,
            );
            match r {
                Some(d) => final(c).has(d) && spec_out == Some(final(c).interp(d)),
                None => spec_out is None,
            }
        }),
        spec_derive_each(
            old(c).defs(),
            parameter.0 as nat,
            interp_each(old(c).heap, terms@),
            old(c).recursion_limit as nat,
        ) == Some(Seq::<TermX>::empty()) ==> r == Some(old(c).constants.integer_0),
    decreases c.recursion_limit, 0int, max_id(terms@) + 1, 1int,
{
    let ghost c0 = *c;
    let ghost p = parameter.0 as nat;
    let ghost budget = c0.recursion_limit as nat;
    let ghost tsx = interp_each(c0.heap, terms@);
    let mut derivs: Vec<Term> = Vec::new();
    let mut k: usize = 0;
    proof {
        lemma_ctx_refl(*c);
        assert(tsx.subrange(0, tsx.len() as int) =~= tsx);
        assert(interp_each(c.heap, derivs@) =~= Seq::<TermX>::empty());
        crate::term::lemma_max_id(terms@, old(c).heap@.len() as int + 1);
    }
    while k < terms.len()
        invariant
            c0 == *old(c),
            c0.wf(),
            c0.recursion_limit >= 1,
            forall|j: int| 0 <= j < terms@.len() ==> c0.has(#[trigger] terms@[j]),
            forall|j: int| 0 <= j < terms@.len() ==> (#[trigger] terms@[j]).id() <= max_id(terms@),
            tsx == interp_each(c0.heap, terms@),
            p == parameter.0 as nat,
            budget == c0.recursion_limit as nat,
            c.wf(),
            ctx_preserved(c0, *c),
            k <= terms@.len(),
            forall|j: int| 0 <= j < derivs@.len() ==> c.has(#[trigger] derivs@[j]),
            spec_derive_each(c0.defs(), p, tsx, budget) == (match spec_derive_each(
                c0.defs(),
                p,
                tsx.subrange(k as int, tsx.len() as int),
                budget,
            ) {
                Some(rest) => Some(interp_each(c.heap, derivs@) + rest),
                None => None::<Seq<TermX>>,
            }),
        decreases terms@.len() - k,
    {
        let t = terms[k];
        proof {
            assert(interp_at(c.heap@, t.id()) == interp_at(c0.heap@, t.id()));
            assert(c.interp(t) == tsx[k as int]);
            lemma_derive_each_step(c0.defs(), p, tsx, budget, k as int);
        }
        let constant = is_constant(&c.heap, parameter, &t);
        let skip = match constant {
            Some(b) => b,
            None => false,
        };
        if !skip {
            let ghost cprev = *c;
            let ghost derivs_snap = derivs@;
            match of_term(c, parameter, t) {
                Some(d) => {
                    proof {
                        lemma_ctx_trans(c0, cprev, *c);
                        assert forall|j: int| 0 <= j < derivs_snap.len() implies c.has(
                            #[trigger] derivs_snap[j],
                        ) && c.interp(derivs_snap[j]) == cprev.interp(derivs_snap[j]) by {
                            assert(interp_at(c.heap@, derivs_snap[j].id()) == interp_at(
                                cprev.heap@,
                                derivs_snap[j].id(),
                            ));
                        }
                    }
                    derivs.push(d);
                    proof {
                        assert(interp_each(c.heap, derivs@) =~= interp_each(
                            cprev.heap,
                            derivs_snap,
                        ).push(c.interp(d)));
                        assert forall|rest: Seq<TermX>|
                            true implies interp_each(cprev.heap, derivs_snap) + (Seq::<
                            TermX,
                        >::empty().push(c.interp(d)) + rest) == interp_each(c.heap, derivs@)
                            + rest by {
                            assert(interp_each(cprev.heap, derivs_snap) + (Seq::<
                                TermX,
                            >::empty().push(c.interp(d)) + rest) =~= interp_each(c.heap, derivs@)
                                + rest);
                        }
                    }
                },
                None => {
                    proof {
                        lemma_ctx_trans(c0, cprev, *c);
                    }
                    return None;
                },
            }
        }
        k = k + 1;
    }
    proof {
        assert(tsx.subrange(terms@.len() as int, tsx.len() as int) =~= Seq::<TermX>::empty());
        assert(interp_each(c.heap, derivs@) + Seq::<TermX>::empty() =~= interp_each(
            c.heap,
            derivs@,
        ));
    }
    let ghost cm = *c;
    let ghost ds = interp_each(c.heap, derivs@);
    let result = make_add(c, derivs);
    let ghost cr = *c;
    proof {
        lemma_ctx_trans(c0, cm, *c);
    }
    let r = recurse(c, result);
    proof {
        lemma_ctx_trans(c0, cr, *c);
        assert(cr.interp(result) == spec_make_add(ds));
        if ds == Seq::<TermX>::empty() {
            assert(derivs@.len() == 0);
            assert(result == c0.constants.integer_0);
            assert(cr.interp(result) == (TermX::Integer { value: 0 }));
            assert(c.interp(r) == cr.interp(result));
            assert(r == result);
        }
    }
    Some(r)
}

/// Build the sum of the given terms: zero terms give the integer zero, one
/// term gives that term, and more give an `Add` application.
fn make_add(c: &mut Context, terms: Vec<Term>) -> (t: Term)
    requires
        old(c).wf(),
        forall|k: int| 0 <= k < terms@.len() ==> old(c).has(#[trigger] terms@[k]),
    ensures
        final(c).wf(),
        ctx_preserved(*old(c), *final(c)),
        final(c).has(t),
        final(c).interp(t) == spec_make_add(interp_each(old(c).heap, terms@)),
        terms@.len() == 0 ==> t == old(c).constants.integer_0,
        terms@.len() == 1 ==> t == terms@[0],
    decreases c.recursion_limit, 0int, 0int, 0int,
{
    let ghost tsx = interp_each(old(c).heap, terms@);
    if terms.len() == 0 {
        proof {
            lemma_ctx_refl(*c);
        }
        c.constants.integer_0
    } else if terms.len() == 1 {
        proof {
            lemma_ctx_refl(*c);
        }
        terms[0]
    } else {
        let add_term = c.constants.Add.term();
        let ghost cb = *c;
        let t = Term::application(&mut c.heap, add_term, terms);
        proof {
            assert(!(c.heap@[t.id()].data is Symbol)) by {
                assert(kind_of(c.heap@[t.id()].data) == Kind::Application);
            }
            lemma_ctx_frame(cb, *c);
            assert(cb.heap.interp(add_term) == (TermX::Symbol { name: name_add() }));
        }
        t
    }
}

} // verus!
