//! Tests for the simplifier: the built-in identities, differentiation,
//! sharing, and the recursion budget.

use librealgebra::builtins::Builtins;
use librealgebra::constants::Constants;
use librealgebra::lex::Token;
use librealgebra::parse::parse_term;
use librealgebra::scope::Scope;
use librealgebra::simplify::simplify;
use librealgebra::simplify::Context;
use librealgebra::simplify::Session;
use librealgebra::simplify::Warning;
use librealgebra::symbol::Symbols;
use librealgebra::term::Term;
use librealgebra::term::TermHeap;
use librealgebra::term::View;
use librealgebra::variable::DeBruijn;

fn engine() -> Context {
    let mut heap = TermHeap::new();
    let mut symbols = Symbols::new();
    let constants = Constants::new(&mut heap, &mut symbols);
    let builtins = Builtins::new(&constants);
    let session = Session::new();
    Context {
        heap,
        symbols,
        builtins,
        constants,
        session,
        recursion_limit: 16,
        warnings: Vec::new(),
    }
}

fn parse(c: &mut Context, input: &str) -> Term {
    let scope = Scope::new(None, Vec::new());
    let mut lex = Token::lexer(input.as_bytes());
    parse_term(&mut c.heap, &mut c.symbols, &scope, &mut lex).unwrap()
}

fn run(c: &mut Context, input: &str) -> Term {
    let t = parse(c, input);
    simplify(c, t)
}

#[test]
fn sin_of_zero() {
    let mut c = engine();
    let r = run(&mut c, "Sin(0)");
    assert!(r.eq_integer_i32(&c.heap, 0));
    assert!(r.ptr_eq(&c.constants.integer_0));
}

#[test]
fn sin_of_pi() {
    let mut c = engine();
    let r = run(&mut c, "Sin(Pi)");
    assert!(r.eq_integer_i32(&c.heap, 0));
}

#[test]
fn cos_of_zero() {
    let mut c = engine();
    let r = run(&mut c, "Cos(0)");
    assert!(r.eq_integer_i32(&c.heap, 1));
    assert!(r.ptr_eq(&c.constants.integer_1));
}

#[test]
fn cos_of_pi() {
    let mut c = engine();
    let r = run(&mut c, "Cos(Pi)");
    assert!(r.eq_integer_i32(&c.heap, -1));
    assert!(r.ptr_eq(&c.constants.integer_neg_1));
}

#[test]
fn derivative_of_sin_is_cos() {
    let mut c = engine();
    let r = run(&mut c, "Derivative(Sin)");
    assert!(r.eq_symbol(&c.constants.Cos));
}

/// `Derivative(Cos)` is the canonical lambda `|x| Multiply(-1, Sin(x))`.
#[test]
fn derivative_of_cos_is_neg_sin() {
    let mut c = engine();
    let r = run(&mut c, "Derivative(Cos)");
    assert!(r.ptr_eq(&c.constants.lambda_neg_Sin));
    match r.view(&c.heap) {
        View::Lambda(parameters, body) => {
            assert_eq!(parameters.len(), 1);
            match body.view(&c.heap) {
                View::Application(f, args) => {
                    assert!(f.eq_symbol(&c.constants.Multiply));
                    assert_eq!(args.len(), 2);
                    assert!(args[0].eq_integer_i32(&c.heap, -1));
                    match args[1].view(&c.heap) {
                        View::Application(g, inner) => {
                            assert!(g.eq_symbol(&c.constants.Sin));
                            assert!(inner[0].eq_variable(&c.heap, DeBruijn(0)));
                        },
                        _ => panic!("no inner Sin application"),
                    }
                },
                _ => panic!("body is not an application"),
            }
        },
        _ => panic!("not a lambda"),
    }
}

#[test]
fn derivative_of_identity_lambda() {
    let mut c = engine();
    let r = run(&mut c, "Derivative(|x| x)");
    match r.view(&c.heap) {
        View::Lambda(_, body) => assert!(body.eq_integer_i32(&c.heap, 1)),
        _ => panic!("not a lambda"),
    }
}

/// `Pi` has an empty De Bruijn cache, so the body is constant and the
/// derivative is zero without any traversal.
#[test]
fn derivative_of_constant_lambda() {
    let mut c = engine();
    let r = run(&mut c, "Derivative(|x| Pi)");
    match r.view(&c.heap) {
        View::Lambda(_, body) => assert!(body.eq_integer_i32(&c.heap, 0)),
        _ => panic!("not a lambda"),
    }
}

/// The sum rule: `Derivative(|x| Add(x, Pi, x))` has body `Add(1, 1)`.
#[test]
fn derivative_of_sum() {
    let mut c = engine();
    let r = run(&mut c, "Derivative(|x| Add(x, Pi, x))");
    match r.view(&c.heap) {
        View::Lambda(_, body) => match body.view(&c.heap) {
            View::Application(f, args) => {
                assert!(f.eq_symbol(&c.constants.Add));
                assert_eq!(args.len(), 2);
                assert!(args[0].eq_integer_i32(&c.heap, 1));
                assert!(args[1].eq_integer_i32(&c.heap, 1));
            },
            _ => panic!("body is not an application"),
        },
        _ => panic!("not a lambda"),
    }
}

/// Simplifier fixed points on atoms: the result is the same allocation.
#[test]
fn atoms_are_fixed_points() {
    let mut c = engine();
    let n = Term::integer_i32(&mut c.heap, 7);
    assert!(simplify(&mut c, n).ptr_eq(&n));
    let v = Term::variable(&mut c.heap, DeBruijn(0));
    assert!(simplify(&mut c, v).ptr_eq(&v));
    let s = Term::string(&mut c.heap, b"hi".to_vec());
    assert!(simplify(&mut c, s).ptr_eq(&s));
    let lam = parse(&mut c, "|x| Sin(x)");
    assert!(simplify(&mut c, lam).ptr_eq(&lam));
    let undefined = parse(&mut c, "Quux");
    assert!(simplify(&mut c, undefined).ptr_eq(&undefined));
}

/// An application of a non-builtin symbol to unchanged arguments is
/// returned as the same allocation, not a rebuilt copy.
#[test]
fn unchanged_application_keeps_identity() {
    let mut c = engine();
    let t = parse(&mut c, "f(1, 2)");
    let r = simplify(&mut c, t);
    assert!(r.ptr_eq(&t));
}

/// A reserved symbol — one defined as itself — stays itself.
#[test]
fn reserved_symbol_stays() {
    let mut c = engine();
    let pi = c.constants.Pi;
    let pi_term = pi.term();
    c.define(pi, pi_term);
    let r = simplify(&mut c, pi_term);
    assert!(r.ptr_eq(&pi_term));
}

/// A defined symbol evaluates to its simplified definition.
#[test]
fn defined_symbol_evaluates() {
    let mut c = engine();
    let e = c.constants.E;
    let definition = parse(&mut c, "Cos(0)");
    c.define(e, definition);
    let r = simplify(&mut c, e.term());
    assert!(r.eq_integer_i32(&c.heap, 1));
}

/// With the budget exhausted the input comes back unchanged and the
/// exhaustion is recorded as a warning.
#[test]
fn exhausted_budget_returns_input() {
    let mut c = engine();
    let t = parse(&mut c, "Sin(0)");
    c.recursion_limit = 0;
    let r = simplify(&mut c, t);
    assert!(r.ptr_eq(&t));
    assert_eq!(c.warnings, vec![Warning::RecursionLimitReached]);
    c.recursion_limit = 16;
    let r2 = simplify(&mut c, t);
    assert!(r2.eq_integer_i32(&c.heap, 0));
}

/// Simplifying twice gives the same term as simplifying once.
#[test]
fn simplification_is_idempotent_on_these() {
    let mut c = engine();
    for input in ["Sin(0)", "Cos(Pi)", "Derivative(Sin)", "f(Cos(0))", "|x| x", "41"] {
        let t = parse(&mut c, input);
        let once = simplify(&mut c, t);
        let twice = simplify(&mut c, once);
        assert!(twice.ptr_eq(&once));
    }
}

/// Redefining a symbol replaces the earlier definition.
#[test]
fn redefinition_replaces() {
    let mut c = engine();
    let e = c.constants.E;
    let one = c.constants.integer_1;
    let zero = c.constants.integer_0;
    c.define(e, one);
    c.define(e, zero);
    let r = simplify(&mut c, e.term());
    assert!(r.eq_integer_i32(&c.heap, 0));
}

/// An arity mismatch on a builtin leaves the application alone and is
/// recorded as a warning.
#[test]
fn wrong_arity_is_no_rewrite() {
    let mut c = engine();
    let t = parse(&mut c, "Sin(0, 1)");
    let r = simplify(&mut c, t);
    assert!(r.ptr_eq(&t));
    assert_eq!(c.warnings, vec![Warning::ArityMismatch]);
}
