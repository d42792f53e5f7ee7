//! Tests for the parser: scopes, De Bruijn indices, and the grammar.

use librealgebra::error::Error;
use librealgebra::lex::Token;
use librealgebra::parse::parse_term;
use librealgebra::scope::Scope;
use librealgebra::symbol::Symbols;
use librealgebra::term::Term;
use librealgebra::term::TermHeap;
use librealgebra::term::View;
use librealgebra::variable::DeBruijn;

fn parse(heap: &mut TermHeap, symbols: &mut Symbols, input: &str) -> Result<Term, Error> {
    let scope = Scope::new(None, Vec::new());
    let mut lex = Token::lexer(input.as_bytes());
    parse_term(heap, symbols, &scope, &mut lex)
}

/// `|x, y| x` resolves the first of two parameters to index 1.
#[test]
fn two_parameter_lambda_first() {
    let mut heap = TermHeap::new();
    let mut symbols = Symbols::new();
    let t = parse(&mut heap, &mut symbols, "|x, y| x").unwrap();
    match t.view(&heap) {
        View::Lambda(parameters, body) => {
            assert_eq!(parameters.len(), 2);
            assert!(body.eq_variable(&heap, DeBruijn(1)));
        },
        _ => panic!("not a lambda"),
    }
}

/// `|x, y| y` resolves the second of two parameters to index 0.
#[test]
fn two_parameter_lambda_second() {
    let mut heap = TermHeap::new();
    let mut symbols = Symbols::new();
    let t = parse(&mut heap, &mut symbols, "|x, y| y").unwrap();
    match t.view(&heap) {
        View::Lambda(parameters, body) => {
            assert_eq!(parameters.len(), 2);
            assert!(body.eq_variable(&heap, DeBruijn(0)));
        },
        _ => panic!("not a lambda"),
    }
}

/// Nested lambdas add to the shift: in `|x| |y| x`, `x` is index 1.
#[test]
fn nested_lambda_shifts() {
    let mut heap = TermHeap::new();
    let mut symbols = Symbols::new();
    let t = parse(&mut heap, &mut symbols, "|x| |y| x").unwrap();
    match t.view(&heap) {
        View::Lambda(_, body) => match body.view(&heap) {
            View::Lambda(_, inner) => {
                assert!(inner.eq_variable(&heap, DeBruijn(1)));
            },
            _ => panic!("no inner lambda"),
        },
        _ => panic!("not a lambda"),
    }
}

/// `f(1, 2)(3)` chains argument lists left-associatively.
#[test]
fn chained_argument_lists() {
    let mut heap = TermHeap::new();
    let mut symbols = Symbols::new();
    let f = symbols.get(&mut heap, b"f");
    let t = parse(&mut heap, &mut symbols, "f(1, 2)(3)").unwrap();
    match t.view(&heap) {
        View::Application(function, arguments) => {
            assert_eq!(arguments.len(), 1);
            assert!(arguments[0].eq_integer_i32(&heap, 3));
            match function.view(&heap) {
                View::Application(inner, inner_args) => {
                    assert!(inner.eq_symbol(&f));
                    assert_eq!(inner_args.len(), 2);
                    assert!(inner_args[0].eq_integer_i32(&heap, 1));
                    assert!(inner_args[1].eq_integer_i32(&heap, 2));
                },
                _ => panic!("inner is not an application"),
            }
        },
        _ => panic!("not an application"),
    }
}

/// A free identifier becomes the interned symbol.
#[test]
fn free_identifier_is_a_symbol() {
    let mut heap = TermHeap::new();
    let mut symbols = Symbols::new();
    let t = parse(&mut heap, &mut symbols, "Pi").unwrap();
    let pi = symbols.get(&mut heap, b"Pi");
    assert!(t.eq_symbol(&pi));
}

/// Strings and parentheses parse; trailing commas are tolerated.
#[test]
fn strings_parens_and_trailing_commas() {
    let mut heap = TermHeap::new();
    let mut symbols = Symbols::new();
    let t = parse(&mut heap, &mut symbols, "( f(\"ab\", 1,) )").unwrap();
    match t.view(&heap) {
        View::Application(_, arguments) => {
            assert_eq!(arguments.len(), 2);
            match arguments[0].view(&heap) {
                View::String(bytes) => assert_eq!(bytes, b"ab".to_vec()),
                _ => panic!("not a string"),
            }
        },
        _ => panic!("not an application"),
    }
}

/// A `~` marks a parameter non-strict.
#[test]
fn tilde_marks_non_strict() {
    let mut heap = TermHeap::new();
    let mut symbols = Symbols::new();
    let t = parse(&mut heap, &mut symbols, "|~x, y| y").unwrap();
    match t.view(&heap) {
        View::Lambda(parameters, _) => {
            assert_eq!(parameters.len(), 2);
            assert!(matches!(
                parameters[0].strictness,
                librealgebra::lambda::Strictness::NonStrict
            ));
            assert!(matches!(
                parameters[1].strictness,
                librealgebra::lambda::Strictness::Strict
            ));
        },
        _ => panic!("not a lambda"),
    }
}

/// With two parameters of the same name the inner (rightmost) binding
/// shadows: the identifier resolves to index 0.
#[test]
fn duplicate_parameter_shadows() {
    let mut heap = TermHeap::new();
    let mut symbols = Symbols::new();
    let t = parse(&mut heap, &mut symbols, "|x, x| x").unwrap();
    match t.view(&heap) {
        View::Lambda(_, body) => assert!(body.eq_variable(&heap, DeBruijn(0))),
        _ => panic!("not a lambda"),
    }
}

/// Malformed input is reported as the one opaque parse error.
#[test]
fn malformed_inputs_fail() {
    let mut heap = TermHeap::new();
    let mut symbols = Symbols::new();
    assert!(parse(&mut heap, &mut symbols, "").is_err());
    assert!(parse(&mut heap, &mut symbols, "(").is_err());
    assert!(parse(&mut heap, &mut symbols, ")").is_err());
    assert!(parse(&mut heap, &mut symbols, "( 1").is_err());
    assert!(parse(&mut heap, &mut symbols, "f(,)").is_err());
    assert!(parse(&mut heap, &mut symbols, "| | x").is_err());
    assert!(parse(&mut heap, &mut symbols, "2147483648").is_err());
    assert!(parse(&mut heap, &mut symbols, "\"\"").is_err());
}
