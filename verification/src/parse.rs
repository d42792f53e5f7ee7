//! Parsing of terms.
//!
//! A recursive descent parser producing terms directly.  The grammar:
//!
//! ```text
//! term     = primary { arg_list } ;
//! arg_list = "(" [ term { "," term } [ "," ] ] ")" ;
//! primary  = "|" params "|" term
//!          | "(" term ")"
//!          | integer | string | identifier ;
//! params   = param { "," param } [ "," ] ;
//! param    = [ "~" ] identifier ;
//! ```
//!
//! Argument lists chain left-associatively.  A lambda binds its parameters
//! innermost in the order written, so inside the body the k-th of n
//! parameters resolves to De Bruijn index `n - 1 - k`.  An identifier that
//! the scope resolves becomes a variable; any other becomes the interned
//! symbol.  Malformed input is reported as the one opaque [`Error`]; so is
//! a lambda without parameters, and one that would push the number of
//! variables in scope beyond the 32-bit De Bruijn index space.

use vstd::prelude::*;
use vstd::view::View as ViewTrait;
use crate::error::Error;
use crate::lambda::Parameter;
use crate::lambda::Strictness;
use crate::lex::Lexer;
use crate::lex::Token;
use crate::lex::TokenX;
use crate::scope::Scope;
use crate::scope::scope_lookup;
use crate::scope::scope_names;
use crate::symbol::Symbols;
use crate::term::ParameterX;
use crate::term::interp_at;
use crate::term::Term;
use crate::term::TermHeap;
use crate::term::TermX;

verus! {

broadcast use vstd::seq::group_seq_axioms, crate::lex::lemma_at_nonneg;

/// Outcome of parsing one term: the tree and the next position, or a
/// failure.
pub enum Parsed {
    Done { t: TermX, next: int },
    Fail,
}

/// Outcome of parsing a comma-separated list of terms.
pub enum ParsedList {
    Done { ts: Seq<TermX>, next: int },
    Fail,
}

/// Outcome of trying to parse an argument list: one more list, no list
/// here, or a failure inside a list.
pub enum ParsedArgs {
    More { ts: Seq<TermX>, next: int },
    Stop,
    Fail,
}

/// Outcome of parsing a lambda's parameter list.
pub enum ParsedParams {
    Done { ps: Seq<ParameterX>, next: int },
    Fail,
}

/// Outcome of parsing a single parameter.
pub enum ParsedParam {
    Done { p: ParameterX, next: int },
    Fail,
}

/// Parse a term: a primary followed by argument lists.
pub open spec fn spec_parse_term(toks: Seq<TokenX>, pos: int, env: Seq<Seq<u8>>) -> Parsed
    decreases toks.len() - pos, 9int,
{
    match spec_parse_term_1(toks, pos, env) {
        Parsed::Done { t, next } => {
            if pos < next <= toks.len() {
                spec_parse_arg_chain(toks, next, env, t)
            } else {
                Parsed::Fail
            }
        },
        Parsed::Fail => Parsed::Fail,
    }
}

/// Wrap the accumulated term in one application per argument list.
pub open spec fn spec_parse_arg_chain(
    toks: Seq<TokenX>,
    pos: int,
    env: Seq<Seq<u8>>,
    acc: TermX,
) -> Parsed
    decreases toks.len() - pos, 20int,
{
    match spec_parse_argument_list(toks, pos, env) {
        ParsedArgs::Stop => Parsed::Done { t: acc, next: pos },
        ParsedArgs::Fail => Parsed::Fail,
        ParsedArgs::More { ts, next } => {
            if pos < next <= toks.len() {
                spec_parse_arg_chain(
                    toks,
                    next,
                    env,
                    TermX::Application { function: Box::new(acc), arguments: ts },
                )
            } else {
                Parsed::Fail
            }
        },
    }
}

/// Parse one parenthesised argument list, if one starts here.
pub open spec fn spec_parse_argument_list(toks: Seq<TokenX>, pos: int, env: Seq<Seq<u8>>) -> ParsedArgs
    decreases toks.len() - pos, 15int,
{
    if 0 <= pos < toks.len() && toks[pos] == TokenX::LeftParenthesis {
        match spec_parse_term_list(toks, pos + 1, env) {
            ParsedList::Done { ts, next } => ParsedArgs::More { ts, next },
            ParsedList::Fail => ParsedArgs::Fail,
        }
    } else {
        ParsedArgs::Stop
    }
}

/// Parse a comma-separated list of terms closed by `)`; the list may be
/// empty and may carry a trailing comma.
pub open spec fn spec_parse_term_list(toks: Seq<TokenX>, pos: int, env: Seq<Seq<u8>>) -> ParsedList
    decreases toks.len() - pos, 30int,
{
    if 0 <= pos < toks.len() && toks[pos] == TokenX::RightParenthesis {
        ParsedList::Done { ts: Seq::empty(), next: pos + 1 }
    } else {
        spec_parse_term_list_elems(toks, pos, env)
    }
}

/// Parse the non-empty tail of a term list: an element, then either a
/// comma (possibly trailing) or the closing parenthesis.
pub open spec fn spec_parse_term_list_elems(toks: Seq<TokenX>, pos: int, env: Seq<Seq<u8>>) -> ParsedList
    decreases toks.len() - pos, 29int,
{
    match spec_parse_term(toks, pos, env) {
        Parsed::Fail => ParsedList::Fail,
        Parsed::Done { t, next } => {
            if next < toks.len() && toks[next] == TokenX::Comma {
                if next + 1 < toks.len() && toks[next + 1] == TokenX::RightParenthesis {
                    ParsedList::Done { ts: Seq::empty().push(t), next: next + 2 }
                } else if pos < next + 1 <= toks.len() {
                    match spec_parse_term_list_elems(toks, next + 1, env) {
                        ParsedList::Done { ts, next: after } => ParsedList::Done {
                            ts: Seq::empty().push(t) + ts,
                            next: after,
                        },
                        ParsedList::Fail => ParsedList::Fail,
                    }
                } else {
                    ParsedList::Fail
                }
            } else if next < toks.len() && toks[next] == TokenX::RightParenthesis {
                ParsedList::Done { ts: Seq::empty().push(t), next: next + 1 }
            } else {
                ParsedList::Fail
            }
        },
    }
}

/// Parse a primary term.
pub open spec fn spec_parse_term_1(toks: Seq<TokenX>, pos: int, env: Seq<Seq<u8>>) -> Parsed
    decreases toks.len() - pos, 7int,
{
    if !(0 <= pos < toks.len()) {
        Parsed::Fail
    } else {
        match toks[pos] {
            TokenX::Pipe => {
                match spec_parse_params(toks, pos + 1) {
                    ParsedParams::Done { ps, next } => {
                        if ps.len() >= 1 && ps.len() + env.len() <= 0xFFFF_FFFF && pos < next
                            <= toks.len() {
                            let env2 = param_names(ps).reverse() + env;
                            match spec_parse_term(toks, next, env2) {
                                Parsed::Done { t: body, next: after } => Parsed::Done {
                                    t: TermX::Lambda { parameters: ps, body: Box::new(body) },
                                    next: after,
                                },
                                Parsed::Fail => Parsed::Fail,
                            }
                        } else {
                            Parsed::Fail
                        }
                    },
                    ParsedParams::Fail => Parsed::Fail,
                }
            },
            TokenX::LeftParenthesis => {
                match spec_parse_term(toks, pos + 1, env) {
                    Parsed::Done { t, next } => {
                        if next < toks.len() && toks[next] == TokenX::RightParenthesis {
                            Parsed::Done { t, next: next + 1 }
                        } else {
                            Parsed::Fail
                        }
                    },
                    Parsed::Fail => Parsed::Fail,
                }
            },
            TokenX::Integer(v) => Parsed::Done { t: TermX::Integer { value: v }, next: pos + 1 },
            TokenX::Str(bytes) => Parsed::Done { t: TermX::String { bytes }, next: pos + 1 },
            TokenX::Identifier(name) => {
                match scope_lookup(env, name) {
                    Some(i) => Parsed::Done { t: TermX::Variable { index: i }, next: pos + 1 },
                    None => Parsed::Done { t: TermX::Symbol { name }, next: pos + 1 },
                }
            },
            _ => Parsed::Fail,
        }
    }
}

/// The names of a parameter list, in written order.
pub open spec fn param_names(ps: Seq<ParameterX>) -> Seq<Seq<u8>> {
    ps.map_values(|p: ParameterX| p.name)
}

/// Parse a lambda's parameter list, closed by `|`; the list may be empty
/// here and may carry a trailing comma.
pub open spec fn spec_parse_params(toks: Seq<TokenX>, pos: int) -> ParsedParams
    decreases toks.len() - pos, 30int,
{
    if 0 <= pos < toks.len() && toks[pos] == TokenX::Pipe {
        ParsedParams::Done { ps: Seq::empty(), next: pos + 1 }
    } else {
        spec_parse_params_elems(toks, pos)
    }
}

/// Parse the non-empty tail of a parameter list.
pub open spec fn spec_parse_params_elems(toks: Seq<TokenX>, pos: int) -> ParsedParams
    decreases toks.len() - pos, 29int,
{
    match spec_parse_parameter(toks, pos) {
        ParsedParam::Fail => ParsedParams::Fail,
        ParsedParam::Done { p, next } => {
            if next < toks.len() && toks[next] == TokenX::Comma {
                if next + 1 < toks.len() && toks[next + 1] == TokenX::Pipe {
                    ParsedParams::Done { ps: Seq::empty().push(p), next: next + 2 }
                } else if pos < next + 1 <= toks.len() {
                    match spec_parse_params_elems(toks, next + 1) {
                        ParsedParams::Done { ps, next: after } => ParsedParams::Done {
                            ps: Seq::empty().push(p) + ps,
                            next: after,
                        },
                        ParsedParams::Fail => ParsedParams::Fail,
                    }
                } else {
                    ParsedParams::Fail
                }
            } else if next < toks.len() && toks[next] == TokenX::Pipe {
                ParsedParams::Done { ps: Seq::empty().push(p), next: next + 1 }
            } else {
                ParsedParams::Fail
            }
        },
    }
}

/// Parse one parameter: an optional `~` for non-strictness, then its name.
pub open spec fn spec_parse_parameter(toks: Seq<TokenX>, pos: int) -> ParsedParam {
    let strict = if 0 <= pos < toks.len() && toks[pos] == TokenX::Tilde {
        Strictness::NonStrict
    } else {
        Strictness::Strict
    };
    let ipos = if 0 <= pos < toks.len() && toks[pos] == TokenX::Tilde {
        pos + 1
    } else {
        pos
    };
    if 0 <= ipos < toks.len() && toks[ipos] is Identifier {
        match toks[ipos] {
            TokenX::Identifier(name) => ParsedParam::Done {
                p: ParameterX { strictness: strict, name },
                next: ipos + 1,
            },
            _ => ParsedParam::Fail,
        }
    } else {
        ParsedParam::Fail
    }
}

/// What every parsing step maintains: the heap only grows, the interner
/// only gains entries, and the token stream itself is untouched.
pub open spec fn parse_frame(
    h1: TermHeap,
    s1: Symbols,
    lex1: Lexer,
    h2: TermHeap,
    s2: Symbols,
    lex2: Lexer,
) -> bool {
    &&& h2.wf()
    &&& s2.wf(h2)
    &&& h2.grown_from(h1)
    &&& s1@.is_prefix_of(s2@)
    &&& lex2.toks() == lex1.toks()
    &&& lex1.at() <= lex2.at() <= lex1.toks().len()
}

/// Parse a term from a token stream.
pub fn parse_term(
    heap: &mut TermHeap,
    symbols: &mut Symbols,
    scope: &Scope,
    lex: &mut Lexer,
) -> (r: Result<Term, Error>)
    requires
        old(heap).wf(),
        old(symbols).wf(*old(heap)),
        scope.wf(*old(heap)),
        scope@.len() <= 0xFFFF_FFFF,
        0 <= old(lex).at() <= old(lex).toks().len(),
    ensures
        parse_frame(
            *old(heap),
            *old(symbols),
            *old(lex),
            *final(heap),
            *final(symbols),
            *final(lex),
        ),
        ({
            let out = spec_parse_term(
                old(lex).toks(),
                old(lex).at(),
                scope_names(*old(heap), scope@),
            );
            match r {
                Ok(t) => final(heap).has(t) && out == (Parsed::Done {
                    t: final(heap).interp(t),
                    next: final(lex).at(),
                }) && final(lex).at() > old(lex).at(),
                Err(_) => out is Fail,
            }
        }),
    decreases lex.toks().len() - lex.at(), 9int,
{
    let ghost toks = lex.toks();
    let ghost pos0 = lex.at();
    let ghost env = scope_names(*old(heap), scope@);
    let ghost h0 = *heap;
    let ghost s0 = *symbols;
    let mut term = match parse_term_1(heap, symbols, scope, lex) {
        Ok(t) => t,
        Err(e) => {
            return Err(e);
        },
    };
    loop
        invariant
            h0 == *old(heap),
            s0 == *old(symbols),
            toks == old(lex).toks(),
            pos0 == old(lex).at(),
            env == scope_names(h0, scope@),
            scope.wf(h0),
            scope@.len() <= 0xFFFF_FFFF,
            parse_frame(h0, s0, *old(lex), *heap, *symbols, *lex),
            pos0 < lex.at(),
            heap.has(term),
            spec_parse_term(toks, pos0, env) == spec_parse_arg_chain(
                toks,
                lex.at(),
                env,
                heap.interp(term),
            ),
        decreases toks.len() - lex.at(),
    {
        let ghost hprev = *heap;
        let ghost accx = heap.interp(term);
        proof {
            assert(scope.wf(*heap));
            crate::scope::lemma_scope_names_grow(h0, *heap, scope@);
        }
        match parse_argument_list(heap, symbols, scope, lex) {
            Err(e) => {
                return Err(e);
            },
            Ok(None) => {
                return Ok(term);
            },
            Ok(Some(args)) => {
                let ghost argsx = crate::term::interp_each(*heap, args@);
                let ghost hmid = *heap;
                let t2 = Term::application(heap, term, args);
                proof {
                    crate::symbol::lemma_symbols_wf_grow(*symbols, hmid, *heap);
                    crate::term::lemma_grown_trans(h0, hmid, *heap);
                    assert(interp_at(hmid@, term.id()) == interp_at(hprev@, term.id()));
                    assert(heap.interp(t2) == (TermX::Application {
                        function: Box::new(accx),
                        arguments: argsx,
                    }));
                }
                term = t2;
            },
        }
    }
}

/// Parse a primary term: a lambda, a parenthesised term, an integer, a
/// string, or an identifier.
fn parse_term_1(
    heap: &mut TermHeap,
    symbols: &mut Symbols,
    scope: &Scope,
    lex: &mut Lexer,
) -> (r: Result<Term, Error>)
    requires
        old(heap).wf(),
        old(symbols).wf(*old(heap)),
        scope.wf(*old(heap)),
        scope@.len() <= 0xFFFF_FFFF,
        0 <= old(lex).at() <= old(lex).toks().len(),
    ensures
        parse_frame(
            *old(heap),
            *old(symbols),
            *old(lex),
            *final(heap),
            *final(symbols),
            *final(lex),
        ),
        ({
            let out = spec_parse_term_1(
                old(lex).toks(),
                old(lex).at(),
                scope_names(*old(heap), scope@),
            );
            match r {
                Ok(t) => final(heap).has(t) && out == (Parsed::Done {
                    t: final(heap).interp(t),
                    next: final(lex).at(),
                }) && final(lex).at() > old(lex).at(),
                Err(_) => out is Fail,
            }
        }),
    decreases lex.toks().len() - lex.at(), 7int,
{
    let ghost toks = lex.toks();
    let ghost pos0 = lex.at();
    let ghost env = scope_names(*old(heap), scope@);
    let ghost h0 = *heap;
    let ghost s0 = *symbols;
    let next = lex.next();
    match next {
        None => Err(Error),
        Some(Token::Pipe) => {
            let parameters = match parse_comma_params(heap, symbols, lex) {
                Ok(ps) => ps,
                Err(e) => {
                    return Err(e);
                },
            };
            let ghost psx = crate::term::interp_params(heap@, parameters@);
            if parameters.len() == 0 {
                return Err(Error);
            }
            let total: u128 = parameters.len() as u128 + scope.depth() as u128;
            if total > 0xFFFF_FFFFu128 {
                return Err(Error);
            }
            // Bind the parameters, leftmost outermost.
            let mut names: Vec<crate::symbol::Symbol> = Vec::new();
            let mut k: usize = 0;
            while k < parameters.len()
                invariant
                    k <= parameters@.len(),
                    names@.len() == k,
                    forall|j: int| 0 <= j < k ==> names@[j] == (#[trigger] parameters@[j]).name,
                decreases parameters@.len() - k,
            {
                names.push(parameters[k].name);
                k = k + 1;
            }
            let child = Scope::new(Some(scope), names);
            let ghost h1 = *heap;
            let ghost env2 = scope_names(h1, child@);
            proof {
                assert(scope.wf(h1));
                crate::scope::lemma_scope_names_grow(h0, h1, scope@);
                assert forall|k: int| 0 <= k < child@.len() implies crate::term::is_symbol_at(
                    h1@,
                    (#[trigger] child@[k]).id(),
                ) by {
                    if k < parameters@.len() {
                        assert(child@[k] == parameters@[parameters@.len() - 1 - k].name);
                    } else {
                        assert(child@[k] == scope@[k - parameters@.len()]);
                    }
                }
                assert(child.wf(h1));
                assert forall|k: int| 0 <= k < child@.len() implies scope_names(h1, child@)[k]
                    == (param_names(psx).reverse() + env)[k] by {
                    if k < parameters@.len() {
                        assert(child@[k] == parameters@[parameters@.len() - 1 - k].name);
                        assert(param_names(psx).reverse()[k] == psx[parameters@.len() - 1
                            - k].name);
                    } else {
                        assert(child@[k] == scope@[k - parameters@.len()]);
                    }
                }
                assert(env2 =~= param_names(psx).reverse() + env);
            }
            let body = match parse_term(heap, symbols, &child, lex) {
                Ok(b) => b,
                Err(e) => {
                    return Err(e);
                },
            };
            let ghost bodyx = heap.interp(body);
            let ghost params_snap = parameters@;
            let ghost h2 = *heap;
            proof {
                assert forall|j: int| 0 <= j < params_snap.len() implies crate::term::is_symbol_at(
                    heap@,
                    (#[trigger] params_snap[j]).name.id(),
                ) by {
                    assert(h1@[params_snap[j].name.id()] == heap@.subrange(
                        0,
                        h1@.len() as int,
                    )[params_snap[j].name.id()]);
                }
            }
            let t = Term::lambda(heap, parameters, body);
            proof {
                crate::symbol::lemma_symbols_wf_grow(*symbols, h2, *heap);
                crate::term::lemma_grown_trans(h0, h1, h2);
                crate::term::lemma_grown_trans(h0, h2, *heap);
                assert(crate::term::interp_params(h2@, params_snap) =~= psx) by {
                    assert forall|j: int|
                        0 <= j < params_snap.len() implies crate::term::symbol_name_at(
                        h2@,
                        params_snap[j].name.id(),
                    ) == crate::term::symbol_name_at(h1@, params_snap[j].name.id()) by {
                        let nid = params_snap[j].name.id();
                        assert(h1@[nid] == h2@.subrange(0, h1@.len() as int)[nid]);
                    }
                }
                assert(heap.interp(t) == (TermX::Lambda {
                    parameters: psx,
                    body: Box::new(bodyx),
                }));
            }
            Ok(t)
        },
        Some(Token::LeftParenthesis) => {
            let t = match parse_term(heap, symbols, scope, lex) {
                Ok(t) => t,
                Err(e) => {
                    return Err(e);
                },
            };
            if lex.done() {
                return Err(Error);
            }
            let closing = match lex.peek_ref() {
                Token::RightParenthesis => true,
                _ => false,
            };
            if closing {
                lex.advance();
                Ok(t)
            } else {
                Err(Error)
            }
        },
        Some(Token::Integer(value)) => {
            let t = Term::integer_i32(heap, value);
            proof {
                crate::symbol::lemma_symbols_wf_grow(*symbols, h0, *heap);
            }
            Ok(t)
        },
        Some(Token::String(bytes)) => {
            let t = Term::string(heap, bytes);
            proof {
                crate::symbol::lemma_symbols_wf_grow(*symbols, h0, *heap);
            }
            Ok(t)
        },
        Some(Token::Identifier(bytes)) => {
            let name = symbols.get(heap, bytes.as_slice());
            proof {
                assert(scope.wf(*heap));
                crate::scope::lemma_scope_names_grow(h0, *heap, scope@);
                crate::scope::lemma_scope_lookup_range(env, bytes@);
            }
            let resolved = scope.get(heap, symbols, &name);
            match resolved {
                Some(de_bruijn) => {
                    let ghost h1 = *heap;
                    let t = Term::variable(heap, de_bruijn);
                    proof {
                        crate::symbol::lemma_symbols_wf_grow(*symbols, h1, *heap);
                        crate::term::lemma_grown_trans(h0, h1, *heap);
                    }
                    Ok(t)
                },
                None => Ok(Term::symbol(name)),
            }
        },
        Some(Token::Error) => Err(Error),
        Some(Token::Comma) => Err(Error),
        Some(Token::Tilde) => Err(Error),
        Some(Token::RightParenthesis) => Err(Error),
    }
}

/// Parse one argument list, if the next token opens one.
///
/// `Ok(None)` means there is no argument list here; `Ok(Some(args))` hands
/// back the parsed arguments.
pub fn parse_argument_list(
    heap: &mut TermHeap,
    symbols: &mut Symbols,
    scope: &Scope,
    lex: &mut Lexer,
) -> (r: Result<Option<Vec<Term>>, Error>)
    requires
        old(heap).wf(),
        old(symbols).wf(*old(heap)),
        scope.wf(*old(heap)),
        scope@.len() <= 0xFFFF_FFFF,
        0 <= old(lex).at() <= old(lex).toks().len(),
    ensures
        parse_frame(
            *old(heap),
            *old(symbols),
            *old(lex),
            *final(heap),
            *final(symbols),
            *final(lex),
        ),
        ({
            let out = spec_parse_argument_list(
                old(lex).toks(),
                old(lex).at(),
                scope_names(*old(heap), scope@),
            );
            match r {
                Ok(None) => out is Stop && *final(heap) == *old(heap) && *final(symbols) == *old(
                    symbols,
                ) && final(lex).at() == old(lex).at(),
                Ok(Some(args)) => (forall|k: int|
                    0 <= k < args@.len() ==> final(heap).has(#[trigger] args@[k])) && out == (
                ParsedArgs::More {
                    ts: crate::term::interp_each(*final(heap), args@),
                    next: final(lex).at(),
                }) && final(lex).at() > old(lex).at(),
                Err(_) => out is Fail,
            }
        }),
    decreases lex.toks().len() - lex.at(), 15int,
{
    if lex.done() {
        return Ok(None);
    }
    let open = match lex.peek_ref() {
        Token::LeftParenthesis => true,
        _ => false,
    };
    if !open {
        return Ok(None);
    }
    lex.advance();
    match parse_comma_terms(heap, symbols, scope, lex) {
        Ok(args) => Ok(Some(args)),
        Err(e) => Err(e),
    }
}

/// Parse a comma-separated list of terms closed by `)`.
fn parse_comma_terms(
    heap: &mut TermHeap,
    symbols: &mut Symbols,
    scope: &Scope,
    lex: &mut Lexer,
) -> (r: Result<Vec<Term>, Error>)
    requires
        old(heap).wf(),
        old(symbols).wf(*old(heap)),
        scope.wf(*old(heap)),
        scope@.len() <= 0xFFFF_FFFF,
        0 <= old(lex).at() <= old(lex).toks().len(),
    ensures
        parse_frame(
            *old(heap),
            *old(symbols),
            *old(lex),
            *final(heap),
            *final(symbols),
            *final(lex),
        ),
        ({
            let out = spec_parse_term_list(
                old(lex).toks(),
                old(lex).at(),
                scope_names(*old(heap), scope@),
            );
            match r {
                Ok(args) => (forall|k: int|
                    0 <= k < args@.len() ==> final(heap).has(#[trigger] args@[k])) && out == (
                ParsedList::Done {
                    ts: crate::term::interp_each(*final(heap), args@),
                    next: final(lex).at(),
                }) && final(lex).at() > old(lex).at(),
                Err(_) => out is Fail,
            }
        }),
    decreases lex.toks().len() - lex.at(), 30int,
{
    let ghost toks = lex.toks();
    let ghost pos0 = lex.at();
    let ghost env = scope_names(*old(heap), scope@);
    let ghost h0 = *heap;
    let ghost s0 = *symbols;
    if !lex.done() {
        let closed = match lex.peek_ref() {
            Token::RightParenthesis => true,
            _ => false,
        };
        if closed {
            lex.advance();
            let r: Vec<Term> = Vec::new();
            proof {
                assert(crate::term::interp_each(*heap, r@) =~= Seq::<TermX>::empty());
            }
            return Ok(r);
        }
    }
    let mut elements: Vec<Term> = Vec::new();
    loop
        invariant
            h0 == *old(heap),
            s0 == *old(symbols),
            toks == old(lex).toks(),
            pos0 == old(lex).at(),
            env == scope_names(h0, scope@),
            scope.wf(h0),
            scope@.len() <= 0xFFFF_FFFF,
            parse_frame(h0, s0, *old(lex), *heap, *symbols, *lex),
            pos0 <= lex.at(),
            forall|k: int| 0 <= k < elements@.len() ==> heap.has(#[trigger] elements@[k]),
            spec_parse_term_list(toks, pos0, env) == (match spec_parse_term_list_elems(
                toks,
                lex.at(),
                env,
            ) {
                ParsedList::Done { ts, next } => ParsedList::Done {
                    ts: crate::term::interp_each(*heap, elements@) + ts,
                    next,
                },
                ParsedList::Fail => ParsedList::Fail,
            }),
        decreases toks.len() - lex.at(),
    {
        let ghost hprev = *heap;
        let ghost elemsx = crate::term::interp_each(*heap, elements@);
        proof {
            assert(scope.wf(*heap));
            crate::scope::lemma_scope_names_grow(h0, *heap, scope@);
        }
        let element = match parse_term(heap, symbols, scope, lex) {
            Ok(t) => t,
            Err(e) => {
                return Err(e);
            },
        };
        let ghost tx = heap.interp(element);
        proof {
            assert forall|k: int| 0 <= k < elements@.len() implies heap.has(
                #[trigger] elements@[k],
            ) && interp_at(heap@, elements@[k].id()) == interp_at(hprev@, elements@[k].id()) by {
            }
            assert(crate::term::interp_each(*heap, elements@) =~= elemsx);
        }
        elements.push(element);
        proof {
            assert(crate::term::interp_each(*heap, elements@) =~= elemsx.push(tx));
        }
        if lex.done() {
            return Err(Error);
        }
        let after_comma = match lex.peek_ref() {
            Token::Comma => true,
            _ => false,
        };
        if after_comma {
            lex.advance();
            let mut trailing = false;
            if !lex.done() {
                trailing = match lex.peek_ref() {
                    Token::RightParenthesis => true,
                    _ => false,
                };
            }
            if trailing {
                lex.advance();
                proof {
                    assert(crate::term::interp_each(*heap, elements@) + (Seq::empty().push(
                        tx,
                    )).skip(1) =~= crate::term::interp_each(*heap, elements@));
                    assert(elemsx + (Seq::empty().push(tx)) =~= crate::term::interp_each(
                        *heap,
                        elements@,
                    ));
                }
                return Ok(elements);
            }
            // Another element follows.
            proof {
                assert forall|ts2: Seq<TermX>| true implies elemsx + (Seq::empty().push(tx)
                    + ts2) == crate::term::interp_each(*heap, elements@) + ts2 by {
                    assert(elemsx + (Seq::empty().push(tx) + ts2) =~= crate::term::interp_each(
                        *heap,
                        elements@,
                    ) + ts2);
                }
            }
        } else {
            let closed = match lex.peek_ref() {
                Token::RightParenthesis => true,
                _ => false,
            };
            if closed {
                lex.advance();
                proof {
                    assert(elemsx + (Seq::empty().push(tx)) =~= crate::term::interp_each(
                        *heap,
                        elements@,
                    ));
                }
                return Ok(elements);
            }
            return Err(Error);
        }
    }
}

/// Parse a lambda's parameter list, closed by `|`.
fn parse_comma_params(heap: &mut TermHeap, symbols: &mut Symbols, lex: &mut Lexer) -> (r: Result<
    Vec<Parameter>,
    Error,
>)
    requires
        old(heap).wf(),
        old(symbols).wf(*old(heap)),
        0 <= old(lex).at() <= old(lex).toks().len(),
    ensures
        parse_frame(
            *old(heap),
            *old(symbols),
            *old(lex),
            *final(heap),
            *final(symbols),
            *final(lex),
        ),
        ({
            let out = spec_parse_params(old(lex).toks(), old(lex).at());
            match r {
                Ok(ps) => (forall|k: int|
                    0 <= k < ps@.len() ==> crate::term::is_symbol_at(
                        final(heap)@,
                        (#[trigger] ps@[k]).name.id(),
                    )) && out == (ParsedParams::Done {
                    ps: crate::term::interp_params(final(heap)@, ps@),
                    next: final(lex).at(),
                }) && final(lex).at() > old(lex).at(),
                Err(_) => out is Fail,
            }
        }),
{
    let ghost toks = lex.toks();
    let ghost pos0 = lex.at();
    let ghost h0 = *heap;
    let ghost s0 = *symbols;
    if !lex.done() {
        let closed = match lex.peek_ref() {
            Token::Pipe => true,
            _ => false,
        };
        if closed {
            lex.advance();
            let r: Vec<Parameter> = Vec::new();
            proof {
                assert(crate::term::interp_params(heap@, r@) =~= Seq::<ParameterX>::empty());
            }
            return Ok(r);
        }
    }
    let mut elements: Vec<Parameter> = Vec::new();
    loop
        invariant
            h0 == *old(heap),
            s0 == *old(symbols),
            toks == old(lex).toks(),
            pos0 == old(lex).at(),
            parse_frame(h0, s0, *old(lex), *heap, *symbols, *lex),
            pos0 <= lex.at(),
            forall|k: int|
                0 <= k < elements@.len() ==> crate::term::is_symbol_at(
                    heap@,
                    (#[trigger] elements@[k]).name.id(),
                ),
            spec_parse_params(toks, pos0) == (match spec_parse_params_elems(toks, lex.at()) {
                ParsedParams::Done { ps, next } => ParsedParams::Done {
                    ps: crate::term::interp_params(heap@, elements@) + ps,
                    next,
                },
                ParsedParams::Fail => ParsedParams::Fail,
            }),
        decreases toks.len() - lex.at(),
    {
        let ghost hprev = *heap;
        let ghost elemsx = crate::term::interp_params(heap@, elements@);
        let element = match parse_parameter(heap, symbols, lex) {
            Ok(p) => p,
            Err(e) => {
                return Err(e);
            },
        };
        let ghost px = ParameterX {
            strictness: element.strictness,
            name: crate::term::symbol_name_at(heap@, element.name.id()),
        };
        proof {
            assert forall|k: int| 0 <= k < elements@.len() implies crate::term::is_symbol_at(
                heap@,
                (#[trigger] elements@[k]).name.id(),
            ) && crate::term::symbol_name_at(heap@, elements@[k].name.id())
                == crate::term::symbol_name_at(hprev@, elements@[k].name.id()) by {
                let nid = elements@[k].name.id();
                assert(hprev@[nid] == heap@.subrange(0, hprev@.len() as int)[nid]);
            }
            assert(crate::term::interp_params(heap@, elements@) =~= elemsx);
        }
        elements.push(element);
        proof {
            assert(crate::term::interp_params(heap@, elements@) =~= elemsx.push(px));
        }
        if lex.done() {
            return Err(Error);
        }
        let after_comma = match lex.peek_ref() {
            Token::Comma => true,
            _ => false,
        };
        if after_comma {
            lex.advance();
            let mut trailing = false;
            if !lex.done() {
                trailing = match lex.peek_ref() {
                    Token::Pipe => true,
                    _ => false,
                };
            }
            if trailing {
                lex.advance();
                proof {
                    assert(elemsx + (Seq::empty().push(px)) =~= crate::term::interp_params(
                        heap@,
                        elements@,
                    ));
                }
                return Ok(elements);
            }
            proof {
                assert forall|ps2: Seq<ParameterX>| true implies elemsx + (Seq::empty().push(px)
                    + ps2) == crate::term::interp_params(heap@, elements@) + ps2 by {
                    assert(elemsx + (Seq::empty().push(px) + ps2) =~= crate::term::interp_params(
                        heap@,
                        elements@,
                    ) + ps2);
                }
            }
        } else {
            let closed = match lex.peek_ref() {
                Token::Pipe => true,
                _ => false,
            };
            if closed {
                lex.advance();
                proof {
                    assert(elemsx + (Seq::empty().push(px)) =~= crate::term::interp_params(
                        heap@,
                        elements@,
                    ));
                }
                return Ok(elements);
            }
            return Err(Error);
        }
    }
}

/// Parse one parameter: the strictness mark, then the name.
fn parse_parameter(heap: &mut TermHeap, symbols: &mut Symbols, lex: &mut Lexer) -> (r: Result<
    Parameter,
    Error,
>)
    requires
        old(heap).wf(),
        old(symbols).wf(*old(heap)),
        0 <= old(lex).at() <= old(lex).toks().len(),
    ensures
        parse_frame(
            *old(heap),
            *old(symbols),
            *old(lex),
            *final(heap),
            *final(symbols),
            *final(lex),
        ),
        ({
            let out = spec_parse_parameter(old(lex).toks(), old(lex).at());
            match r {
                Ok(p) => crate::term::is_symbol_at(final(heap)@, p.name.id()) && out == (
                ParsedParam::Done {
                    p: ParameterX {
                        strictness: p.strictness,
                        name: crate::term::symbol_name_at(final(heap)@, p.name.id()),
                    },
                    next: final(lex).at(),
                }) && final(lex).at() > old(lex).at(),
                Err(_) => out is Fail,
            }
        }),
{
    let strictness = parse_strictness(lex);
    let next = lex.next();
    match next {
        Some(Token::Identifier(bytes)) => {
            let name = symbols.get(heap, bytes.as_slice());
            Ok(Parameter { strictness, name })
        },
        _ => Err(Error),
    }
}

/// Consume an optional `~`: a parameter marked with it is non-strict.
fn parse_strictness(lex: &mut Lexer) -> (r: Strictness)
    requires
        0 <= old(lex).at() <= old(lex).toks().len(),
    ensures
        final(lex).toks() == old(lex).toks(),
        ({
            let tilde = 0 <= old(lex).at() < old(lex).toks().len() && old(lex).toks()[old(
                lex,
            ).at()] == TokenX::Tilde;
            if tilde {
                r == Strictness::NonStrict && final(lex).at() == old(lex).at() + 1
            } else {
                r == Strictness::Strict && final(lex).at() == old(lex).at()
            }
        }),
{
    if lex.done() {
        return Strictness::Strict;
    }
    let tilde = match lex.peek_ref() {
        Token::Tilde => true,
        _ => false,
    };
    if tilde {
        lex.advance();
        Strictness::NonStrict
    } else {
        Strictness::Strict
    }
}

} // verus!
