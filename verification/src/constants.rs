//! Heap-allocated objects that are used throughout the simplifier.
//!
//! The objects are created once and then reused whenever needed, which
//! keeps ubiquitous values shared: every handler that returns "the integer
//! one" returns the same allocation.

#![allow(non_snake_case)]

use vstd::prelude::*;
use vstd::view::View as ViewTrait;
use crate::lambda::Parameter;
use crate::lambda::Strictness;
use crate::symbol::Symbol;
use crate::symbol::Symbols;
use crate::term::ParameterX;
use crate::term::Term;
use crate::term::TermHeap;
use crate::term::TermX;
use crate::term::interp_at;
use crate::term::interp_params;
use crate::term::is_symbol_at;
use crate::term::symbol_name_at;
use crate::variable::DeBruijn;

verus! {

broadcast use vstd::seq::group_seq_axioms;

/// The name bytes of `Antiderivative`.
pub open spec fn name_antiderivative() -> Seq<u8> {
    seq![65u8, 110u8, 116u8, 105u8, 100u8, 101u8, 114u8, 105u8, 118u8, 97u8, 116u8, 105u8, 118u8, 101u8]
}

/// The name bytes of `Derivative`.
pub open spec fn name_derivative() -> Seq<u8> {
    seq![68u8, 101u8, 114u8, 105u8, 118u8, 97u8, 116u8, 105u8, 118u8, 101u8]
}

/// The name bytes of `Add`.
pub open spec fn name_add() -> Seq<u8> {
    seq![65u8, 100u8, 100u8]
}

/// The name bytes of `Ln`.
pub open spec fn name_ln() -> Seq<u8> {
    seq![76u8, 110u8]
}

/// The name bytes of `Multiply`.
pub open spec fn name_multiply() -> Seq<u8> {
    seq![77u8, 117u8, 108u8, 116u8, 105u8, 112u8, 108u8, 121u8]
}

/// The name bytes of `Power`.
pub open spec fn name_power() -> Seq<u8> {
    seq![80u8, 111u8, 119u8, 101u8, 114u8]
}

/// The name bytes of `Cos`.
pub open spec fn name_cos() -> Seq<u8> {
    seq![67u8, 111u8, 115u8]
}

/// The name bytes of `Sin`.
pub open spec fn name_sin() -> Seq<u8> {
    seq![83u8, 105u8, 110u8]
}

/// The name bytes of `Tan`.
pub open spec fn name_tan() -> Seq<u8> {
    seq![84u8, 97u8, 110u8]
}

/// The name bytes of `E`.
pub open spec fn name_e() -> Seq<u8> {
    seq![69u8]
}

/// The name bytes of `Pi`.
pub open spec fn name_pi() -> Seq<u8> {
    seq![80u8, 105u8]
}

/// The name bytes of `x`.
pub open spec fn name_x() -> Seq<u8> {
    seq![120u8]
}

/// The tree of the canonical lambda `|x| Multiply(-1, Sin(x))`.
pub open spec fn neg_sin_lambda() -> TermX {
    TermX::Lambda {
        parameters: seq![ParameterX { strictness: Strictness::Strict, name: name_x() }],
        body: Box::new(
            TermX::Application {
                function: Box::new(TermX::Symbol { name: name_multiply() }),
                arguments: seq![
                    TermX::Integer { value: -1 },
                    TermX::Application {
                        function: Box::new(TermX::Symbol { name: name_sin() }),
                        arguments: seq![TermX::Variable { index: 0 }],
                    },
                ],
            },
        ),
    }
}

/// Heap-allocated constants shared by the whole simplifier.
///
/// Integers are named after their values (with `neg_` if negative),
/// parameter lists after their parameters (`s` strict, `n` non-strict),
/// symbols after the name they intern, and variables after their index.
#[allow(missing_docs)]
pub struct Constants {
    pub integer_neg_1: Term,
    pub integer_0: Term,
    pub integer_1: Term,
    pub parameters_sx: Vec<Parameter>,
    pub parameters_nx: Vec<Parameter>,
    pub Antiderivative: Symbol,
    pub Derivative: Symbol,
    pub Add: Symbol,
    pub Ln: Symbol,
    pub Multiply: Symbol,
    pub Power: Symbol,
    pub Cos: Symbol,
    pub Sin: Symbol,
    pub Tan: Symbol,
    pub E: Symbol,
    pub Pi: Symbol,
    pub x: Symbol,
    pub variable_0: Term,
    /// The lambda `|x| Multiply(-1, Sin(x))`, the derivative of `Cos`.
    pub lambda_neg_Sin: Term,
}

/// One interned symbol constant with its expected name.
pub open spec fn symbol_wf(s: Symbol, heap: TermHeap, name: Seq<u8>) -> bool {
    &&& is_symbol_at(heap@, s.id())
    &&& symbol_name_at(heap@, s.id()) == name
}

/// What the constants table promises about its contents.
pub open spec fn constants_wf(c: Constants, heap: TermHeap) -> bool {
    &&& symbol_wf(c.Antiderivative, heap, name_antiderivative())
    &&& symbol_wf(c.Derivative, heap, name_derivative())
    &&& symbol_wf(c.Add, heap, name_add())
    &&& symbol_wf(c.Ln, heap, name_ln())
    &&& symbol_wf(c.Multiply, heap, name_multiply())
    &&& symbol_wf(c.Power, heap, name_power())
    &&& symbol_wf(c.Cos, heap, name_cos())
    &&& symbol_wf(c.Sin, heap, name_sin())
    &&& symbol_wf(c.Tan, heap, name_tan())
    &&& symbol_wf(c.E, heap, name_e())
    &&& symbol_wf(c.Pi, heap, name_pi())
    &&& symbol_wf(c.x, heap, name_x())
    &&& heap.has(c.integer_neg_1) && heap.interp(c.integer_neg_1) == (TermX::Integer {
        value: -1,
    })
    &&& heap.has(c.integer_0) && heap.interp(c.integer_0) == (TermX::Integer { value: 0 })
    &&& heap.has(c.integer_1) && heap.interp(c.integer_1) == (TermX::Integer { value: 1 })
    &&& heap.has(c.variable_0) && heap.interp(c.variable_0) == (TermX::Variable { index: 0 })
    &&& c.parameters_sx@.len() == 1
    &&& is_symbol_at(heap@, c.parameters_sx@[0].name.id())
    &&& interp_params(heap@, c.parameters_sx@) == seq![
        ParameterX { strictness: Strictness::Strict, name: name_x() },
    ]
    &&& c.parameters_nx@.len() == 1
    &&& is_symbol_at(heap@, c.parameters_nx@[0].name.id())
    &&& interp_params(heap@, c.parameters_nx@) == seq![
        ParameterX { strictness: Strictness::NonStrict, name: name_x() },
    ]
    &&& heap.has(c.lambda_neg_Sin) && heap.interp(c.lambda_neg_Sin) == neg_sin_lambda()
}

/// A symbol constant keeps its name when the heap grows.
pub broadcast proof fn lemma_symbol_wf_grow(s: Symbol, h1: TermHeap, h2: TermHeap, name: Seq<u8>)
    requires
        #[trigger] symbol_wf(s, h1, name),
        #[trigger] h2.grown_from(h1),
    ensures
        symbol_wf(s, h2, name),
{
    assert(h1@[s.id()] == h2@.subrange(0, h1@.len() as int)[s.id()]);
}

/// The whole constants table keeps its meaning when the heap grows.
pub proof fn lemma_constants_wf_grow(c: Constants, h1: TermHeap, h2: TermHeap)
    requires
        constants_wf(c, h1),
        h2.grown_from(h1),
    ensures
        constants_wf(c, h2),
{
    broadcast use lemma_symbol_wf_grow;

    assert(h1@[c.parameters_sx@[0].name.id()] == h2@.subrange(
        0,
        h1@.len() as int,
    )[c.parameters_sx@[0].name.id()]);
    assert(h1@[c.parameters_nx@[0].name.id()] == h2@.subrange(
        0,
        h1@.len() as int,
    )[c.parameters_nx@[0].name.id()]);
    assert(interp_params(h2@, c.parameters_sx@) =~= interp_params(h1@, c.parameters_sx@));
    assert(interp_params(h2@, c.parameters_nx@) =~= interp_params(h1@, c.parameters_nx@));
    assert(interp_at(h2@, c.integer_neg_1.id()) == interp_at(h1@, c.integer_neg_1.id()));
    assert(interp_at(h2@, c.integer_0.id()) == interp_at(h1@, c.integer_0.id()));
    assert(interp_at(h2@, c.integer_1.id()) == interp_at(h1@, c.integer_1.id()));
    assert(interp_at(h2@, c.variable_0.id()) == interp_at(h1@, c.variable_0.id()));
    assert(interp_at(h2@, c.lambda_neg_Sin.id()) == interp_at(h1@, c.lambda_neg_Sin.id()));
}

impl Constants {
    /// Intern a list of names, returning their canonical symbols in order.
    fn intern_all(heap: &mut TermHeap, symbols: &mut Symbols, names: Vec<Vec<u8>>) -> (out: Vec<
        Symbol,
    >)
        requires
            old(heap).wf(),
            old(symbols).wf(*old(heap)),
        ensures
            final(heap).wf(),
            final(symbols).wf(*final(heap)),
            final(heap).grown_from(*old(heap)),
            old(symbols)@.is_prefix_of(final(symbols)@),
            out@.len() == names@.len(),
            forall|j: int|
                0 <= j < names@.len() ==> symbol_wf(out@[j], *final(heap), (#[trigger] names@[j])@),
    {
        let mut out: Vec<Symbol> = Vec::new();
        let mut i: usize = 0;
        proof {
            crate::term::lemma_grown_refl(*heap);
        }
        while i < names.len()
            invariant
                heap.wf(),
                symbols.wf(*heap),
                heap.grown_from(*old(heap)),
                old(symbols)@.is_prefix_of(symbols@),
                i <= names@.len(),
                out@.len() == i,
                forall|j: int| 0 <= j < i ==> symbol_wf(out@[j], *heap, (#[trigger] names@[j])@),
            decreases names@.len() - i,
        {
            let ghost hprev = *heap;
            let s = symbols.get(heap, names[i].as_slice());
            proof {
                assert forall|j: int| 0 <= j < i implies symbol_wf(
                    out@[j],
                    *heap,
                    (#[trigger] names@[j])@,
                ) by {
                    lemma_symbol_wf_grow(out@[j], hprev, *heap, names@[j]@);
                }
                crate::term::lemma_grown_trans(*old(heap), hprev, *heap);
                assert(old(symbols)@.is_prefix_of(symbols@));
            }
            out.push(s);
            i = i + 1;
        }
        out
    }

    /// Create the table of constants, interning the symbols and allocating
    /// the shared terms.
    pub fn new(heap: &mut TermHeap, symbols: &mut Symbols) -> (c: Constants)
        requires
            old(heap).wf(),
            old(symbols).wf(*old(heap)),
        ensures
            final(heap).wf(),
            final(symbols).wf(*final(heap)),
            final(heap).grown_from(*old(heap)),
            old(symbols)@.is_prefix_of(final(symbols)@),
            constants_wf(c, *final(heap)),
    {
        let mut names: Vec<Vec<u8>> = Vec::new();
        names.push(vec![65u8, 110u8, 116u8, 105u8, 100u8, 101u8, 114u8, 105u8, 118u8, 97u8, 116u8, 105u8, 118u8, 101u8]);
        names.push(vec![68u8, 101u8, 114u8, 105u8, 118u8, 97u8, 116u8, 105u8, 118u8, 101u8]);
        names.push(vec![65u8, 100u8, 100u8]);
        names.push(vec![76u8, 110u8]);
        names.push(vec![77u8, 117u8, 108u8, 116u8, 105u8, 112u8, 108u8, 121u8]);
        names.push(vec![80u8, 111u8, 119u8, 101u8, 114u8]);
        names.push(vec![67u8, 111u8, 115u8]);
        names.push(vec![83u8, 105u8, 110u8]);
        names.push(vec![84u8, 97u8, 110u8]);
        names.push(vec![69u8]);
        names.push(vec![80u8, 105u8]);
        names.push(vec![120u8]);
        proof {
            assert(names@[0]@ =~= name_antiderivative());
            assert(names@[1]@ =~= name_derivative());
            assert(names@[2]@ =~= name_add());
            assert(names@[3]@ =~= name_ln());
            assert(names@[4]@ =~= name_multiply());
            assert(names@[5]@ =~= name_power());
            assert(names@[6]@ =~= name_cos());
            assert(names@[7]@ =~= name_sin());
            assert(names@[8]@ =~= name_tan());
            assert(names@[9]@ =~= name_e());
            assert(names@[10]@ =~= name_pi());
            assert(names@[11]@ =~= name_x());
        }
        let syms = Self::intern_all(heap, symbols, names);
        let Antiderivative = syms[0];
        let Derivative = syms[1];
        let Add = syms[2];
        let Ln = syms[3];
        let Multiply = syms[4];
        let Power = syms[5];
        let Cos = syms[6];
        let Sin = syms[7];
        let Tan = syms[8];
        let E = syms[9];
        let Pi = syms[10];
        let x = syms[11];

        let mut parameters_sx: Vec<Parameter> = Vec::new();
        parameters_sx.push(Parameter { strictness: Strictness::Strict, name: x });
        let mut parameters_nx: Vec<Parameter> = Vec::new();
        parameters_nx.push(Parameter { strictness: Strictness::NonStrict, name: x });

        let ghost h0 = *heap;
        let integer_neg_1 = Term::integer_i32(heap, -1);
        proof {
            crate::symbol::lemma_symbols_wf_grow(*symbols, h0, *heap);
        }
        let ghost h1 = *heap;
        let integer_0 = Term::integer_i32(heap, 0);
        proof {
            crate::symbol::lemma_symbols_wf_grow(*symbols, h1, *heap);
        }
        let ghost h2 = *heap;
        let integer_1 = Term::integer_i32(heap, 1);
        proof {
            crate::symbol::lemma_symbols_wf_grow(*symbols, h2, *heap);
        }
        let ghost h3 = *heap;
        let variable_0 = Term::variable(heap, DeBruijn(0));
        proof {
            crate::symbol::lemma_symbols_wf_grow(*symbols, h3, *heap);
        }
        let ghost h4 = *heap;

        // The canonical lambda |x| Multiply(-1, Sin(x)).
        let mut sin_args: Vec<Term> = Vec::new();
        sin_args.push(variable_0);
        let sin_x = Term::application(heap, Sin.term(), sin_args);
        proof {
            crate::symbol::lemma_symbols_wf_grow(*symbols, h4, *heap);
        }
        let ghost h5 = *heap;
        let mut mul_args: Vec<Term> = Vec::new();
        mul_args.push(integer_neg_1);
        mul_args.push(sin_x);
        let mul = Term::application(heap, Multiply.term(), mul_args);
        proof {
            crate::symbol::lemma_symbols_wf_grow(*symbols, h5, *heap);
        }
        let ghost h6 = *heap;
        let lambda_params = crate::term::copy_vec(&parameters_sx);
        proof {
            lemma_symbol_wf_grow(x, h0, h6, name_x());
        }
        let lambda_neg_Sin = Term::lambda(heap, lambda_params, mul);
        proof {
            crate::symbol::lemma_symbols_wf_grow(*symbols, h6, *heap);
        }
        let ghost h7 = *heap;

        let c = Constants {
            integer_neg_1,
            integer_0,
            integer_1,
            parameters_sx,
            parameters_nx,
            Antiderivative,
            Derivative,
            Add,
            Ln,
            Multiply,
            Power,
            Cos,
            Sin,
            Tan,
            E,
            Pi,
            x,
            variable_0,
            lambda_neg_Sin,
        };
        proof {
            crate::term::lemma_grown_trans(h0, h1, h2);
            crate::term::lemma_grown_trans(h0, h2, h3);
            crate::term::lemma_grown_trans(h0, h3, h4);
            crate::term::lemma_grown_trans(h0, h4, h5);
            crate::term::lemma_grown_trans(h0, h5, h6);
            crate::term::lemma_grown_trans(h0, h6, h7);
            crate::term::lemma_grown_trans(*old(heap), h0, h7);
            broadcast use lemma_symbol_wf_grow;

            assert(symbol_wf(c.x, h7, name_x()));
            assert(interp_params(h7@, c.parameters_sx@) =~= seq![
                ParameterX { strictness: Strictness::Strict, name: name_x() },
            ]);
            assert(interp_params(h7@, c.parameters_nx@) =~= seq![
                ParameterX { strictness: Strictness::NonStrict, name: name_x() },
            ]);
            assert(h7.interp(c.integer_neg_1) == (TermX::Integer { value: -1 }));
            assert(h7.interp(c.integer_0) == (TermX::Integer { value: 0 }));
            assert(h7.interp(c.integer_1) == (TermX::Integer { value: 1 }));
            assert(h7.interp(c.variable_0) == (TermX::Variable { index: 0 }));
            assert(h5.interp(sin_x) == (TermX::Application {
                function: Box::new(TermX::Symbol { name: name_sin() }),
                arguments: seq![TermX::Variable { index: 0 }],
            })) by {
                assert(crate::term::interp_each(h4, sin_args@) =~= seq![
                    TermX::Variable { index: 0 },
                ]);
            }
            assert(h6.interp(mul) == (TermX::Application {
                function: Box::new(TermX::Symbol { name: name_multiply() }),
                arguments: seq![
                    TermX::Integer { value: -1 },
                    TermX::Application {
                        function: Box::new(TermX::Symbol { name: name_sin() }),
                        arguments: seq![TermX::Variable { index: 0 }],
                    },
                ],
            })) by {
                assert(crate::term::interp_each(h5, mul_args@) =~= seq![
                    TermX::Integer { value: -1 },
                    TermX::Application {
                        function: Box::new(TermX::Symbol { name: name_sin() }),
                        arguments: seq![TermX::Variable { index: 0 }],
                    },
                ]);
            }
            assert(h7.interp(c.lambda_neg_Sin) =~= neg_sin_lambda());
        }
        c
    }
}

} // verus!
