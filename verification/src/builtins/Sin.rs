//! Simplification of applications of `Sin`.

use vstd::prelude::*;
use vstd::view::View as ViewTrait;
use crate::constants::name_pi;
use crate::constants::name_sin;
use crate::simplify::Context;
use crate::simplify::ctx_preserved;
use crate::simplify::lemma_ctx_frame;
use crate::simplify::lemma_ctx_trans;
use crate::simplify::recurse;
use crate::simplify::Warning;
use crate::simplify::spec_simplify;
use crate::simplify::spec_sin;
use crate::term::Kind;
use crate::term::Term;
use crate::term::TermX;
use crate::term::interp_each;
use crate::term::kind_of;
use crate::term::symbol_name_at;

verus! {

broadcast use vstd::seq::group_seq_axioms;

/// Simplify an application of `Sin`: `Sin(0)` and `Sin(Pi)` are `0`, and
/// otherwise the application is rebuilt only when the operand changed.
pub fn simplify(c: &mut Context, arguments: &Vec<Term>) -> (r: Option<Term>)
    requires
        old(c).wf(),
        old(c).recursion_limit >= 1,
        forall|k: int| 0 <= k < arguments@.len() ==> old(c).has(#[trigger] arguments@[k]),
    ensures
        final(c).wf(),
        ctx_preserved(*old(c), *final(c)),
        ({
            let spec_out = spec_sin(
                old(c).defs(),
                interp_each(old(c).heap, arguments@),
                old(c).recursion_limit as nat,
            );
            match r {
                Some(t2) => final(c).has(t2) && spec_out == Some(final(c).interp(t2)),
                None => spec_out is None,
            }
        }),
        arguments@.len() != 1 ==> final(c).heap == old(c).heap
            && final(c).warnings@ == old(c).warnings@.push(Warning::ArityMismatch),
        ({
            let spec_out = spec_sin(
                old(c).defs(),
                interp_each(old(c).heap, arguments@),
                old(c).recursion_limit as nat,
            );
            spec_out == Some(TermX::Integer { value: 0 }) ==> r == Some(
                old(c).constants.integer_0,
            )
        }),
    decreases c.recursion_limit, 1int, 0int, 0int,
{
    let ghost c0 = *c;
    let ghost argsx = interp_each(c0.heap, arguments@);
    if arguments.len() != 1 {
        c.warnings.push(Warning::ArityMismatch);
        proof {
            crate::term::lemma_grown_refl(c.heap);
            assert(old(c).warnings@.is_prefix_of(c.warnings@));
        }
        return None;
    }
    let original_operand = arguments[0];
    proof {
        assert(argsx[0] == c0.interp(original_operand));
    }
    let operand = recurse(c, original_operand);
    let ghost op2x = c.interp(operand);
    proof {
        assert(op2x == spec_simplify(c0.defs(), argsx[0], (c0.recursion_limit - 1) as nat));
    }
    if operand.eq_integer_i32(&c.heap, 0) {
        return Some(c.constants.integer_0);
    }
    proof {
        crate::symbol::lemma_eq_symbol_interp(c.heap, c.symbols, operand, c.constants.Pi);
        assert(symbol_name_at(c.heap@, c.constants.Pi.id()) == name_pi());
    }
    if operand.eq_symbol(&c.constants.Pi) {
        return Some(c.constants.integer_0);
    }
    if operand.ptr_eq(&original_operand) {
        proof {
            assert(c.interp(operand) == c.interp(original_operand));
            assert(c.interp(original_operand) == argsx[0]);
        }
        return None;
    }
    proof {
        if op2x == argsx[0] {
            assert(c.interp(operand) == c.interp(original_operand));
            assert(operand == original_operand);
        }
    }
    let sin_term = c.constants.Sin.term();
    let mut args2: Vec<Term> = Vec::new();
    args2.push(operand);
    let ghost args2x = args2@;
    let ghost c1 = *c;
    let t2 = Term::application(&mut c.heap, sin_term, args2);
    proof {
        assert(!(c.heap@[t2.id()].data is Symbol)) by {
            assert(kind_of(c.heap@[t2.id()].data) == Kind::Application);
        }
        lemma_ctx_frame(c1, *c);
        lemma_ctx_trans(c0, c1, *c);
        assert(c1.heap.interp(sin_term) == (TermX::Symbol { name: name_sin() }));
        assert(interp_each(c1.heap, args2x) =~= seq![op2x]);
        assert(c.interp(t2) == (TermX::Application {
            function: Box::new(TermX::Symbol { name: name_sin() }),
            arguments: seq![op2x],
        }));
    }
    Some(t2)
}

} // verus!
