use vstd::prelude::*;
use vstd::arithmetic::div_mod::{
    lemma_div_basics, lemma_div_pos_is_pos, lemma_div_nonincreasing, lemma_div_is_strictly_smaller,
};
use crate::lexer::{TokenKind, spec_tokenize};
use crate::grammar::ExprM;
use crate::types::TypeM;
use crate::scope::ScopeM;
use crate::parser::sp_parse;
use crate::evaluator::{
    sp_eval, div_trunc, sp_fn_def, all_idents, idents_of, msg_bin_mismatch, msg_unbound,
};
use crate::scope::sp_lookup;

verus! {

proof fn lemma_div_trunc_in_range(a: int, b: int)
    requires
        isize::MIN <= a <= isize::MAX,
        isize::MIN <= b <= isize::MAX,
        b != 0,
        !(a == isize::MIN && b == -1),
    ensures
        isize::MIN <= div_trunc(a, b) <= isize::MAX,
{
    assert(isize::MIN == -isize::MAX - 1);
    if a == 0 {
    } else if a > 0 && b > 0 {
        lemma_div_pos_is_pos(a, b);
        lemma_div_nonincreasing(a, b);
    } else if a < 0 && b < 0 {
        let m = a * -1;
        let n = b * -1;
        lemma_div_pos_is_pos(m, n);
        if n == 1 {
            lemma_div_basics(m);
        } else {
            lemma_div_is_strictly_smaller(m, n);
        }
    } else if a < 0 {
        let m = a * -1;
        lemma_div_pos_is_pos(m, b);
        lemma_div_nonincreasing(m, b);
    } else {
        let n = b * -1;
        lemma_div_pos_is_pos(a, n);
        lemma_div_nonincreasing(a, n);
    }
}

/// Division agrees with the host machine: evaluating a division form on
/// two integer literals, with a nonzero divisor and short of the one
/// overflowing pair (the smallest integer divided by minus one), yields
/// exactly the truncated quotient that host integer division computes,
/// and leaves every scope untouched.
pub proof fn lemma_division(a: int, b: int, ar: Seq<ScopeM>, ctx: int)
    requires
        isize::MIN <= a <= isize::MAX,
        isize::MIN <= b <= isize::MAX,
        b != 0,
        !(a == isize::MIN && b == -1),
    ensures
        sp_eval(
            ExprM::BinaryOp(
                TokenKind::Div,
                Box::new(ExprM::Value(a)),
                Box::new(ExprM::Value(b)),
            ),
            ar,
            ctx,
        ) == (TypeM::Int(div_trunc(a, b)), ar),
{
    lemma_div_trunc_in_range(a, b);
    reveal_with_fuel(sp_eval, 2);
}

/// A type mismatch is an error value, never a failure: applying any
/// operator to an integer literal and an unbound identifier yields an
/// `Error` value naming the operator and both operand values, and leaves
/// every scope untouched.
pub proof fn lemma_mismatch_is_error_value(
    op: TokenKind,
    n: int,
    id: Seq<char>,
    ar: Seq<ScopeM>,
    ctx: int,
)
    requires
        sp_lookup(ar, 0, id) is None,
    ensures
        sp_eval(
            ExprM::BinaryOp(op, Box::new(ExprM::Value(n)), Box::new(ExprM::Ident(id))),
            ar,
            ctx,
        ) == (
            TypeM::Error(msg_bin_mismatch(op, TypeM::Int(n), TypeM::Error(msg_unbound(id)))),
            ar,
        ),
{
    reveal_with_fuel(sp_eval, 2);
}

/// A `fn` form is inert: with a parameter list of identifiers it
/// evaluates to a closure holding the parameter names, the body exactly
/// as written and unevaluated, and the defining context's handle; no
/// scope changes, and no evaluation rule ever applies such a value.
pub proof fn lemma_fn_def_is_inert(ps: Seq<ExprM>, body: ExprM, ar: Seq<ScopeM>, ctx: int)
    requires
        all_idents(ps),
    ensures
        sp_eval(ExprM::FnDef(Box::new(ExprM::List(ps)), Box::new(body)), ar, ctx) == (
            TypeM::Fn(idents_of(ps), body, ctx),
            ar,
        ),
{
    assert(sp_fn_def(ExprM::List(ps), body, ctx) == TypeM::Fn(idents_of(ps), body, ctx));
}

/// Determinism: the same source text always tokenizes to the same tokens,
/// the same tokens always parse to the same tree or error, and the same
/// tree evaluated against the same scopes in the same context always
/// gives the same value and the same scopes after it.
pub proof fn lemma_pipeline_deterministic(
    s1: Seq<char>,
    s2: Seq<char>,
    e1: ExprM,
    e2: ExprM,
    ar1: Seq<ScopeM>,
    ar2: Seq<ScopeM>,
    ctx: int,
)
    requires
        s1 == s2,
        e1 == e2,
        ar1 == ar2,
    ensures
        spec_tokenize(s1) == spec_tokenize(s2),
        sp_parse(spec_tokenize(s1)) == sp_parse(spec_tokenize(s2)),
        sp_eval(e1, ar1, ctx) == sp_eval(e2, ar2, ctx),
{
}

} // verus!
