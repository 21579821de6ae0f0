use vstd::prelude::*;
use crate::lexer::TokenKind;

verus! {

/// An abstract syntax tree node. Nodes own their children exclusively;
/// the tree has no cycles and no shared subtrees.
#[derive(Debug)]
pub enum Expr {
    /// A block of expressions evaluated in order.
    List(Vec<Expr>),
    /// An operator applied to two operands.
    BinaryOp(TokenKind, Box<Expr>, Box<Expr>),
    /// A `def` form: target (must be an identifier) and value.
    Bind(Box<Expr>, Box<Expr>),
    /// A `fn` form: parameter list (must be a `List` of identifiers) and body.
    FnDef(Box<Expr>, Box<Expr>),
    /// An `if` form: test, consequent, alternate.
    If(Box<Expr>, Box<Expr>, Box<Expr>),
    /// A parenthesization marker; evaluates as its inner node.
    Base(Box<Expr>),
    Ident(String),
    Value(isize),
}

/// Mathematical model of an AST node.
pub enum ExprM {
    List(Seq<ExprM>),
    BinaryOp(TokenKind, Box<ExprM>, Box<ExprM>),
    Bind(Box<ExprM>, Box<ExprM>),
    FnDef(Box<ExprM>, Box<ExprM>),
    If(Box<ExprM>, Box<ExprM>, Box<ExprM>),
    Base(Box<ExprM>),
    Ident(Seq<char>),
    Value(int),
}

pub open spec fn view_expr(e: Expr) -> ExprM
    decreases e,
{
    match e {
        Expr::List(v) => ExprM::List(view_exprs(v@)),
        Expr::BinaryOp(op, l, r) => ExprM::BinaryOp(
            op,
            Box::new(view_expr(*l)),
            Box::new(view_expr(*r)),
        ),
        Expr::Bind(t, v) => ExprM::Bind(Box::new(view_expr(*t)), Box::new(view_expr(*v))),
        Expr::FnDef(p, b) => ExprM::FnDef(Box::new(view_expr(*p)), Box::new(view_expr(*b))),
        Expr::If(c, t, a) => ExprM::If(
            Box::new(view_expr(*c)),
            Box::new(view_expr(*t)),
            Box::new(view_expr(*a)),
        ),
        Expr::Base(inner) => ExprM::Base(Box::new(view_expr(*inner))),
        Expr::Ident(s) => ExprM::Ident(s@),
        Expr::Value(n) => ExprM::Value(n as int),
    }
}

pub open spec fn view_exprs(v: Seq<Expr>) -> Seq<ExprM>
    decreases v,
{
    if v.len() == 0 {
        Seq::empty()
    } else {
        seq![view_expr(v[0])] + view_exprs(v.drop_first())
    }
}

impl View for Expr {
    type V = ExprM;

    open spec fn view(&self) -> ExprM {
        view_expr(*self)
    }
}

pub proof fn lemma_view_exprs_len(v: Seq<Expr>)
    ensures
        view_exprs(v).len() == v.len(),
        forall|i: int| 0 <= i < v.len() ==> view_exprs(v)[i] == view_expr(#[trigger] v[i]),
    decreases v,
{
    if v.len() > 0 {
        lemma_view_exprs_len(v.drop_first());
        assert forall|i: int| 0 <= i < v.len() implies view_exprs(v)[i] == view_expr(v[i]) by {
            if i > 0 {
                assert(view_exprs(v)[i] == view_exprs(v.drop_first())[i - 1]);
                assert(v.drop_first()[i - 1] == v[i]);
            }
        }
    }
}

pub proof fn lemma_view_exprs_push(v: Seq<Expr>, e: Expr)
    ensures
        view_exprs(v.push(e)) =~= view_exprs(v) + seq![view_expr(e)],
    decreases v,
{
    reveal_with_fuel(view_exprs, 3);
    if v.len() == 0 {
        assert(v.push(e)[0] == e);
        assert(v.push(e).drop_first() =~= Seq::<Expr>::empty());
        assert(view_exprs(v) =~= Seq::<ExprM>::empty());
        assert(view_exprs(v.push(e)) =~= seq![view_expr(e)]);
        assert(view_exprs(v.push(e)) =~= view_exprs(v) + seq![view_expr(e)]);
    } else {
        assert(v.push(e)[0] == v[0]);
        assert(v.push(e).drop_first() =~= v.drop_first().push(e));
        lemma_view_exprs_push(v.drop_first(), e);
        assert(view_exprs(v.push(e)) =~= seq![view_expr(v[0])] + (view_exprs(v.drop_first())
            + seq![view_expr(e)]));
        assert(view_exprs(v) == seq![view_expr(v[0])] + view_exprs(v.drop_first()));
        assert(seq![view_expr(v[0])] + (view_exprs(v.drop_first()) + seq![view_expr(e)]) =~= (
        seq![view_expr(v[0])] + view_exprs(v.drop_first())) + seq![view_expr(e)]);
    }
}

/// A deep copy of an AST node; the copy has the same model.
#[verifier::loop_isolation(false)]
pub fn dup_expr(e: &Expr) -> (r: Expr)
    ensures
        view_expr(r) == view_expr(*e),
    decreases *e,
{
    match e {
        Expr::List(v) => {
            let mut out: Vec<Expr> = Vec::new();
            let mut i: usize = 0;
            while i < v.len()
                invariant
                    0 <= i <= v@.len(),
                    view_exprs(out@) =~= view_exprs(v@.subrange(0, i as int)),
                decreases v@.len() - i,
            {
                proof {
                    assert(decreases_to!(*e => v@[i as int]));
                }
                let d = dup_expr(&v[i]);
                proof {
                    lemma_view_exprs_push(out@, d);
                    lemma_view_exprs_len(v@.subrange(0, i as int));
                    lemma_view_exprs_len(v@.subrange(0, i as int + 1));
                    lemma_view_exprs_len(out@);
                    assert(v@.subrange(0, i as int + 1).drop_last() =~= v@.subrange(0, i as int));
                    assert forall|k: int| 0 <= k < i + 1 implies view_exprs(
                        v@.subrange(0, i as int + 1),
                    )[k] == view_exprs(out@.push(d))[k] by {
                        assert(v@.subrange(0, i as int + 1)[k] == v@[k]);
                        if k < i {
                            assert(view_exprs(out@.push(d))[k] == view_exprs(out@)[k]);
                            assert(view_exprs(v@.subrange(0, i as int))[k] == view_expr(
                                v@.subrange(0, i as int)[k],
                            ));
                        }
                    }
                    assert(view_exprs(out@.push(d)) =~= view_exprs(v@.subrange(0, i as int + 1)));
                }
                out.push(d);
                i = i + 1;
            }
            proof {
                assert(v@.subrange(0, v@.len() as int) =~= v@);
            }
            Expr::List(out)
        },
        Expr::BinaryOp(op, l, r2) => Expr::BinaryOp(
            *op,
            Box::new(dup_expr(l)),
            Box::new(dup_expr(r2)),
        ),
        Expr::Bind(t, v) => Expr::Bind(Box::new(dup_expr(t)), Box::new(dup_expr(v))),
        Expr::FnDef(p, b) => Expr::FnDef(Box::new(dup_expr(p)), Box::new(dup_expr(b))),
        Expr::If(c, t, a) => Expr::If(
            Box::new(dup_expr(c)),
            Box::new(dup_expr(t)),
            Box::new(dup_expr(a)),
        ),
        Expr::Base(inner) => Expr::Base(Box::new(dup_expr(inner))),
        Expr::Ident(s) => Expr::Ident(s.clone()),
        Expr::Value(n) => Expr::Value(*n),
    }
}

} // verus!
