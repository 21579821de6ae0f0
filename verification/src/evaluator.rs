use vstd::prelude::*;
use crate::lexer::TokenKind;
use crate::grammar::{Expr, ExprM, view_expr, view_exprs, dup_expr, lemma_view_exprs_len};
use crate::parse_error::{kind_name, spec_kind_name};
use crate::types::{
    Type, TypeM, view_type, view_types, view_names, lemma_view_types_len, lemma_view_types_push,
    spec_debug, debug_type, spec_debug_expr, debug_expr,
};
use crate::scope::{Scope, ScopeM, view_scopes, wf_arena, sp_lookup};

verus! {

pub open spec fn msg_bin_mismatch(op: TokenKind, l: TypeM, r: TypeM) -> Seq<char> {
    "Operator: '"@ + spec_kind_name(op) + "' cannot be applied to arguments of type "@
        + spec_debug(l) + " and "@ + spec_debug(r) + "."@
}

pub open spec fn msg_int_op(op: TokenKind) -> Seq<char> {
    "Operator: '"@ + spec_kind_name(op) + "' cannot be applied to arguments of type Int and Int."@
}

pub open spec fn msg_bool_op(op: TokenKind) -> Seq<char> {
    "Operator: '"@ + spec_kind_name(op)
        + "' cannot be applied to arguments of type Bool and Bool."@
}

pub open spec fn msg_unbound(id: Seq<char>) -> Seq<char> {
    "No binding for identifier '"@ + id + "' found in the current scope."@
}

pub open spec fn msg_bind(value: ExprM) -> Seq<char> {
    "Cannot bind to '"@ + spec_debug_expr(value) + "' as it is not a valid identifier."@
}

pub open spec fn msg_overflow() -> Seq<char> {
    "Arithmetic overflow."@
}

pub open spec fn msg_div_zero() -> Seq<char> {
    "Division by zero."@
}

/// Truncated division: the quotient rounded towards zero, as host integer
/// division computes it.
pub open spec fn div_trunc(x: int, d: int) -> int {
    if x == 0 {
        0
    } else if x > 0 && d > 0 {
        x / d
    } else if x < 0 && d < 0 {
        (x * -1) / (d * -1)
    } else if x < 0 {
        ((x * -1) / d) * -1
    } else {
        (x / (d * -1)) * -1
    }
}

/// An integer result when it fits the machine type, an error value on
/// overflow.
pub open spec fn int_or_overflow(v: int) -> TypeM {
    if isize::MIN <= v <= isize::MAX {
        TypeM::Int(v)
    } else {
        TypeM::Error(msg_overflow())
    }
}

/// The result of an operator on two integers: `+ - * /` give an integer
/// (or an error value on overflow or division by zero), the comparisons
/// give a boolean, and any other operator is an error value.
pub open spec fn sp_bin_op_int(op: TokenKind, a: int, b: int) -> TypeM {
    match op {
        TokenKind::Plus => int_or_overflow(a + b),
        TokenKind::Minus => int_or_overflow(a - b),
        TokenKind::Star => int_or_overflow(a * b),
        TokenKind::Div => if b == 0 {
            TypeM::Error(msg_div_zero())
        } else {
            int_or_overflow(div_trunc(a, b))
        },
        TokenKind::Eq => TypeM::Bool(a == b),
        TokenKind::GreaterThan => TypeM::Bool(a > b),
        TokenKind::GreaterThanEq => TypeM::Bool(a >= b),
        TokenKind::LessThan => TypeM::Bool(a < b),
        TokenKind::LessThanEq => TypeM::Bool(a <= b),
        _ => TypeM::Error(msg_int_op(op)),
    }
}

/// Two booleans admit equality alone.
pub open spec fn sp_bin_op_bool(op: TokenKind, a: bool, b: bool) -> TypeM {
    match op {
        TokenKind::Eq => TypeM::Bool(a == b),
        _ => TypeM::Error(msg_bool_op(op)),
    }
}

/// Dispatch on the operand tags: two integers, two booleans, and any
/// other pairing is a type-mismatch error value.
pub open spec fn sp_bin_op(op: TokenKind, l: TypeM, r: TypeM) -> TypeM {
    match (l, r) {
        (TypeM::Int(a), TypeM::Int(b)) => sp_bin_op_int(op, a, b),
        (TypeM::Bool(a), TypeM::Bool(b)) => sp_bin_op_bool(op, a, b),
        _ => TypeM::Error(msg_bin_mismatch(op, l, r)),
    }
}

pub open spec fn all_idents(ps: Seq<ExprM>) -> bool {
    forall|k: int| 0 <= k < ps.len() ==> (#[trigger] ps[k]) is Ident
}

pub open spec fn idents_of(ps: Seq<ExprM>) -> Seq<Seq<char>> {
    Seq::new(ps.len(), |k: int| ps[k]->Ident_0)
}

/// The closure a `fn` form denotes: its parameter list must be a
/// `List` of identifiers; the body is captured unevaluated along with the
/// defining scope's handle.
pub open spec fn sp_fn_def(params: ExprM, body: ExprM, ctx: int) -> TypeM {
    match params {
        ExprM::List(ps) => if all_idents(ps) {
            TypeM::Fn(idents_of(ps), body, ctx)
        } else {
            TypeM::Error("Expected identifier"@)
        },
        _ => TypeM::Error("Expected argument list"@),
    }
}

/// The evaluation of one AST node against the arena of scopes, with `ctx`
/// the handle of the scope that `def` mutates. Operands, tests and bound
/// values are evaluated against the root scope (handle 0), mirroring the
/// evaluator's re-entry through its public entry point; only `List`,
/// `Base`, `Bind` and `FnDef` keep the context they were given. The
/// arm that skips the scope update when `ctx` lies outside the arena is
/// never reached from a well-formed evaluator. No rule applies a `Fn`
/// value: a closure's stored body is never evaluated, since the language
/// has no call form.
pub open spec fn sp_eval(e: ExprM, ar: Seq<ScopeM>, ctx: int) -> (TypeM, Seq<ScopeM>)
    decreases e,
{
    match e {
        ExprM::List(items) => {
            let (vs, ar2) = sp_eval_items(items, ar, ctx, Seq::empty());
            (TypeM::Sequence(vs), ar2)
        },
        ExprM::BinaryOp(op, l, r) => {
            let (lv, ar1) = sp_eval(*l, ar, 0);
            let (rv, ar2) = sp_eval(*r, ar1, 0);
            (sp_bin_op(op, lv, rv), ar2)
        },
        ExprM::Bind(t, v) => {
            match *t {
                ExprM::Ident(id) => {
                    let (val, ar1) = sp_eval(*v, ar, 0);
                    if 0 <= ctx < ar1.len() {
                        (
                            val,
                            ar1.update(
                                ctx,
                                ScopeM {
                                    bindings: ar1[ctx].bindings.insert(id, val),
                                    parent: ar1[ctx].parent,
                                },
                            ),
                        )
                    } else {
                        (val, ar1)
                    }
                },
                _ => (TypeM::Error(msg_bind(*v)), ar),
            }
        },
        ExprM::FnDef(params, body) => (sp_fn_def(*params, *body, ctx), ar),
        ExprM::If(c, t, a) => {
            let (cv, ar1) = sp_eval(*c, ar, 0);
            if cv == TypeM::Bool(true) {
                sp_eval(*t, ar1, 0)
            } else {
                sp_eval(*a, ar1, 0)
            }
        },
        ExprM::Base(inner) => sp_eval(*inner, ar, ctx),
        ExprM::Ident(id) => match sp_lookup(ar, ctx, id) {
            Some(v) => (v, ar),
            None => (TypeM::Error(msg_unbound(id)), ar),
        },
        ExprM::Value(n) => (TypeM::Int(n), ar),
    }
}

/// The values of a block's expressions, evaluated in order against the
/// same context; a `def` among them mutates the arena for its successors.
pub open spec fn sp_eval_items(
    items: Seq<ExprM>,
    ar: Seq<ScopeM>,
    ctx: int,
    acc: Seq<TypeM>,
) -> (Seq<TypeM>, Seq<ScopeM>)
    decreases items,
{
    if items.len() == 0 {
        (acc, ar)
    } else {
        let (v, ar1) = sp_eval(items[0], ar, ctx);
        sp_eval_items(items.drop_first(), ar1, ctx, acc.push(v))
    }
}

fn err_bin_mismatch(op: TokenKind, l: &Type, r: &Type) -> (s: String)
    ensures
        s@ == msg_bin_mismatch(op, view_type(*l), view_type(*r)),
{
    String::from_str("Operator: '").concat(kind_name(op)).concat(
        "' cannot be applied to arguments of type ",
    ).concat(debug_type(l).as_str()).concat(" and ").concat(debug_type(r).as_str()).concat(".")
}

fn err_int_op(op: TokenKind) -> (s: String)
    ensures
        s@ == msg_int_op(op),
{
    String::from_str("Operator: '").concat(kind_name(op)).concat(
        "' cannot be applied to arguments of type Int and Int.",
    )
}

fn err_bool_op(op: TokenKind) -> (s: String)
    ensures
        s@ == msg_bool_op(op),
{
    String::from_str("Operator: '").concat(kind_name(op)).concat(
        "' cannot be applied to arguments of type Bool and Bool.",
    )
}

fn err_bind(value: &Expr) -> (s: String)
    ensures
        s@ == msg_bind(view_expr(*value)),
{
    String::from_str("Cannot bind to '").concat(debug_expr(value).as_str()).concat(
        "' as it is not a valid identifier.",
    )
}

fn err_unbound(id: &str) -> (s: String)
    ensures
        s@ == msg_unbound(id@),
{
    String::from_str("No binding for identifier '").concat(id).concat(
        "' found in the current scope.",
    )
}

/// The tree-walking evaluator. It owns the arena of scopes; the root
/// scope, at handle 0, is created once and lives as long as the
/// evaluator, so bindings persist across successive `evaluate` calls.
pub struct Evaluator {
    scopes: Vec<Scope>,
}

impl Evaluator {
    /// The model of the scope arena.
    pub closed spec fn arena(&self) -> Seq<ScopeM> {
        view_scopes(self.scopes@)
    }

    /// A sound evaluator: the root scope exists and parent handles only
    /// point backwards.
    pub closed spec fn wf(&self) -> bool {
        self.arena().len() >= 1 && wf_arena(self.arena())
    }

    /// A fresh evaluator whose arena holds one empty root scope.
    pub fn new() -> (e: Evaluator)
        ensures
            e.wf(),
            e.arena().len() == 1,
            e.arena()[0].bindings == Map::<Seq<char>, TypeM>::empty(),
            e.arena()[0].parent is None,
    {
        let mut scopes: Vec<Scope> = Vec::new();
        scopes.push(Scope::global());
        Evaluator { scopes }
    }

    /// Evaluates one tree against the root scope, exactly as `sp_eval`
    /// describes: the result value, and the arena as `def` forms left it.
    pub fn evaluate(&mut self, expr: Expr) -> (r: Type)
        requires
            old(self).wf(),
        ensures
            final(self).wf(),
            final(self).arena().len() == old(self).arena().len(),
            ({
                let (v, ar2) = sp_eval(view_expr(expr), old(self).arena(), 0);
                view_type(r) == v && final(self).arena() == ar2
            }),
    {
        self.eval_expr(&expr, 0)
    }

    fn eval_expr(&mut self, expr: &Expr, context: usize) -> (r: Type)
        requires
            old(self).wf(),
            context < old(self).arena().len(),
        ensures
            final(self).wf(),
            final(self).arena().len() == old(self).arena().len(),
            ({
                let (v, ar2) = sp_eval(view_expr(*expr), old(self).arena(), context as int);
                view_type(r) == v && final(self).arena() == ar2
            }),
        decreases *expr,
    {
        proof {
            reveal_with_fuel(view_expr, 3);
            reveal_with_fuel(sp_eval, 2);
        }
        match expr {
            Expr::List(list) => {
                let r = self.eval_list(list, context);
                proof {
                    reveal_with_fuel(sp_eval, 2);
                    let em = view_expr(*expr);
                    assert(em == ExprM::List(view_exprs(list@)));
                    let (vs, ar2) = sp_eval_items(
                        view_exprs(list@),
                        old(self).arena(),
                        context as int,
                        Seq::empty(),
                    );
                    assert(sp_eval(em, old(self).arena(), context as int) == (
                        TypeM::Sequence(vs),
                        ar2,
                    ));
                }
                r
            },
            Expr::BinaryOp(op, l, r) => {
                let lv = self.eval_expr(l, 0);
                let rv = self.eval_expr(r, 0);
                self.eval_bin_op(*op, lv, rv)
            },
            Expr::Bind(t, v) => {
                match &**t {
                    Expr::Ident(id) => {
                        let val = self.eval_expr(v, 0);
                        self.eval_bind(id.clone(), val, context)
                    },
                    _ => self.error(err_bind(v)),
                }
            },
            Expr::FnDef(args, body) => self.eval_fn_def(args, body, context),
            Expr::If(c, t, a) => {
                let cv = self.eval_expr(c, 0);
                if Evaluator::truthy(&cv) {
                    self.eval_expr(t, 0)
                } else {
                    self.eval_expr(a, 0)
                }
            },
            Expr::Base(inner) => self.eval_expr(inner, context),
            Expr::Ident(id) => self.eval_identifier(id.as_str(), context),
            Expr::Value(n) => Type::Int(*n),
        }
    }

    /// Evaluates each expression of a block in order against the same
    /// context and gathers the results into a `Sequence` value.
    #[verifier::loop_isolation(false)]
    fn eval_list(&mut self, list: &Vec<Expr>, context: usize) -> (r: Type)
        requires
            old(self).wf(),
            context < old(self).arena().len(),
        ensures
            final(self).wf(),
            final(self).arena().len() == old(self).arena().len(),
            ({
                let (vs, ar2) = sp_eval_items(
                    view_exprs(list@),
                    old(self).arena(),
                    context as int,
                    Seq::empty(),
                );
                view_type(r) == TypeM::Sequence(vs) && final(self).arena() == ar2
            }),
        decreases list@,
    {
        let ghost items0 = view_exprs(list@);
        let ghost ar0 = self.arena();
        let n = list.len();
        let mut results: Vec<Type> = Vec::new();
        let mut i: usize = 0;
        proof {
            lemma_view_exprs_len(list@);
            assert(list@.subrange(0, n as int) =~= list@);
            assert(view_exprs(list@.subrange(0, n as int)) == items0);
            assert(view_types(results@) =~= Seq::<TypeM>::empty());
        }
        while i < n
            invariant
                self.wf(),
                context < self.arena().len(),
                self.arena().len() == ar0.len(),
                0 <= i <= n,
                sp_eval_items(items0, ar0, context as int, Seq::empty()) == sp_eval_items(
                    view_exprs(list@.subrange(i as int, n as int)),
                    self.arena(),
                    context as int,
                    view_types(results@),
                ),
            decreases n - i,
        {
            let ghost rem = list@.subrange(i as int, n as int);
            let ghost remv = view_exprs(rem);
            proof {
                lemma_view_exprs_len(rem);
                assert(rem[0] == list@[i as int]);
                assert(remv[0] == view_expr(list@[i as int]));
                assert(decreases_to!(list@ => list@[i as int]));
            }
            let v = self.eval_expr(&list[i], context);
            proof {
                lemma_view_types_push(results@, v);
                lemma_view_exprs_len(rem.drop_first());
                lemma_view_exprs_len(list@.subrange(i as int + 1, n as int));
                assert(rem.drop_first() =~= list@.subrange(i as int + 1, n as int));
                assert forall|k: int| 0 <= k < remv.drop_first().len() implies remv.drop_first()[k]
                    == view_exprs(rem.drop_first())[k] by {
                    assert(remv[k + 1] == view_expr(rem[k + 1]));
                    assert(view_exprs(rem.drop_first())[k] == view_expr(rem.drop_first()[k]));
                    assert(rem.drop_first()[k] == rem[k + 1]);
                }
                assert(remv.drop_first() =~= view_exprs(rem.drop_first()));
                assert(view_types(results@) + seq![view_type(v)] =~= view_types(results@).push(
                    view_type(v),
                ));
            }
            results.push(v);
            i = i + 1;
        }
        proof {
            assert(list@.subrange(n as int, n as int) =~= Seq::<Expr>::empty());
            assert(view_exprs(list@.subrange(n as int, n as int)) =~= Seq::<ExprM>::empty());
        }
        Type::Sequence(results)
    }

    /// Dispatches an operator on the tags of its evaluated operands.
    fn eval_bin_op(&self, op: TokenKind, left: Type, right: Type) -> (r: Type)
        ensures
            view_type(r) == sp_bin_op(op, view_type(left), view_type(right)),
    {
        match (&left, &right) {
            (Type::Int(a), Type::Int(b)) => self.eval_bin_op_int(op, *a, *b),
            (Type::Bool(a), Type::Bool(b)) => self.eval_bin_op_bool(op, *a, *b),
            _ => self.error(err_bin_mismatch(op, &left, &right)),
        }
    }

    /// Applies an operator to two integers; `+ - * /` answer overflow and
    /// division by zero with error values.
    fn eval_bin_op_int(&self, op: TokenKind, left: isize, right: isize) -> (r: Type)
        ensures
            view_type(r) == sp_bin_op_int(op, left as int, right as int),
    {
        match op {
            TokenKind::Plus => match left.checked_add(right) {
                Some(v) => Type::Int(v),
                None => self.error_str("Arithmetic overflow."),
            },
            TokenKind::Minus => match left.checked_sub(right) {
                Some(v) => Type::Int(v),
                None => self.error_str("Arithmetic overflow."),
            },
            TokenKind::Star => match left.checked_mul(right) {
                Some(v) => Type::Int(v),
                None => self.error_str("Arithmetic overflow."),
            },
            TokenKind::Div => {
                if right == 0 {
                    self.error_str("Division by zero.")
                } else {
                    match left.checked_div(right) {
                        Some(v) => Type::Int(v),
                        None => self.error_str("Arithmetic overflow."),
                    }
                }
            },
            TokenKind::Eq => Type::Bool(left == right),
            TokenKind::GreaterThan => Type::Bool(left > right),
            TokenKind::GreaterThanEq => Type::Bool(left >= right),
            TokenKind::LessThan => Type::Bool(left < right),
            TokenKind::LessThanEq => Type::Bool(left <= right),
            _ => self.error(err_int_op(op)),
        }
    }

    /// Two booleans admit equality alone.
    fn eval_bin_op_bool(&self, op: TokenKind, left: bool, right: bool) -> (r: Type)
        ensures
            view_type(r) == sp_bin_op_bool(op, left, right),
    {
        match op {
            TokenKind::Eq => Type::Bool(left == right),
            _ => self.error(err_bool_op(op)),
        }
    }

    /// Stores an evaluated value under a name in the scope at `context`
    /// and hands the value back.
    fn eval_bind(&mut self, id: String, value: Type, context: usize) -> (r: Type)
        requires
            old(self).wf(),
            context < old(self).arena().len(),
        ensures
            final(self).wf(),
            final(self).arena().len() == old(self).arena().len(),
            final(self).arena() == old(self).arena().update(
                context as int,
                ScopeM {
                    bindings: old(self).arena()[context as int].bindings.insert(
                        id@,
                        view_type(value),
                    ),
                    parent: old(self).arena()[context as int].parent,
                },
            ),
            view_type(r) == view_type(value),
    {
        let ghost ar0 = self.arena();
        let mut sc = self.scopes.remove(context);
        let r = sc.bind(id, value);
        self.scopes.insert(context, sc);
        proof {
            assert forall|j: int| 0 <= j < self.arena().len() implies self.arena()[j]
                == ar0.update(
                context as int,
                ScopeM {
                    bindings: ar0[context as int].bindings.insert(id@, view_type(value)),
                    parent: ar0[context as int].parent,
                },
            )[j] by {
                if j < context {
                    assert(self.scopes@[j] == old(self).scopes@[j]);
                } else if j > context {
                    assert(self.scopes@[j] == old(self).scopes@[j]);
                }
            }
            assert(self.arena() =~= ar0.update(
                context as int,
                ScopeM {
                    bindings: ar0[context as int].bindings.insert(id@, view_type(value)),
                    parent: ar0[context as int].parent,
                },
            ));
        }
        r
    }

    /// Builds a closure from a `fn` form: the parameter list must be a
    /// `List` of identifiers, whose names are captured with the body and
    /// the defining context's handle.
    #[verifier::loop_isolation(false)]
    fn eval_fn_def(&mut self, args: &Expr, body: &Expr, context: usize) -> (r: Type)
        ensures
            *final(self) == *old(self),
            view_type(r) == sp_fn_def(view_expr(*args), view_expr(*body), context as int),
    {
        match args {
            Expr::List(list) => {
                let ghost ps = view_exprs(list@);
                proof {
                    lemma_view_exprs_len(list@);
                }
                let n = list.len();
                let mut ids: Vec<String> = Vec::new();
                let mut i: usize = 0;
                while i < n
                    invariant
                        0 <= i <= n,
                        ids@.len() == i,
                        forall|k: int| 0 <= k < i ==> (#[trigger] ps[k]) is Ident,
                        forall|k: int| 0 <= k < i ==> ids@[k]@ == (#[trigger] ps[k])->Ident_0,
                    decreases n - i,
                {
                    match &list[i] {
                        Expr::Ident(id) => {
                            proof {
                                assert(ps[i as int] == view_expr(list@[i as int]));
                            }
                            ids.push(id.clone());
                        },
                        _ => {
                            proof {
                                assert(ps[i as int] == view_expr(list@[i as int]));
                                assert(!(ps[i as int] is Ident));
                                assert(!all_idents(ps));
                            }
                            return self.error_str("Expected identifier");
                        },
                    }
                    i = i + 1;
                }
                proof {
                    assert(all_idents(ps));
                    assert(view_names(ids@) =~= idents_of(ps));
                }
                Type::Fn(ids, dup_expr(body), context)
            },
            _ => self.error_str("Expected argument list"),
        }
    }

    /// Resolves a name through the scope chain; an unbound name is an
    /// error value naming the identifier.
    fn eval_identifier(&mut self, ident: &str, context: usize) -> (r: Type)
        requires
            old(self).wf(),
        ensures
            *final(self) == *old(self),
            ({
                match sp_lookup(old(self).arena(), context as int, ident@) {
                    Some(v) => view_type(r) == v,
                    None => view_type(r) == TypeM::Error(msg_unbound(ident@)),
                }
            }),
    {
        match Scope::get(&self.scopes, context, ident) {
            Some(v) => v,
            None => self.error(err_unbound(ident)),
        }
    }

    /// A value is truthy exactly when it is `Bool(true)`; every other
    /// value, error values included, is falsy.
    pub fn truthy(value: &Type) -> (r: bool)
        ensures
            r == (view_type(*value) == TypeM::Bool(true)),
    {
        match value {
            Type::Bool(b) => *b,
            _ => false,
        }
    }

    /// An error value carrying the given message.
    fn error(&self, message: String) -> (r: Type)
        ensures
            view_type(r) == TypeM::Error(message@),
    {
        Type::Error(message)
    }

    /// An error value carrying the given literal message.
    fn error_str(&self, message: &str) -> (r: Type)
        ensures
            view_type(r) == TypeM::Error(message@),
    {
        self.error(String::from_str(message))
    }
}

} // verus!
