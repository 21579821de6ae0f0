use vstd::prelude::*;
use crate::grammar::{Expr, ExprM, view_expr, view_exprs, dup_expr, lemma_view_exprs_len};
use crate::parse_error::{kind_name, spec_kind_name};

verus! {

/// A tagged runtime value, the evaluator's result type. Errors are
/// first-class values, not host failures. A `Fn` value is a closure: the
/// parameter names, the unevaluated body, and the handle of the scope it
/// captured.
#[derive(Debug)]
pub enum Type {
    Error(String),
    Int(isize),
    Bool(bool),
    Str(String),
    Sequence(Vec<Type>),
    Fn(Vec<String>, Expr, usize),
}

/// Mathematical model of a runtime value.
pub enum TypeM {
    Error(Seq<char>),
    Int(int),
    Bool(bool),
    Str(Seq<char>),
    Sequence(Seq<TypeM>),
    Fn(Seq<Seq<char>>, ExprM, int),
}

pub open spec fn view_names(v: Seq<String>) -> Seq<Seq<char>> {
    Seq::new(v.len(), |i: int| v[i]@)
}

pub open spec fn view_type(t: Type) -> TypeM
    decreases t,
{
    match t {
        Type::Error(s) => TypeM::Error(s@),
        Type::Int(n) => TypeM::Int(n as int),
        Type::Bool(b) => TypeM::Bool(b),
        Type::Str(s) => TypeM::Str(s@),
        Type::Sequence(v) => TypeM::Sequence(view_types(v@)),
        Type::Fn(ps, body, h) => TypeM::Fn(view_names(ps@), view_expr(body), h as int),
    }
}

pub open spec fn view_types(v: Seq<Type>) -> Seq<TypeM>
    decreases v,
{
    if v.len() == 0 {
        Seq::empty()
    } else {
        seq![view_type(v[0])] + view_types(v.drop_first())
    }
}

impl View for Type {
    type V = TypeM;

    open spec fn view(&self) -> TypeM {
        view_type(*self)
    }
}

pub proof fn lemma_view_types_len(v: Seq<Type>)
    ensures
        view_types(v).len() == v.len(),
        forall|i: int| 0 <= i < v.len() ==> view_types(v)[i] == view_type(#[trigger] v[i]),
    decreases v,
{
    if v.len() > 0 {
        lemma_view_types_len(v.drop_first());
        assert forall|i: int| 0 <= i < v.len() implies view_types(v)[i] == view_type(v[i]) by {
            if i > 0 {
                assert(view_types(v)[i] == view_types(v.drop_first())[i - 1]);
                assert(v.drop_first()[i - 1] == v[i]);
            }
        }
    }
}

pub proof fn lemma_view_types_push(v: Seq<Type>, t: Type)
    ensures
        view_types(v.push(t)) =~= view_types(v) + seq![view_type(t)],
    decreases v,
{
    reveal_with_fuel(view_types, 3);
    if v.len() == 0 {
        assert(v.push(t)[0] == t);
        assert(v.push(t).drop_first() =~= Seq::<Type>::empty());
    } else {
        assert(v.push(t)[0] == v[0]);
        assert(v.push(t).drop_first() =~= v.drop_first().push(t));
        lemma_view_types_push(v.drop_first(), t);
        assert(view_types(v.push(t)) =~= seq![view_type(v[0])] + (view_types(v.drop_first())
            + seq![view_type(t)]));
        assert(view_types(v) == seq![view_type(v[0])] + view_types(v.drop_first()));
        assert(seq![view_type(v[0])] + (view_types(v.drop_first()) + seq![view_type(t)]) =~= (
        seq![view_type(v[0])] + view_types(v.drop_first())) + seq![view_type(t)]);
    }
}

/// A deep copy of a runtime value; the copy has the same model.
#[verifier::loop_isolation(false)]
pub fn dup_type(t: &Type) -> (r: Type)
    ensures
        view_type(r) == view_type(*t),
    decreases *t,
{
    match t {
        Type::Error(s) => Type::Error(s.clone()),
        Type::Int(n) => Type::Int(*n),
        Type::Bool(b) => Type::Bool(*b),
        Type::Str(s) => Type::Str(s.clone()),
        Type::Sequence(v) => {
            let mut out: Vec<Type> = Vec::new();
            let mut i: usize = 0;
            while i < v.len()
                invariant
                    0 <= i <= v@.len(),
                    view_types(out@) =~= view_types(v@.subrange(0, i as int)),
                decreases v@.len() - i,
            {
                proof {
                    assert(decreases_to!(*t => v@[i as int]));
                }
                let d = dup_type(&v[i]);
                proof {
                    lemma_view_types_push(out@, d);
                    lemma_view_types_len(v@.subrange(0, i as int));
                    lemma_view_types_len(v@.subrange(0, i as int + 1));
                    lemma_view_types_len(out@);
                    assert forall|k: int| 0 <= k < i + 1 implies view_types(
                        v@.subrange(0, i as int + 1),
                    )[k] == view_types(out@.push(d))[k] by {
                        assert(v@.subrange(0, i as int + 1)[k] == v@[k]);
                        if k < i {
                            assert(view_types(out@.push(d))[k] == view_types(out@)[k]);
                            assert(view_types(v@.subrange(0, i as int))[k] == view_type(
                                v@.subrange(0, i as int)[k],
                            ));
                        }
                    }
                    assert(view_types(out@.push(d)) =~= view_types(v@.subrange(0, i as int + 1)));
                }
                out.push(d);
                i = i + 1;
            }
            proof {
                assert(v@.subrange(0, v@.len() as int) =~= v@);
            }
            Type::Sequence(out)
        },
        Type::Fn(ps, body, h) => {
            let mut names: Vec<String> = Vec::new();
            let mut i: usize = 0;
            while i < ps.len()
                invariant
                    0 <= i <= ps@.len(),
                    names@.len() == i,
                    forall|k: int| 0 <= k < i ==> names@[k]@ == #[trigger] ps@[k]@,
                decreases ps@.len() - i,
            {
                names.push(ps[i].clone());
                i = i + 1;
            }
            proof {
                assert(view_names(names@) =~= view_names(ps@));
            }
            Type::Fn(names, dup_expr(body), *h)
        },
    }
}

pub open spec fn digit_char(d: int) -> char {
    ((48 + d) as u8) as char
}

/// The decimal digits of a non-negative integer.
pub open spec fn spec_render_nat(n: int) -> Seq<char>
    decreases n,
{
    if n < 10 {
        seq![digit_char(if n < 0 { 0int } else { n })]
    } else {
        spec_render_nat(n / 10) + seq![digit_char(n % 10)]
    }
}

/// The decimal form of an integer, with a leading minus sign when negative.
pub open spec fn spec_render_int(n: int) -> Seq<char> {
    if n < 0 {
        seq!['-'] + spec_render_nat(-n)
    } else {
        spec_render_nat(n)
    }
}

/// The display form of a value: an error is its message, an integer its
/// decimal form, a boolean `true` or `false`, a string its contents, a
/// sequence the debug form of its last element (`Int(3)`, or `()` when
/// empty), and a closure shows nothing.
pub open spec fn spec_render(t: TypeM) -> Seq<char> {
    match t {
        TypeM::Error(m) => m,
        TypeM::Int(n) => spec_render_int(n),
        TypeM::Bool(b) => if b {
            "true"@
        } else {
            "false"@
        },
        TypeM::Str(s) => s,
        TypeM::Sequence(items) => if items.len() == 0 {
            "()"@
        } else {
            spec_debug(items.last())
        },
        TypeM::Fn(ps, body, h) => Seq::empty(),
    }
}

/// The escape of one character inside a quoted debug rendering: the quote
/// and the backslash are escaped, as are newline, carriage return and
/// tab; every other character stands for itself.
pub open spec fn esc_char(c: char) -> Seq<char> {
    if c == '"' {
        "\\\""@
    } else if c == '\\' {
        "\\\\"@
    } else if c == '\n' {
        "\\n"@
    } else if c == '\r' {
        "\\r"@
    } else if c == '\t' {
        "\\t"@
    } else {
        seq![c]
    }
}


/// A text with those escapes applied to each character.
pub open spec fn escaped(s: Seq<char>) -> Seq<char>
    decreases s,
{
    if s.len() == 0 {
        Seq::empty()
    } else {
        escaped(s.drop_last()) + esc_char(s.last())
    }
}

/// The debug form of an AST node: its constructors spelled out, with
/// identifier text quoted and escaped.
pub open spec fn spec_debug_expr(e: ExprM) -> Seq<char>
    decreases e,
{
    match e {
        ExprM::List(v) => "List(["@ + spec_debug_exprs(v) + "])"@,
        ExprM::BinaryOp(op, l, r) => "BinaryOp("@ + spec_kind_name(op) + ", "@ + spec_debug_expr(
            *l,
        ) + ", "@ + spec_debug_expr(*r) + ")"@,
        ExprM::Bind(t, v) => "Bind("@ + spec_debug_expr(*t) + ", "@ + spec_debug_expr(*v) + ")"@,
        ExprM::FnDef(p, b) => "FnDef("@ + spec_debug_expr(*p) + ", "@ + spec_debug_expr(*b)
            + ")"@,
        ExprM::If(c, t, a) => "If("@ + spec_debug_expr(*c) + ", "@ + spec_debug_expr(*t) + ", "@
            + spec_debug_expr(*a) + ")"@,
        ExprM::Base(inner) => "Base("@ + spec_debug_expr(*inner) + ")"@,
        ExprM::Ident(s) => "Ident(\""@ + escaped(s) + "\")"@,
        ExprM::Value(n) => "Value("@ + spec_render_int(n) + ")"@,
    }
}

/// The comma-joined debug forms of a list of AST nodes.
pub open spec fn spec_debug_exprs(v: Seq<ExprM>) -> Seq<char>
    decreases v,
{
    if v.len() == 0 {
        Seq::empty()
    } else if v.len() == 1 {
        spec_debug_expr(v[0])
    } else {
        spec_debug_exprs(v.drop_last()) + ", "@ + spec_debug_expr(v.last())
    }
}

/// The debug form of a value: its constructors spelled out under the
/// short tags `Err`, `Int`, `Bool`, `Str`, `Seq` and `Fn`, with message
/// and string contents quoted and escaped, and a closure showing its
/// parameter names, its body tree and its scope handle.
pub open spec fn spec_debug(t: TypeM) -> Seq<char>
    decreases t,
{
    match t {
        TypeM::Error(m) => "Err(\""@ + escaped(m) + "\")"@,
        TypeM::Int(n) => "Int("@ + spec_render_int(n) + ")"@,
        TypeM::Bool(b) => if b {
            "Bool(true)"@
        } else {
            "Bool(false)"@
        },
        TypeM::Str(s) => "Str(\""@ + escaped(s) + "\")"@,
        TypeM::Sequence(items) => "Seq(["@ + spec_debug_types(items) + "])"@,
        TypeM::Fn(ps, body, h) => "Fn(["@ + spec_debug_names(ps) + "], "@ + spec_debug_expr(body)
            + ", "@ + spec_render_nat(h) + ")"@,
    }
}

/// The comma-joined debug forms of a list of values.
pub open spec fn spec_debug_types(v: Seq<TypeM>) -> Seq<char>
    decreases v,
{
    if v.len() == 0 {
        Seq::empty()
    } else if v.len() == 1 {
        spec_debug(v[0])
    } else {
        spec_debug_types(v.drop_last()) + ", "@ + spec_debug(v.last())
    }
}

/// The comma-joined, quoted parameter names of a closure.
pub open spec fn spec_debug_names(ps: Seq<Seq<char>>) -> Seq<char>
    decreases ps,
{
    if ps.len() == 0 {
        Seq::empty()
    } else if ps.len() == 1 {
        "\""@ + escaped(ps[0]) + "\""@
    } else {
        spec_debug_names(ps.drop_last()) + ", "@ + "\""@ + escaped(ps.last()) + "\""@
    }
}

fn digit_str(d: usize) -> (r: &'static str)
    requires
        d < 10,
    ensures
        r@ == seq![digit_char(d as int)],
{
    let r = match d {
        0 => "0",
        1 => "1",
        2 => "2",
        3 => "3",
        4 => "4",
        5 => "5",
        6 => "6",
        7 => "7",
        8 => "8",
        _ => "9",
    };
    proof {
        reveal_strlit("0");
        reveal_strlit("1");
        reveal_strlit("2");
        reveal_strlit("3");
        reveal_strlit("4");
        reveal_strlit("5");
        reveal_strlit("6");
        reveal_strlit("7");
        reveal_strlit("8");
        reveal_strlit("9");
    }
    r
}

fn render_nat(m: usize) -> (s: String)
    ensures
        s@ == spec_render_nat(m as int),
    decreases m,
{
    if m < 10 {
        String::from_str(digit_str(m))
    } else {
        let rest = render_nat(m / 10);
        rest.concat(digit_str(m % 10))
    }
}

/// The decimal form of a machine integer.
pub fn render_int(n: isize) -> (s: String)
    ensures
        s@ == spec_render_int(n as int),
{
    if n >= 0 {
        render_nat(n as usize)
    } else {
        let mag: usize = ((-(n + 1)) as usize) + 1;
        proof {
            assert(mag as int == -(n as int));
            reveal_strlit("-");
            assert("-"@ =~= seq!['-']);
        }
        String::from_str("-").concat(render_nat(mag).as_str())
    }
}

impl Type {
    /// The display form of the value.
    pub fn render(&self) -> (s: String)
        ensures
            s@ == spec_render(view_type(*self)),
    {
        match self {
            Type::Error(m) => m.clone(),
            Type::Int(n) => render_int(*n),
            Type::Bool(b) => {
                if *b {
                    let s = String::from_str("true");
                    s
                } else {
                    String::from_str("false")
                }
            },
            Type::Str(s) => s.clone(),
            Type::Sequence(items) => {
                if items.len() == 0 {
                    String::from_str("()")
                } else {
                    proof {
                        lemma_view_types_len(items@);
                    }
                    let last = &items[items.len() - 1];
                    proof {
                        assert(view_types(items@).last() == view_type(items@.last()));
                    }
                    debug_type(last)
                }
            },
            Type::Fn(ps, body, h) => String::new(),
        }
    }
}

fn debug_escape(s: &str) -> (r: String)
    ensures
        r@ == escaped(s@),
{
    let n = s.unicode_len();
    let mut out = String::new();
    proof {
        assert(s@.subrange(0, 0) =~= Seq::<char>::empty());
    }
    let mut i: usize = 0;
    while i < n
        invariant
            n == s@.len(),
            0 <= i <= n,
            out@ == escaped(s@.subrange(0, i as int)),
        decreases n - i,
    {
        let c = s.get_char(i);
        proof {
            let p = s@.subrange(0, i as int + 1);
            assert(p.drop_last() =~= s@.subrange(0, i as int));
            assert(p.last() == s@[i as int]);
        }
        if c == '"' {
            out.append("\\\"");
        } else if c == '\\' {
            out.append("\\\\");
        } else if c == '\n' {
            out.append("\\n");
        } else if c == '\r' {
            out.append("\\r");
        } else if c == '\t' {
            out.append("\\t");
        } else {
            let piece = s.substring_char(i, i + 1);
            proof {
                assert(piece@ =~= seq![s@[i as int]]);
            }
            out.append(piece);
        }
        i = i + 1;
    }
    proof {
        assert(s@.subrange(0, n as int) =~= s@);
    }
    out
}

/// The debug form of an AST node, exactly as `spec_debug_expr` spells it.
#[verifier::loop_isolation(false)]
pub fn debug_expr(e: &Expr) -> (r: String)
    ensures
        r@ == spec_debug_expr(view_expr(*e)),
    decreases *e,
{
    proof {
        reveal_with_fuel(view_expr, 2);
    }
    match e {
        Expr::List(v) => {
            let mut out = String::from_str("List([");
            let n = v.len();
            proof {
                lemma_view_exprs_len(v@);
                assert(view_exprs(v@.subrange(0, 0)) =~= Seq::<ExprM>::empty());
            }
            let mut i: usize = 0;
            while i < n
                invariant
                    0 <= i <= n,
                    n == v@.len(),
                    out@ == "List(["@ + spec_debug_exprs(view_exprs(v@.subrange(0, i as int))),
                decreases n - i,
            {
                proof {
                    assert(decreases_to!(*e => v@[i as int]));
                }
                if i > 0 {
                    out.append(", ");
                }
                let piece = debug_expr(&v[i]);
                out.append(piece.as_str());
                proof {
                    lemma_view_exprs_len(v@.subrange(0, i as int));
                    lemma_view_exprs_len(v@.subrange(0, i as int + 1));
                    let p0 = view_exprs(v@.subrange(0, i as int));
                    let p1 = view_exprs(v@.subrange(0, i as int + 1));
                    assert forall|k: int| 0 <= k < i + 1 implies p1[k] == (if k < i {
                        p0[k]
                    } else {
                        view_expr(v@[i as int])
                    }) by {
                        assert(p1[k] == view_expr(v@.subrange(0, i as int + 1)[k]));
                        assert(v@.subrange(0, i as int + 1)[k] == v@[k]);
                        if k < i {
                            assert(p0[k] == view_expr(v@.subrange(0, i as int)[k]));
                            assert(v@.subrange(0, i as int)[k] == v@[k]);
                        }
                    }
                    assert(p1.drop_last() =~= p0);
                    assert(p1.last() == view_expr(v@[i as int]));
                }
                i = i + 1;
            }
            out.append("])");
            proof {
                assert(v@.subrange(0, n as int) =~= v@);
            }
            out
        },
        Expr::BinaryOp(op, l, r2) => String::from_str("BinaryOp(").concat(kind_name(*op)).concat(
            ", ",
        ).concat(debug_expr(l).as_str()).concat(", ").concat(debug_expr(r2).as_str()).concat(")"),
        Expr::Bind(t, v) => String::from_str("Bind(").concat(debug_expr(t).as_str()).concat(
            ", ",
        ).concat(debug_expr(v).as_str()).concat(")"),
        Expr::FnDef(p, b) => String::from_str("FnDef(").concat(debug_expr(p).as_str()).concat(
            ", ",
        ).concat(debug_expr(b).as_str()).concat(")"),
        Expr::If(c, t, a) => String::from_str("If(").concat(debug_expr(c).as_str()).concat(
            ", ",
        ).concat(debug_expr(t).as_str()).concat(", ").concat(debug_expr(a).as_str()).concat(")"),
        Expr::Base(inner) => String::from_str("Base(").concat(debug_expr(inner).as_str()).concat(
            ")",
        ),
        Expr::Ident(s) => String::from_str("Ident(\"").concat(
            debug_escape(s.as_str()).as_str(),
        ).concat("\")"),
        Expr::Value(n) => String::from_str("Value(").concat(render_int(*n).as_str()).concat(")"),
    }
}

/// The debug form of a value, exactly as `spec_debug` spells it.
#[verifier::loop_isolation(false)]
pub fn debug_type(t: &Type) -> (r: String)
    ensures
        r@ == spec_debug(view_type(*t)),
    decreases *t,
{
    match t {
        Type::Error(m) => String::from_str("Err(\"").concat(
            debug_escape(m.as_str()).as_str(),
        ).concat("\")"),
        Type::Int(n) => String::from_str("Int(").concat(render_int(*n).as_str()).concat(")"),
        Type::Bool(b) => {
            if *b {
                String::from_str("Bool(true)")
            } else {
                String::from_str("Bool(false)")
            }
        },
        Type::Str(s) => String::from_str("Str(\"").concat(
            debug_escape(s.as_str()).as_str(),
        ).concat("\")"),
        Type::Sequence(v) => {
            let mut out = String::from_str("Seq([");
            let n = v.len();
            proof {
                lemma_view_types_len(v@);
                assert(view_types(v@.subrange(0, 0)) =~= Seq::<TypeM>::empty());
            }
            let mut i: usize = 0;
            while i < n
                invariant
                    0 <= i <= n,
                    n == v@.len(),
                    out@ == "Seq(["@ + spec_debug_types(view_types(v@.subrange(0, i as int))),
                decreases n - i,
            {
                proof {
                    assert(decreases_to!(*t => v@[i as int]));
                }
                if i > 0 {
                    out.append(", ");
                }
                let piece = debug_type(&v[i]);
                out.append(piece.as_str());
                proof {
                    lemma_view_types_len(v@.subrange(0, i as int));
                    lemma_view_types_len(v@.subrange(0, i as int + 1));
                    let p0 = view_types(v@.subrange(0, i as int));
                    let p1 = view_types(v@.subrange(0, i as int + 1));
                    assert forall|k: int| 0 <= k < i + 1 implies p1[k] == (if k < i {
                        p0[k]
                    } else {
                        view_type(v@[i as int])
                    }) by {
                        assert(p1[k] == view_type(v@.subrange(0, i as int + 1)[k]));
                        assert(v@.subrange(0, i as int + 1)[k] == v@[k]);
                        if k < i {
                            assert(p0[k] == view_type(v@.subrange(0, i as int)[k]));
                            assert(v@.subrange(0, i as int)[k] == v@[k]);
                        }
                    }
                    assert(p1.drop_last() =~= p0);
                    assert(p1.last() == view_type(v@[i as int]));
                }
                i = i + 1;
            }
            out.append("])");
            proof {
                assert(v@.subrange(0, n as int) =~= v@);
            }
            out
        },
        Type::Fn(ps, body, h) => {
            let mut out = String::from_str("Fn([");
            let n = ps.len();
            proof {
                assert(view_names(ps@).subrange(0, 0) =~= Seq::<Seq<char>>::empty());
            }
            let mut i: usize = 0;
            while i < n
                invariant
                    0 <= i <= n,
                    n == ps@.len(),
                    out@ == "Fn(["@ + spec_debug_names(view_names(ps@).subrange(0, i as int)),
                decreases n - i,
            {
                if i > 0 {
                    out.append(", ");
                }
                out.append("\"");
                let piece = debug_escape(ps[i].as_str());
                out.append(piece.as_str());
                out.append("\"");
                proof {
                    let p0 = view_names(ps@).subrange(0, i as int);
                    let p1 = view_names(ps@).subrange(0, i as int + 1);
                    assert(p1.drop_last() =~= p0);
                    assert(p1.last() == ps@[i as int]@);
                }
                i = i + 1;
            }
            out.append("], ");
            let body_str = debug_expr(body);
            out.append(body_str.as_str());
            out.append(", ");
            let handle_str = render_nat(*h);
            out.append(handle_str.as_str());
            out.append(")");
            proof {
                assert(view_names(ps@).subrange(0, n as int) =~= view_names(ps@));
            }
            out
        },
    }
}

} // verus!
