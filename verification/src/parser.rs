use vstd::prelude::*;
use crate::lexer::{Token, TokenKind, TokM, view_tokens, is_digit_char};
use crate::grammar::{Expr, ExprM, view_expr, view_exprs, lemma_view_exprs_push};
use crate::parse_error::ParseError;

verus! {

/// A recursive-descent parser over one token sequence at a time. The
/// cursor is reset by each `parse` call, so one parser value can serve
/// many inputs in turn. Every grammar alternative is tried from a saved
/// cursor position and the cursor is restored when the alternative fails,
/// so failed attempts never consume tokens.
pub struct Parser {
    current: usize,
    tokens: Vec<Token>,
}

/// A token text is a numeric literal when it is a non-empty run of ASCII
/// digits.
pub open spec fn all_digits(text: Seq<char>) -> bool {
    text.len() > 0 && forall|k: int| 0 <= k < text.len() ==> is_digit_char(#[trigger] text[k])
}

/// The value of a digit run, read in base ten.
pub open spec fn digits_val(text: Seq<char>) -> int
    decreases text,
{
    if text.len() == 0 {
        0
    } else {
        digits_val(text.drop_last()) * 10 + (text.last() as u32 - 48)
    }
}

/// The literal a `Num` token denotes: its digit value when the text is a
/// digit run whose value fits the target integer type, absent otherwise.
pub open spec fn sp_lit(text: Seq<char>) -> Option<int> {
    if all_digits(text) && digits_val(text) <= isize::MAX {
        Some(digits_val(text))
    } else {
        None
    }
}

/// The token under the cursor, unless the cursor is past the end or rests
/// on the `EOF` token.
pub open spec fn sp_peek(toks: Seq<TokM>, pos: int) -> Option<TokM> {
    if 0 <= pos < toks.len() && toks[pos].kind != TokenKind::EOF {
        Some(toks[pos])
    } else {
        None
    }
}

/// Demand one token of the given kind: consume it on a match, report
/// `UnexpectedSymbol` (with `EOF` as the actual kind at the end) otherwise.
pub open spec fn sp_expect(toks: Seq<TokM>, pos: int, kind: TokenKind) -> (Result<
    TokM,
    ParseError,
>, int) {
    match sp_peek(toks, pos) {
        Some(t) => if t.kind == kind {
            (Ok(t), pos + 1)
        } else {
            (Err(ParseError::UnexpectedSymbol(kind, t.kind)), pos)
        },
        None => (Err(ParseError::UnexpectedSymbol(kind, TokenKind::EOF)), pos),
    }
}

/// Demand one token whose kind lies in a candidate set; the error reports
/// the last candidate. An empty candidate set gives the generic error.
pub open spec fn sp_expect_any(toks: Seq<TokM>, pos: int, kinds: Seq<TokenKind>) -> (Result<
    TokenKind,
    ParseError,
>, int) {
    match sp_peek(toks, pos) {
        Some(t) => if kinds.contains(t.kind) {
            (Ok(t.kind), pos + 1)
        } else if kinds.len() == 0 {
            (Err(ParseError::Unknown), pos)
        } else {
            (Err(ParseError::UnexpectedSymbol(kinds.last(), t.kind)), pos)
        },
        None => if kinds.len() == 0 {
            (Err(ParseError::Unknown), pos)
        } else {
            (Err(ParseError::UnexpectedSymbol(kinds.last(), TokenKind::EOF)), pos)
        },
    }
}

/// The operator kinds a binary form may begin with.
pub open spec fn op_kinds() -> Seq<TokenKind> {
    seq![
        TokenKind::Plus,
        TokenKind::Minus,
        TokenKind::Star,
        TokenKind::Div,
        TokenKind::Eq,
        TokenKind::GreaterThan,
        TokenKind::GreaterThanEq,
        TokenKind::LessThan,
        TokenKind::LessThanEq,
    ]
}

/// A numeric literal.
pub open spec fn sp_value(toks: Seq<TokM>, pos: int) -> (Result<ExprM, ParseError>, int) {
    let e = sp_expect(toks, pos, TokenKind::Num);
    match e.0 {
        Err(er) => (Err(er), pos),
        Ok(tm) => match sp_lit(tm.text) {
            Some(v) => (Ok(ExprM::Value(v)), pos + 1),
            None => (Err(ParseError::Unknown), pos),
        },
    }
}

/// An identifier.
pub open spec fn sp_ident(toks: Seq<TokM>, pos: int) -> (Result<ExprM, ParseError>, int) {
    let e = sp_expect(toks, pos, TokenKind::Ident);
    match e.0 {
        Err(er) => (Err(er), pos),
        Ok(tm) => (Ok(ExprM::Ident(tm.text)), pos + 1),
    }
}

/// A base expression: a literal, else an identifier.
pub open spec fn sp_base(toks: Seq<TokM>, pos: int) -> (Result<ExprM, ParseError>, int) {
    let v = sp_value(toks, pos);
    if v.0 is Ok {
        v
    } else {
        sp_ident(toks, pos)
    }
}

/// An expression: a base expression, else a parenthesized form.
pub open spec fn sp_expr(toks: Seq<TokM>, pos: int) -> (Result<ExprM, ParseError>, int)
    decreases toks.len() - pos, 0int,
{
    let b = sp_base(toks, pos);
    if b.0 is Ok {
        b
    } else {
        match sp_expect(toks, pos, TokenKind::OpenParen).0 {
            Err(e) => (Err(e), pos),
            Ok(_) => {
                let (r1, p2) = sp_sub_expr(toks, pos + 1);
                match r1 {
                    Err(e) => (Err(e), pos),
                    Ok(em) => match sp_expect(toks, p2, TokenKind::CloseParen) {
                        (Err(e), _) => (Err(e), pos),
                        (Ok(_), p3) => (Ok(em), p3),
                    },
                }
            },
        }
    }
}

/// The body of a parenthesized form: a base expression, a binary form, a
/// `def` form, a `fn` form, an `if` form, or a nested expression — the
/// first alternative that parses wins, and a failed alternative leaves the
/// cursor where it began.
pub open spec fn sp_sub_expr(toks: Seq<TokM>, pos: int) -> (Result<ExprM, ParseError>, int)
    decreases toks.len() - pos, 3int,
{
    let b = sp_base(toks, pos);
    if b.0 is Ok {
        b
    } else {
        let bo = sp_binary_op(toks, pos);
        if bo.0 is Ok {
            bo
        } else {
            let bi = sp_bind(toks, pos);
            if bi.0 is Ok {
                bi
            } else {
                let f = sp_def_fn(toks, pos);
                if f.0 is Ok {
                    f
                } else {
                    let i = sp_if_expr(toks, pos);
                    if i.0 is Ok {
                        i
                    } else {
                        sp_expr(toks, pos)
                    }
                }
            }
        }
    }
}

/// An operator followed by two operand expressions.
///
/// Positions only grow as the parser consumes tokens; the arms below that
/// answer the generic error when a returned position failed to grow exist
/// only to keep this recursion well-founded, and are never reached.
pub open spec fn sp_binary_op(toks: Seq<TokM>, pos: int) -> (Result<ExprM, ParseError>, int)
    decreases toks.len() - pos, 1int,
{
    match sp_expect_any(toks, pos, op_kinds()).0 {
        Err(e) => (Err(e), pos),
        Ok(kind) => {
            let (r1, p2) = sp_expr(toks, pos + 1);
            match r1 {
                Err(e) => (Err(e), pos),
                Ok(l) => if !(pos + 1 < p2 <= toks.len()) {
                    (Err(ParseError::Unknown), pos)
                } else {
                    let (r2, p3) = sp_expr(toks, p2);
                    match r2 {
                        Err(e) => (Err(e), pos),
                        Ok(r) => (
                            (Ok(ExprM::BinaryOp(kind, Box::new(l), Box::new(r)))),
                            p3,
                        ),
                    }
                },
            }
        },
    }
}

/// `def` followed by an identifier and a value expression.
pub open spec fn sp_bind(toks: Seq<TokM>, pos: int) -> (Result<ExprM, ParseError>, int)
    decreases toks.len() - pos, 1int,
{
    match sp_expect(toks, pos, TokenKind::Def).0 {
        Err(e) => (Err(e), pos),
        Ok(_) => {
            let (r1, p2) = sp_ident(toks, pos + 1);
            match r1 {
                Err(e) => (Err(e), pos),
                Ok(id) => {
                    let (r2, p3) = sp_expr(toks, p2);
                    match r2 {
                        Err(e) => (Err(e), pos),
                        Ok(v) => ((Ok(ExprM::Bind(Box::new(id), Box::new(v)))), p3),
                    }
                },
            }
        },
    }
}

/// Zero or more identifiers, the parameter list of a `fn` form, gathered
/// onto an accumulator.
pub open spec fn sp_params(toks: Seq<TokM>, pos: int, acc: Seq<ExprM>) -> (Seq<ExprM>, int)
    decreases toks.len() - pos, 0int,
{
    match sp_peek(toks, pos) {
        Some(t) => if t.kind == TokenKind::Ident {
            sp_params(toks, pos + 1, acc.push(ExprM::Ident(t.text)))
        } else {
            (acc, pos)
        },
        None => (acc, pos),
    }
}

/// `fn` followed by a parenthesized parameter list and a body expression.
///
/// As in `sp_binary_op`, the arm that answers the generic error when a
/// position failed to grow is never reached.
pub open spec fn sp_def_fn(toks: Seq<TokM>, pos: int) -> (Result<ExprM, ParseError>, int)
    decreases toks.len() - pos, 1int,
{
    match sp_expect(toks, pos, TokenKind::Fn).0 {
        Err(e) => (Err(e), pos),
        Ok(_) => match sp_expect(toks, pos + 1, TokenKind::OpenParen).0 {
            Err(e) => (Err(e), pos),
            Ok(_) => {
                let (params, p2) = sp_params(toks, pos + 2, Seq::empty());
                if !(pos + 1 < p2 <= toks.len()) {
                    (Err(ParseError::Unknown), pos)
                } else {
                    match sp_expect(toks, p2, TokenKind::CloseParen).0 {
                        Err(e) => (Err(e), pos),
                        Ok(_) => {
                            let (r2, p3) = sp_expr(toks, p2 + 1);
                            match r2 {
                                Err(e) => (Err(e), pos),
                                Ok(body) => (
                                    (Ok(
                                        ExprM::FnDef(
                                            Box::new(ExprM::List(params)),
                                            Box::new(body),
                                        ),
                                    )),
                                    p3,
                                ),
                            }
                        },
                    }
                }
            },
        },
    }
}

/// `if` followed by a test, a consequent and an alternate expression.
///
/// As in `sp_binary_op`, the arms that answer the generic error when a
/// position failed to grow are never reached.
pub open spec fn sp_if_expr(toks: Seq<TokM>, pos: int) -> (Result<ExprM, ParseError>, int)
    decreases toks.len() - pos, 1int,
{
    match sp_expect(toks, pos, TokenKind::If).0 {
        Err(e) => (Err(e), pos),
        Ok(_) => {
            let (r1, p2) = sp_expr(toks, pos + 1);
            match r1 {
                Err(e) => (Err(e), pos),
                Ok(c) => if !(pos + 1 < p2 <= toks.len()) {
                    (Err(ParseError::Unknown), pos)
                } else {
                    let (r2, p3) = sp_expr(toks, p2);
                    match r2 {
                        Err(e) => (Err(e), pos),
                        Ok(t) => if !(p2 < p3 <= toks.len()) {
                            (Err(ParseError::Unknown), pos)
                        } else {
                            let (r3, p4) = sp_expr(toks, p3);
                            match r3 {
                                Err(e) => (Err(e), pos),
                                Ok(a) => (
                                    (Ok(
                                        ExprM::If(Box::new(c), Box::new(t), Box::new(a)),
                                    )),
                                    p4,
                                ),
                            }
                        },
                    }
                },
            }
        },
    }
}

/// The expressions of a whole program, gathered onto an accumulator, until
/// the cursor reaches the end of the tokens.
pub open spec fn sp_list_items(toks: Seq<TokM>, pos: int, acc: Seq<ExprM>) -> (Result<
    Seq<ExprM>,
    ParseError,
>, int)
    decreases toks.len() - pos, 4int,
{
    match sp_peek(toks, pos) {
        None => (Ok(acc), pos),
        Some(_) => {
            let (r, p2) = sp_expr(toks, pos);
            match r {
                Err(e) => (Err(e), pos),
                Ok(em) => if !(pos < p2 <= toks.len()) {
                    (Err(ParseError::Unknown), pos)
                } else {
                    sp_list_items(toks, p2, acc.push(em))
                },
            }
        },
    }
}

/// The model of `parse`: a whole program read as a `List` of expressions.
/// An empty token sequence parses to an empty `List`; the first failing
/// expression aborts the parse with its error.
pub open spec fn sp_parse(toks: Seq<TokM>) -> Result<ExprM, ParseError> {
    match sp_list_items(toks, 0, Seq::empty()).0 {
        Ok(items) => Ok(ExprM::List(items)),
        Err(e) => Err(e),
    }
}

/// How an executable parse result models a specification-level one: same
/// success or failure, the same error, and on success the same tree.
pub open spec fn res_models(r: Result<Expr, ParseError>, sr: Result<ExprM, ParseError>) -> bool {
    match r {
        Ok(e) => sr is Ok && view_expr(e) == sr->Ok_0,
        Err(a) => sr is Err && a == sr->Err_0,
    }
}

proof fn lemma_digits_val_nonneg(text: Seq<char>)
    requires
        forall|k: int| 0 <= k < text.len() ==> is_digit_char(#[trigger] text[k]),
    ensures
        digits_val(text) >= 0,
    decreases text,
{
    if text.len() > 0 {
        assert(forall|k: int|
            0 <= k < text.drop_last().len() ==> is_digit_char(#[trigger] text.drop_last()[k]));
        lemma_digits_val_nonneg(text.drop_last());
    }
}

proof fn lemma_digits_val_prefix_le(text: Seq<char>, i: int)
    requires
        forall|k: int| 0 <= k < text.len() ==> is_digit_char(#[trigger] text[k]),
        0 <= i <= text.len(),
    ensures
        digits_val(text.subrange(0, i)) <= digits_val(text),
    decreases text.len() - i,
{
    if i == text.len() {
        assert(text.subrange(0, i) =~= text);
    } else {
        lemma_digits_val_prefix_le(text, i + 1);
        let p = text.subrange(0, i + 1);
        assert(forall|k: int| 0 <= k < p.len() ==> is_digit_char(#[trigger] p[k]));
        lemma_digits_val_nonneg(p.drop_last());
        assert(p.drop_last() =~= text.subrange(0, i));
        assert(digits_val(p) == digits_val(text.subrange(0, i)) * 10 + (p.last() as u32 - 48));
        assert(p.last() as u32 >= 48);
        assert(digits_val(text.subrange(0, i)) <= digits_val(p));
    }
}

fn parse_digits(text: &String) -> (o: Option<isize>)
    ensures
        match o {
            Some(x) => sp_lit(text@) == Some(x as int),
            None => sp_lit(text@) is None,
        },
{
    let s = text.as_str();
    let n = s.unicode_len();
    if n == 0 {
        return None;
    }
    let mut acc: usize = 0;
    let mut i: usize = 0;
    while i < n
        invariant
            n == s@.len(),
            s@ == text@,
            0 <= i <= n,
            i > 0 ==> acc as int == digits_val(s@.subrange(0, i as int)),
            i == 0 ==> acc == 0,
            acc <= isize::MAX as usize,
            forall|k: int| 0 <= k < i ==> is_digit_char(#[trigger] s@[k]),
        decreases n - i,
    {
        let c = s.get_char(i);
        let u = c as u32;
        if !(48 <= u && u <= 57) {
            assert(!is_digit_char(s@[i as int]));
            assert(!all_digits(text@));
            return None;
        }
        let d = (u - 48) as usize;
        proof {
            let p = s@.subrange(0, i as int + 1);
            assert(p.drop_last() =~= s@.subrange(0, i as int));
            assert(p.last() == s@[i as int]);
            assert(digits_val(p) == digits_val(s@.subrange(0, i as int)) * 10 + (s@[i as int]
                as u32 - 48));
            if i == 0 {
                assert(s@.subrange(0, 0) =~= Seq::<char>::empty());
                assert(digits_val(s@.subrange(0, 0)) == 0);
            }
        }
        let next_opt = acc.checked_mul(10);
        let over: bool = match next_opt {
            Some(m) => {
                match m.checked_add(d) {
                    Some(a) => {
                        if a > isize::MAX as usize {
                            true
                        } else {
                            acc = a;
                            false
                        }
                    },
                    None => true,
                }
            },
            None => true,
        };
        if over {
            proof {
                let p = s@.subrange(0, i as int + 1);
                assert(digits_val(p) > isize::MAX);
                if all_digits(text@) {
                    lemma_digits_val_prefix_le(text@, i as int + 1);
                    assert(digits_val(text@) > isize::MAX);
                }
            }
            return None;
        }
        i = i + 1;
    }
    proof {
        assert(s@.subrange(0, n as int) =~= s@);
        assert(all_digits(text@));
    }
    Some(acc as isize)
}

impl Parser {
    pub closed spec fn toks(&self) -> Seq<TokM> {
        view_tokens(self.tokens@)
    }

    pub closed spec fn pos(&self) -> int {
        self.current as int
    }

    /// A fresh parser with an empty token sequence and the cursor at its
    /// start.
    pub fn new() -> (p: Parser)
        ensures
            p.pos() == 0,
            p.toks().len() == 0,
    {
        Parser { current: 0, tokens: Vec::new() }
    }

    /// Parses one token sequence into a single `List` tree, exactly as
    /// `sp_parse` describes: `Ok` with the tree of every expression of the
    /// program, or the first error. No partial tree is returned.
    pub fn parse(&mut self, tokens: Vec<Token>) -> (r: Result<Expr, ParseError>)
        ensures
            res_models(r, sp_parse(view_tokens(tokens@))),
            final(self).toks() == view_tokens(tokens@),
    {
        self.tokens = tokens;
        self.current = 0;
        self.list()
    }

    /// Every expression up to the end of the tokens, as a `List` node.
    fn list(&mut self) -> (r: Result<Expr, ParseError>)
        requires
            old(self).pos() == 0,
        ensures
            final(self).toks() == old(self).toks(),
            res_models(r, sp_parse(old(self).toks())),
    {
        let ghost toks = self.toks();
        let mut exprs: Vec<Expr> = Vec::new();
        proof {
            assert(view_exprs(exprs@) =~= Seq::<ExprM>::empty());
        }
        loop
            invariant
                toks == old(self).toks(),
                self.toks() == toks,
                self.pos() <= toks.len(),
                sp_list_items(toks, 0, Seq::empty()) == sp_list_items(
                    toks,
                    self.pos(),
                    view_exprs(exprs@),
                ),
            decreases toks.len() - self.pos(),
        {
            let more = match self.peek() {
                Some(_) => true,
                None => false,
            };
            if !more {
                assert(sp_peek(toks, self.pos()) is None);
                assert(sp_list_items(toks, 0, Seq::empty()) == (
                    Ok::<Seq<ExprM>, ParseError>(view_exprs(exprs@)),
                    self.pos(),
                ));
                return Ok(Expr::List(exprs));
            }
            assert(sp_peek(toks, self.pos()) is Some);
            let ghost pos0 = self.pos();
            let ghost acc0 = view_exprs(exprs@);
            let e = match self.expr() {
                Ok(e) => e,
                Err(er) => {
                    return Err(er);
                },
            };
            proof {
                lemma_view_exprs_push(exprs@, e);
                assert(view_exprs(exprs@) + seq![view_expr(e)] =~= view_exprs(exprs@).push(
                    view_expr(e),
                ));
                assert(sp_list_items(toks, pos0, acc0) == sp_list_items(
                    toks,
                    self.pos(),
                    acc0.push(view_expr(e)),
                ));
            }
            exprs.push(e);
        }
    }

    /// One expression: a literal or identifier, else a parenthesized form.
    fn expr(&mut self) -> (r: Result<Expr, ParseError>)
        ensures
            final(self).toks() == old(self).toks(),
            ({
                let (sr, sp) = sp_expr(old(self).toks(), old(self).pos());
                res_models(r, sr) && final(self).pos() == sp
            }),
            r is Ok ==> old(self).pos() < final(self).pos() <= final(self).toks().len(),
            r is Err ==> final(self).pos() == old(self).pos(),
        decreases self.tokens@.len() - self.current, 0int,
    {
        match self.base() {
            Ok(e) => {
                return Ok(e);
            },
            Err(_) => {},
        }
        let saved = self.current;
        match self.expect(TokenKind::OpenParen) {
            Ok(_) => {},
            Err(e) => {
                return Err(e);
            },
        }
        let inner = match self.sub_expr() {
            Ok(e) => e,
            Err(e) => {
                self.current = saved;
                return Err(e);
            },
        };
        match self.expect(TokenKind::CloseParen) {
            Ok(_) => Ok(inner),
            Err(e) => {
                self.current = saved;
                Err(e)
            },
        }
    }

    /// The body of a parenthesized form, by trying each alternative in
    /// turn from the same starting position.
    fn sub_expr(&mut self) -> (r: Result<Expr, ParseError>)
        ensures
            final(self).toks() == old(self).toks(),
            ({
                let (sr, sp) = sp_sub_expr(old(self).toks(), old(self).pos());
                res_models(r, sr) && final(self).pos() == sp
            }),
            r is Ok ==> old(self).pos() < final(self).pos() <= final(self).toks().len(),
            r is Err ==> final(self).pos() == old(self).pos(),
        decreases self.tokens@.len() - self.current, 3int,
    {
        match self.base() {
            Ok(e) => {
                return Ok(e);
            },
            Err(_) => {},
        }
        match self.binary_op() {
            Ok(e) => {
                return Ok(e);
            },
            Err(_) => {},
        }
        match self.bind() {
            Ok(e) => {
                return Ok(e);
            },
            Err(_) => {},
        }
        match self.def_fn() {
            Ok(e) => {
                return Ok(e);
            },
            Err(_) => {},
        }
        match self.if_expr() {
            Ok(e) => {
                return Ok(e);
            },
            Err(_) => {},
        }
        self.expr()
    }

    /// An operator and its two operands.
    fn binary_op(&mut self) -> (r: Result<Expr, ParseError>)
        ensures
            final(self).toks() == old(self).toks(),
            ({
                let (sr, sp) = sp_binary_op(old(self).toks(), old(self).pos());
                res_models(r, sr) && final(self).pos() == sp
            }),
            r is Ok ==> old(self).pos() < final(self).pos() <= final(self).toks().len(),
            r is Err ==> final(self).pos() == old(self).pos(),
        decreases self.tokens@.len() - self.current, 1int,
    {
        let saved = self.current;
        let kinds: Vec<TokenKind> = vec![
            TokenKind::Plus,
            TokenKind::Minus,
            TokenKind::Star,
            TokenKind::Div,
            TokenKind::Eq,
            TokenKind::GreaterThan,
            TokenKind::GreaterThanEq,
            TokenKind::LessThan,
            TokenKind::LessThanEq,
        ];
        proof {
            assert(kinds@ =~= op_kinds());
        }
        let op = match self.expect_any(&kinds) {
            Ok(k) => k,
            Err(e) => {
                return Err(e);
            },
        };
        let left = match self.expr() {
            Ok(e) => e,
            Err(e) => {
                self.current = saved;
                return Err(e);
            },
        };
        let right = match self.expr() {
            Ok(e) => e,
            Err(e) => {
                self.current = saved;
                return Err(e);
            },
        };
        Ok(Expr::BinaryOp(op, Box::new(left), Box::new(right)))
    }

    /// A `def` form.
    fn bind(&mut self) -> (r: Result<Expr, ParseError>)
        ensures
            final(self).toks() == old(self).toks(),
            ({
                let (sr, sp) = sp_bind(old(self).toks(), old(self).pos());
                res_models(r, sr) && final(self).pos() == sp
            }),
            r is Ok ==> old(self).pos() < final(self).pos() <= final(self).toks().len(),
            r is Err ==> final(self).pos() == old(self).pos(),
        decreases self.tokens@.len() - self.current, 1int,
    {
        let saved = self.current;
        match self.expect(TokenKind::Def) {
            Ok(_) => {},
            Err(e) => {
                return Err(e);
            },
        }
        let id = match self.ident() {
            Ok(e) => e,
            Err(e) => {
                self.current = saved;
                return Err(e);
            },
        };
        let value = match self.expr() {
            Ok(e) => e,
            Err(e) => {
                self.current = saved;
                return Err(e);
            },
        };
        Ok(Expr::Bind(Box::new(id), Box::new(value)))
    }

    /// A `fn` form: `fn` `(` zero or more identifiers `)` body.
    fn def_fn(&mut self) -> (r: Result<Expr, ParseError>)
        ensures
            final(self).toks() == old(self).toks(),
            ({
                let (sr, sp) = sp_def_fn(old(self).toks(), old(self).pos());
                res_models(r, sr) && final(self).pos() == sp
            }),
            r is Ok ==> old(self).pos() < final(self).pos() <= final(self).toks().len(),
            r is Err ==> final(self).pos() == old(self).pos(),
        decreases self.tokens@.len() - self.current, 1int,
    {
        let ghost toks = self.toks();
        let saved = self.current;
        match self.expect(TokenKind::Fn) {
            Ok(_) => {},
            Err(e) => {
                return Err(e);
            },
        }
        match self.expect(TokenKind::OpenParen) {
            Ok(_) => {},
            Err(e) => {
                self.current = saved;
                return Err(e);
            },
        }
        let ghost pstart = self.pos();
        let mut params: Vec<Expr> = Vec::new();
        proof {
            assert(view_exprs(params@) =~= Seq::<ExprM>::empty());
        }
        while self.current < self.tokens.len() && self.tokens[self.current].kind
            == TokenKind::Ident
            invariant
                toks == old(self).toks(),
                saved == old(self).current,
                self.toks() == toks,
                pstart <= self.pos() <= toks.len(),
                sp_params(toks, pstart, Seq::empty()) == sp_params(
                    toks,
                    self.pos(),
                    view_exprs(params@),
                ),
            decreases toks.len() - self.pos(),
        {
            let ghost pcur = self.pos();
            let tok_text = self.tokens[self.current].value.clone();
            let e = Expr::Ident(tok_text);
            proof {
                assert(sp_peek(toks, pcur) == Some(toks[pcur]));
                assert(toks[pcur].kind == TokenKind::Ident);
                assert(view_expr(e) == ExprM::Ident(toks[pcur].text));
                lemma_view_exprs_push(params@, e);
                assert(view_exprs(params@) + seq![view_expr(e)] =~= view_exprs(params@).push(
                    view_expr(e),
                ));
                assert(sp_params(toks, pcur, view_exprs(params@)) == sp_params(
                    toks,
                    pcur + 1,
                    view_exprs(params@).push(view_expr(e)),
                ));
            }
            params.push(e);
            self.current = self.current + 1;
        }
        proof {
            assert(sp_peek(toks, self.pos()) is Some ==> sp_peek(toks, self.pos())->0.kind
                != TokenKind::Ident);
            assert(sp_params(toks, pstart, Seq::empty()) == (view_exprs(params@), self.pos()));
        }
        match self.expect(TokenKind::CloseParen) {
            Ok(_) => {},
            Err(e) => {
                self.current = saved;
                return Err(e);
            },
        }
        let body = match self.expr() {
            Ok(e) => e,
            Err(e) => {
                self.current = saved;
                return Err(e);
            },
        };
        let ghost pv = params@;
        let plist = Expr::List(params);
        proof {
            assert(view_expr(plist) == ExprM::List(view_exprs(pv)));
        }
        Ok(Expr::FnDef(Box::new(plist), Box::new(body)))
    }

    /// An `if` form: test, consequent, alternate.
    fn if_expr(&mut self) -> (r: Result<Expr, ParseError>)
        ensures
            final(self).toks() == old(self).toks(),
            ({
                let (sr, sp) = sp_if_expr(old(self).toks(), old(self).pos());
                res_models(r, sr) && final(self).pos() == sp
            }),
            r is Ok ==> old(self).pos() < final(self).pos() <= final(self).toks().len(),
            r is Err ==> final(self).pos() == old(self).pos(),
        decreases self.tokens@.len() - self.current, 1int,
    {
        let saved = self.current;
        match self.expect(TokenKind::If) {
            Ok(_) => {},
            Err(e) => {
                return Err(e);
            },
        }
        let cond = match self.expr() {
            Ok(e) => e,
            Err(e) => {
                self.current = saved;
                return Err(e);
            },
        };
        let cons = match self.expr() {
            Ok(e) => e,
            Err(e) => {
                self.current = saved;
                return Err(e);
            },
        };
        let alt = match self.expr() {
            Ok(e) => e,
            Err(e) => {
                self.current = saved;
                return Err(e);
            },
        };
        Ok(Expr::If(Box::new(cond), Box::new(cons), Box::new(alt)))
    }

    /// A literal, else an identifier.
    fn base(&mut self) -> (r: Result<Expr, ParseError>)
        ensures
            final(self).toks() == old(self).toks(),
            ({
                let (sr, sp) = sp_base(old(self).toks(), old(self).pos());
                res_models(r, sr) && final(self).pos() == sp
            }),
            r is Ok ==> old(self).pos() < final(self).pos() <= final(self).toks().len(),
            r is Err ==> final(self).pos() == old(self).pos(),
    {
        match self.value() {
            Ok(e) => Ok(e),
            Err(_) => self.ident(),
        }
    }

    /// An identifier token, as an `Ident` node.
    fn ident(&mut self) -> (r: Result<Expr, ParseError>)
        ensures
            final(self).toks() == old(self).toks(),
            ({
                let (sr, sp) = sp_ident(old(self).toks(), old(self).pos());
                res_models(r, sr) && final(self).pos() == sp
            }),
            r is Ok ==> old(self).pos() < final(self).pos() <= final(self).toks().len(),
            r is Err ==> final(self).pos() == old(self).pos(),
    {
        match self.expect(TokenKind::Ident) {
            Ok(text) => Ok(Expr::Ident(text)),
            Err(e) => Err(e),
        }
    }

    /// A numeric literal token, as a `Value` node. A token whose text is
    /// not a digit run, or whose value does not fit, gives the generic
    /// error and leaves the cursor where it began.
    fn value(&mut self) -> (r: Result<Expr, ParseError>)
        ensures
            final(self).toks() == old(self).toks(),
            ({
                let (sr, sp) = sp_value(old(self).toks(), old(self).pos());
                res_models(r, sr) && final(self).pos() == sp
            }),
            r is Ok ==> old(self).pos() < final(self).pos() <= final(self).toks().len(),
            r is Err ==> final(self).pos() == old(self).pos(),
    {
        let saved = self.current;
        match self.expect(TokenKind::Num) {
            Ok(text) => {
                match parse_digits(&text) {
                    Some(v) => Ok(Expr::Value(v)),
                    None => {
                        self.current = saved;
                        Err(ParseError::Unknown)
                    },
                }
            },
            Err(e) => Err(e),
        }
    }

    /// The kind of the token under the cursor, unless the cursor is past
    /// the end or rests on the `EOF` token.
    fn peek(&self) -> (r: Option<TokenKind>)
        ensures
            match sp_peek(self.toks(), self.pos()) {
                Some(tm) => r == Some(tm.kind),
                None => r is None,
            },
    {
        if self.current < self.tokens.len() {
            let k = self.tokens[self.current].kind;
            if k != TokenKind::EOF {
                return Some(k);
            }
        }
        None
    }

    /// Demand one token of the given kind, handing back its text.
    fn expect(&mut self, kind: TokenKind) -> (r: Result<String, ParseError>)
        ensures
            final(self).toks() == old(self).toks(),
            ({
                let (sr, sp) = sp_expect(old(self).toks(), old(self).pos(), kind);
                final(self).pos() == sp && match (r, sr) {
                    (Ok(s), Ok(tm)) => s@ == tm.text,
                    (Err(a), Err(b)) => a == b,
                    _ => false,
                }
            }),
    {
        if self.current < self.tokens.len() {
            let tk = self.tokens[self.current].kind;
            if tk != TokenKind::EOF {
                if tk == kind {
                    let text = self.tokens[self.current].value.clone();
                    self.current = self.current + 1;
                    return Ok(text);
                }
                return Err(ParseError::UnexpectedSymbol(kind, tk));
            }
        }
        Err(ParseError::UnexpectedSymbol(kind, TokenKind::EOF))
    }

    /// Demand one token whose kind lies in the candidate set, handing back
    /// the kind found.
    fn expect_any(&mut self, kinds: &Vec<TokenKind>) -> (r: Result<TokenKind, ParseError>)
        ensures
            final(self).toks() == old(self).toks(),
            ({
                let (sr, sp) = sp_expect_any(old(self).toks(), old(self).pos(), kinds@);
                final(self).pos() == sp && match (r, sr) {
                    (Ok(k), Ok(sk)) => k == sk,
                    (Err(a), Err(b)) => a == b,
                    _ => false,
                }
            }),
    {
        if self.current < self.tokens.len() {
            let tk = self.tokens[self.current].kind;
            if tk != TokenKind::EOF {
                let mut idx: usize = 0;
                let mut matched: bool = false;
                while idx < kinds.len() && !matched
                    invariant
                        0 <= idx <= kinds@.len(),
                        !matched ==> forall|k: int| 0 <= k < idx ==> kinds@[k] != tk,
                        matched ==> kinds@.contains(tk),
                    decreases kinds@.len() - idx, (if matched { 0int } else { 1int }),
                {
                    if kinds[idx] == tk {
                        proof {
                            assert(kinds@[idx as int] == tk);
                        }
                        matched = true;
                    } else {
                        idx = idx + 1;
                    }
                }
                if matched {
                    self.current = self.current + 1;
                    return Ok(tk);
                }
                assert(!kinds@.contains(tk));
                if kinds.len() == 0 {
                    return Err(ParseError::Unknown);
                }
                return Err(ParseError::UnexpectedSymbol(kinds[kinds.len() - 1], tk));
            }
        }
        if kinds.len() == 0 {
            return Err(ParseError::Unknown);
        }
        Err(ParseError::UnexpectedSymbol(kinds[kinds.len() - 1], TokenKind::EOF))
    }
}

} // verus!
