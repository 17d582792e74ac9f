//! Expressions: the tree, its model, and the parser that builds it.

use crate::parser::grammar;
use crate::parser::grammar::Rule;
use crate::parser::lower::LowerCase;
use crate::parser::parse_tools::{
    alpha1, char, committed, ident, int64, miss, parsed, shrinks, spaces, tag, tagged,
    take_till_quote, ParseResult,
};
use crate::text::{lemma_literal_len, lemma_span, span, Class};
use vstd::prelude::*;

verus! {

/// The binary operators, arithmetic first, then comparison.
#[derive(Debug, Clone, Copy, PartialEq, Eq, Structural)]
pub enum BinOp {
    Add,
    Sub,
    Mul,
    Div,
    Gt,
    Lt,
    Eq,
    Ne,
    Ge,
    Le,
}

impl BinOp {
    /// Whether the operator computes a number from two numbers.
    pub open spec fn is_arithmetic(self) -> bool {
        self is Add || self is Sub || self is Mul || self is Div
    }
}

/// An expression as it stands in a statement. Texts are borrowed from the
/// source line.
#[derive(Debug, PartialEq)]
pub enum Expr<'a> {
    Ident(LowerCase<'a>),
    Int(i64),
    String(&'a str),
    Add(Box<Expr<'a>>, Box<Expr<'a>>),
    Sub(Box<Expr<'a>>, Box<Expr<'a>>),
    Mul(Box<Expr<'a>>, Box<Expr<'a>>),
    Div(Box<Expr<'a>>, Box<Expr<'a>>),
    Gt(Box<Expr<'a>>, Box<Expr<'a>>),
    Lt(Box<Expr<'a>>, Box<Expr<'a>>),
    Eq(Box<Expr<'a>>, Box<Expr<'a>>),
    Ge(Box<Expr<'a>>, Box<Expr<'a>>),
    Le(Box<Expr<'a>>, Box<Expr<'a>>),
    Ne(Box<Expr<'a>>, Box<Expr<'a>>),
}

/// The mathematical model of an expression. An identifier stands as it was
/// written; its lower-case form is taken where it is looked up.
pub enum ExprV {
    Ident(Seq<char>),
    Int(i64),
    Text(Seq<char>),
    Binary(BinOp, Box<ExprV>, Box<ExprV>),
}

/// The model of the expression that applies `op` to `a` and `b`.
pub open spec fn binary(op: BinOp, a: ExprV, b: ExprV) -> ExprV {
    ExprV::Binary(op, Box::new(a), Box::new(b))
}

impl<'a> Expr<'a> {
    /// The model of the expression.
    pub open spec fn model(&self) -> ExprV
        decreases self,
    {
        match self {
            Expr::Ident(name) => ExprV::Ident(name@),
            Expr::Int(i) => ExprV::Int(*i),
            Expr::String(s) => ExprV::Text(s@),
            Expr::Add(a, b) => binary(BinOp::Add, a.model(), b.model()),
            Expr::Sub(a, b) => binary(BinOp::Sub, a.model(), b.model()),
            Expr::Mul(a, b) => binary(BinOp::Mul, a.model(), b.model()),
            Expr::Div(a, b) => binary(BinOp::Div, a.model(), b.model()),
            Expr::Gt(a, b) => binary(BinOp::Gt, a.model(), b.model()),
            Expr::Lt(a, b) => binary(BinOp::Lt, a.model(), b.model()),
            Expr::Eq(a, b) => binary(BinOp::Eq, a.model(), b.model()),
            Expr::Ge(a, b) => binary(BinOp::Ge, a.model(), b.model()),
            Expr::Le(a, b) => binary(BinOp::Le, a.model(), b.model()),
            Expr::Ne(a, b) => binary(BinOp::Ne, a.model(), b.model()),
        }
    }

    /// The node that applies `op` to `acc` and `expr`.
    pub fn parse_fn(op: BinOp, acc: Expr<'a>, expr: Expr<'a>) -> (r: Expr<'a>)
        ensures
            r@ == binary(op, acc@, expr@),
    {
        let a = Box::new(acc);
        let b = Box::new(expr);
        match op {
            BinOp::Add => Expr::Add(a, b),
            BinOp::Sub => Expr::Sub(a, b),
            BinOp::Mul => Expr::Mul(a, b),
            BinOp::Div => Expr::Div(a, b),
            BinOp::Gt => Expr::Gt(a, b),
            BinOp::Lt => Expr::Lt(a, b),
            BinOp::Eq => Expr::Eq(a, b),
            BinOp::Ne => Expr::Ne(a, b),
            BinOp::Ge => Expr::Ge(a, b),
            BinOp::Le => Expr::Le(a, b),
        }
    }
}

/// A text begins with a word of one character where it begins with that
/// character.
proof fn lemma_prefix_one(w: Seq<char>, s: Seq<char>)
    requires
        w.len() == 1,
    ensures
        w.is_prefix_of(s) <==> crate::text::starts_with(s, w[0]),
{
    if crate::text::starts_with(s, w[0]) {
        assert(w =~= s.subrange(0, 1));
    }
    if w.is_prefix_of(s) {
        assert(s.subrange(0, 1)[0] == s[0]);
    }
}

/// A text begins with a word of two characters where it begins with those
/// two.
proof fn lemma_prefix_two(w: Seq<char>, s: Seq<char>)
    requires
        w.len() == 2,
    ensures
        w.is_prefix_of(s) <==> grammar::starts_with_pair(s, w[0], w[1]),
{
    if grammar::starts_with_pair(s, w[0], w[1]) {
        assert(w =~= s.subrange(0, 2));
    }
    if w.is_prefix_of(s) {
        assert(s.subrange(0, 2)[0] == s[0]);
        assert(s.subrange(0, 2)[1] == s[1]);
    }
}

/// The operator of tier `tier` at the head of `s`, and the text behind it.
fn operator<'a>(tier: usize, s: &'a str) -> (r: Option<(BinOp, &'a str)>)
    ensures
        match r {
            Some((op, rest)) => grammar::operator(tier as nat, s@) matches Some((o, n)) && o == op
                && 0 < n <= s@.len() && rest@ == s@.skip(n as int),
            None => grammar::operator(tier as nat, s@) is None,
        },
{
    proof {
        reveal_strlit("*");
        reveal_strlit("/");
        reveal_strlit("+");
        reveal_strlit("-");
        reveal_strlit("<=");
        reveal_strlit(">=");
        reveal_strlit("<>");
        reveal_strlit("<");
        reveal_strlit(">");
        reveal_strlit("=");
        lemma_prefix_one("*"@, s@);
        lemma_prefix_one("/"@, s@);
        lemma_prefix_one("+"@, s@);
        lemma_prefix_one("-"@, s@);
        lemma_prefix_one("<"@, s@);
        lemma_prefix_one(">"@, s@);
        lemma_prefix_one("="@, s@);
        lemma_prefix_two("<="@, s@);
        lemma_prefix_two(">="@, s@);
        lemma_prefix_two("<>"@, s@);
    }
    if tier == 0 {
        if let Some(rest) = tag("*", s) {
            Some((BinOp::Mul, rest))
        } else if let Some(rest) = tag("/", s) {
            Some((BinOp::Div, rest))
        } else {
            None
        }
    } else if tier == 1 {
        if let Some(rest) = tag("+", s) {
            Some((BinOp::Add, rest))
        } else if let Some(rest) = tag("-", s) {
            Some((BinOp::Sub, rest))
        } else {
            None
        }
    } else {
        if let Some(rest) = tag("<=", s) {
            Some((BinOp::Le, rest))
        } else if let Some(rest) = tag(">=", s) {
            Some((BinOp::Ge, rest))
        } else if let Some(rest) = tag("<>", s) {
            Some((BinOp::Ne, rest))
        } else if let Some(rest) = tag("<", s) {
            Some((BinOp::Lt, rest))
        } else if let Some(rest) = tag(">", s) {
            Some((BinOp::Gt, rest))
        } else if let Some(rest) = tag("=", s) {
            Some((BinOp::Eq, rest))
        } else {
            None
        }
    }
}

/// The text in double quotes at the head of `s`.
fn parse_quoted<'a>(s: &'a str) -> (r: ParseResult<'a, Expr<'a>>)
    ensures
        parsed(r) == grammar::quoted(s@),
        shrinks(r, s@),
{
    let body = match char('"', s) {
        Some(body) => body,
        None => {
            return Err(miss(s));
        },
    };
    proof {
        lemma_span(Class::Unquoted, body@);
    }
    match take_till_quote(body) {
        Some((rest, text)) => match char('"', rest) {
            Some(behind) => {
                assert(behind@ =~= body@.skip(span(Class::Unquoted, body@) as int + 1));
                Ok((behind, Expr::String(text)))
            },
            None => Err(miss(rest)),
        },
        None => Err(miss(body)),
    }
}

impl<'a> Expr<'a> {
    /// Reads an identifier.
    pub fn parse_ident(s: &'a str) -> (r: ParseResult<'a, Expr<'a>>)
        ensures
            parsed(r) == grammar::name(s@),
            shrinks(r, s@),
    {
        proof {
            lemma_span(Class::Alpha, s@);
        }
        match alpha1(s) {
            Some((rest, word)) => Ok((rest, ident(word))),
            None => Err(miss(s)),
        }
    }

    /// Reads an atom.
    fn parse_atom(s: &'a str) -> (r: ParseResult<'a, Expr<'a>>)
        ensures
            parsed(r) == grammar::atom(s@),
            shrinks(r, s@),
        decreases s@.len(), 0nat,
    {
        if let Some(inside) = char('(', s) {
            let inner = spaces(inside);
            return match Expr::parse_tier(2, inner) {
                Ok((rest, e)) => {
                    let rest = spaces(rest);
                    match char(')', rest) {
                        Some(rest) => Ok((rest, e)),
                        None => {
                            let e = tagged(
                                committed(tagged(miss(rest), Rule::ClosingParen)),
                                Rule::BracketedExpr,
                            );
                            assert(e@.trail =~= seq![Rule::ClosingParen, Rule::BracketedExpr]);
                            Err(e)
                        },
                    }
                },
                Err(e) => Err(tagged(committed(e), Rule::BracketedExpr)),
            };
        }
        proof {
            lemma_span(Class::Alpha, s@);
            lemma_literal_len(s@);
        }
        if let Some((rest, word)) = alpha1(s) {
            return Ok((rest, ident(word)));
        }
        if let Some((rest, v)) = int64(s) {
            return Ok((rest, Expr::Int(v)));
        }
        parse_quoted(s)
    }

    /// Reads an operand of tier `k`: an atom for a product, a product for a
    /// sum, a sum for a comparison.
    fn parse_operand(k: usize, s: &'a str) -> (r: ParseResult<'a, Expr<'a>>)
        requires
            k <= 2,
        ensures
            parsed(r) == (if k == 0 {
                grammar::atom(s@)
            } else {
                grammar::tier((k - 1) as nat, s@)
            }),
            shrinks(r, s@),
        decreases s@.len(), 3 * k + 1,
    {
        if k == 0 {
            Expr::parse_atom(s)
        } else if k == 1 {
            Expr::parse_term(s)
        } else {
            Expr::parse_factor(s)
        }
    }

    /// Reads an expression of tier `k`: a first operand, then operators of
    /// the tier with their operands for as long as they follow.
    fn parse_tier(k: usize, s: &'a str) -> (r: ParseResult<'a, Expr<'a>>)
        requires
            k <= 2,
        ensures
            parsed(r) == grammar::tier(k as nat, s@),
            shrinks(r, s@),
        decreases s@.len(), 3 * k + 2,
    {
        let (first_rest, first) = Expr::parse_operand(k, s)?;
        let mut rest = first_rest;
        let mut acc = first;
        loop
            invariant
                k <= 2,
                rest@.len() <= s@.len(),
                grammar::tier(k as nat, s@) == grammar::chain(k as nat, acc@, rest@),
            decreases rest@.len(),
        {
            let found = operator(k, spaces(rest));
            match found {
                None => {
                    return Ok((rest, acc));
                },
                Some((op, behind)) => {
                    let t = spaces(behind);
                    match Expr::parse_operand(k, t) {
                        Ok((after, e)) => {
                            acc = Expr::parse_fn(op, acc, e);
                            rest = after;
                        },
                        Err(e) => {
                            if e.fatal {
                                return Err(e);
                            } else {
                                return Ok((rest, acc));
                            }
                        },
                    }
                },
            }
        }
    }

    /// Reads a product or quotient.
    fn parse_term(s: &'a str) -> (r: ParseResult<'a, Expr<'a>>)
        ensures
            parsed(r) == grammar::tier(0, s@),
            shrinks(r, s@),
        decreases s@.len(), 3nat,
    {
        Expr::parse_tier(0, s)
    }

    /// Reads a sum or difference.
    fn parse_factor(s: &'a str) -> (r: ParseResult<'a, Expr<'a>>)
        ensures
            parsed(r) == grammar::tier(1, s@),
            shrinks(r, s@),
        decreases s@.len(), 6nat,
    {
        Expr::parse_tier(1, s)
    }

    /// Reads an expression off the head of `s`. What is returned with it is
    /// the text behind the expression.
    pub fn parse(s: &'a str) -> (r: ParseResult<'a, Expr<'a>>)
        ensures
            parsed(r) == grammar::expression(s@),
            shrinks(r, s@),
    {
        Expr::parse_tier(2, s)
    }
}

impl<'a> View for Expr<'a> {
    type V = ExprV;

    open spec fn view(&self) -> ExprV {
        self.model()
    }
}

impl<'a> Clone for Expr<'a> {
    fn clone(&self) -> (r: Self)
        ensures
            r@ == self@,
        decreases self,
    {
        match self {
            Expr::Ident(name) => Expr::Ident(*name),
            Expr::Int(i) => Expr::Int(*i),
            Expr::String(s) => Expr::String(s),
            Expr::Add(a, b) => Expr::Add(Box::new((&**a).clone()), Box::new((&**b).clone())),
            Expr::Sub(a, b) => Expr::Sub(Box::new((&**a).clone()), Box::new((&**b).clone())),
            Expr::Mul(a, b) => Expr::Mul(Box::new((&**a).clone()), Box::new((&**b).clone())),
            Expr::Div(a, b) => Expr::Div(Box::new((&**a).clone()), Box::new((&**b).clone())),
            Expr::Gt(a, b) => Expr::Gt(Box::new((&**a).clone()), Box::new((&**b).clone())),
            Expr::Lt(a, b) => Expr::Lt(Box::new((&**a).clone()), Box::new((&**b).clone())),
            Expr::Eq(a, b) => Expr::Eq(Box::new((&**a).clone()), Box::new((&**b).clone())),
            Expr::Ge(a, b) => Expr::Ge(Box::new((&**a).clone()), Box::new((&**b).clone())),
            Expr::Le(a, b) => Expr::Le(Box::new((&**a).clone()), Box::new((&**b).clone())),
            Expr::Ne(a, b) => Expr::Ne(Box::new((&**a).clone()), Box::new((&**b).clone())),
        }
    }
}

} // verus!
