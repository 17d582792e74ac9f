//! Arithmetic written without brackets is read and evaluated by the usual
//! rules: products and quotients before sums and differences, and each from
//! the left. Brackets group what stands within them.
//!
//! The rules are stated here on their own, over a number and the operations
//! that follow it and over arithmetic with an operand in brackets wherever it
//! is not a number, and the reading of the text that writes them down is
//! proved to evaluate to the same.

use crate::exec::error::ErrorKind;
use crate::exec::semantics::{arithmetic, eval_int};
use crate::parser::expr::{binary, BinOp, ExprV};
use crate::parser::grammar::{atom, chain, expression, operator, tier, Parsed};
use crate::parser::theorems::{lemma_chain, lemma_tier};
use crate::text::{
    digit_char, digit_value, digits, is_digit, is_space, lemma_span_unique, magnitude, member,
    skip_spaces, span, Class,
};
use vstd::prelude::*;

verus! {

/// One operation behind a number: white space, an operator, white space,
/// and the number it works with.
pub struct Operation {
    pub before: Seq<char>,
    pub op: BinOp,
    pub after: Seq<char>,
    pub number: nat,
}

/// Whether `g` is white space throughout.
pub open spec fn blank(g: Seq<char>) -> bool {
    forall|i: int| 0 <= i < g.len() ==> is_space(#[trigger] g[i])
}

/// Whether the operations are arithmetic, on numbers that fit in 64 bits.
pub open spec fn plain(ops: Seq<Operation>) -> bool {
    forall|i: int|
        0 <= i < ops.len() ==> {
            let o = #[trigger] ops[i];
            o.op.is_arithmetic() && o.number <= i64::MAX && blank(o.before) && blank(o.after)
        }
}

/// The character that writes an arithmetic operator.
pub open spec fn symbol(op: BinOp) -> char {
    match op {
        BinOp::Add => '+',
        BinOp::Sub => '-',
        BinOp::Mul => '*',
        _ => '/',
    }
}

/// How the operations are written, one behind the other.
pub open spec fn operations_text(ops: Seq<Operation>) -> Seq<char>
    decreases ops.len(),
{
    if ops.len() == 0 {
        Seq::empty()
    } else {
        ops[0].before + seq![symbol(ops[0].op)] + ops[0].after + digits(ops[0].number)
            + operations_text(ops.skip(1))
    }
}

/// How a number and the operations behind it are written.
pub open spec fn flat_text(first: nat, ops: Seq<Operation>) -> Seq<char> {
    digits(first) + operations_text(ops)
}

/// Whether the operator multiplies or divides.
pub open spec fn binds_first(op: BinOp) -> bool {
    op is Mul || op is Div
}

/// How many operations at the head of `ops` multiply or divide.
pub open spec fn factors(ops: Seq<Operation>) -> nat
    decreases ops.len(),
{
    if ops.len() > 0 && binds_first(ops[0].op) {
        1 + factors(ops.skip(1))
    } else {
        0
    }
}

/// An operator applied to two results of which either may be a failure; that
/// of the left comes first.
pub open spec fn apply(op: BinOp, a: Result<i64, ErrorKind>, b: Result<i64, ErrorKind>) -> Result<
    i64,
    ErrorKind,
> {
    match a {
        Err(k) => Err(k),
        Ok(x) => match b {
            Err(k) => Err(k),
            Ok(y) => arithmetic(op, x, y),
        },
    }
}

/// `acc` multiplied and divided by the numbers of `ops`, from the left.
pub open spec fn product(acc: Result<i64, ErrorKind>, ops: Seq<Operation>) -> Result<i64, ErrorKind>
    decreases ops.len(),
{
    if ops.len() == 0 {
        acc
    } else {
        product(apply(ops[0].op, acc, Ok(ops[0].number as i64)), ops.skip(1))
    }
}

/// `acc` with the terms of `ops` added and subtracted, from the left. A term
/// is a number with the multiplications and divisions that stand directly
/// behind it.
pub open spec fn sum(acc: Result<i64, ErrorKind>, ops: Seq<Operation>) -> Result<i64, ErrorKind>
    decreases ops.len(),
{
    if ops.len() == 0 {
        acc
    } else {
        let k = factors(ops.skip(1)) as int;
        let term = product(Ok(ops[0].number as i64), ops.subrange(1, 1 + k));
        proof {
            lemma_factors(ops.skip(1));
        }
        sum(apply(ops[0].op, acc, term), ops.skip(1 + k))
    }
}

/// What a number and the operations behind it come to by the usual rules.
pub open spec fn flat_value(first: nat, ops: Seq<Operation>) -> Result<i64, ErrorKind> {
    let k = factors(ops) as int;
    sum(product(Ok(first as i64), ops.take(k)), ops.skip(k))
}

/// The operations that multiply or divide at the head of `ops` are part of
/// `ops`, and what follows them does neither.
pub proof fn lemma_factors(ops: Seq<Operation>)
    ensures
        factors(ops) <= ops.len(),
        factors(ops) < ops.len() ==> !binds_first(ops[factors(ops) as int].op),
    decreases ops.len(),
{
    if ops.len() > 0 && binds_first(ops[0].op) {
        lemma_factors(ops.skip(1));
    }
}

/// The decimal digits of a number are digits, at least one, and write the
/// number.
pub proof fn lemma_digits(n: nat)
    ensures
        digits(n).len() > 0,
        forall|i: int| 0 <= i < digits(n).len() ==> is_digit(#[trigger] digits(n)[i]),
        magnitude(digits(n)) == n,
    decreases n,
{
    if n < 10 {
        let d = digits(n);
        assert(d.drop_last() =~= Seq::<char>::empty());
        assert(magnitude(d.drop_last()) == 0);
        assert(digit_value(digit_char(n as int)) == n);
    } else {
        lemma_digits(n / 10);
        let d = digits(n);
        assert(d.drop_last() =~= digits(n / 10));
        assert(digit_value(digit_char((n % 10) as int)) == n % 10);
    }
}

/// Whether `s` is empty or begins with something else than a digit.
pub open spec fn no_digit_ahead(s: Seq<char>) -> bool {
    s.len() == 0 || !is_digit(s[0])
}

/// The operations are written with white space or an operator first.
pub proof fn lemma_operations_text(ops: Seq<Operation>)
    requires
        plain(ops),
    ensures
        no_digit_ahead(operations_text(ops)),
{
    if ops.len() > 0 {
        let o = ops[0];
        let s = operations_text(ops);
        if o.before.len() > 0 {
            assert(s[0] == o.before[0]);
            assert(is_space(o.before[0]));
        } else {
            assert(s[0] == symbol(o.op));
        }
    }
}

/// A number in decimal digits, with no digit behind it, is read as an atom
/// that is this number.
pub proof fn lemma_number_atom(n: nat, tail: Seq<char>)
    requires
        n <= i64::MAX,
        no_digit_ahead(tail),
    ensures
        atom(digits(n) + tail) == Parsed::Done(ExprV::Int(n as i64), tail),
{
    let s = digits(n) + tail;
    let len = digits(n).len();
    lemma_digits(n);
    assert(s[0] == digits(n)[0]);
    assert(is_digit(s[0]));
    assert(s.skip(0) =~= s);
    assert forall|i: int| 0 <= i < len implies member(Class::Digit, #[trigger] s[i]) by {
        assert(s[i] == digits(n)[i]);
    }
    if len < s.len() {
        assert(s[len as int] == tail[0]);
    }
    lemma_span_unique(Class::Digit, s, len);
    assert(s.subrange(0, len as int) =~= digits(n));
    assert(s.skip(len as int) =~= tail);
    assert(span(Class::Alpha, s) == 0);
}

/// White space before a text that begins otherwise is skipped whole.
pub proof fn lemma_skip_blank(g: Seq<char>, x: Seq<char>)
    requires
        blank(g),
        x.len() == 0 || !is_space(x[0]),
    ensures
        skip_spaces(g + x) == x,
{
    let s = g + x;
    assert forall|i: int| 0 <= i < g.len() implies member(Class::Space, #[trigger] s[i]) by {
        assert(s[i] == g[i]);
    }
    if g.len() < s.len() {
        assert(s[g.len() as int] == x[0]);
    }
    lemma_span_unique(Class::Space, s, g.len());
    assert(s.skip(g.len() as int) =~= x);
}

/// What the reading of one operation at the head of a text comes to: the
/// operator and, behind it, the number with the rest of the operations.
proof fn lemma_operation_ahead(ops: Seq<Operation>)
    requires
        plain(ops),
        ops.len() > 0,
    ensures
        ({
            let s = operations_text(ops);
            let x = skip_spaces(s);
            &&& x.len() > 0
            &&& x[0] == symbol(ops[0].op)
            &&& skip_spaces(x.skip(1)) == digits(ops[0].number) + operations_text(ops.skip(1))
        }),
{
    let o = ops[0];
    let more = operations_text(ops.skip(1));
    let tail = digits(o.number) + more;
    let x = seq![symbol(o.op)] + o.after + tail;
    lemma_digits(o.number);
    assert(operations_text(ops) =~= o.before + x);
    assert(x[0] == symbol(o.op));
    lemma_skip_blank(o.before, x);
    assert(x.skip(1) =~= o.after + tail);
    assert(tail[0] == digits(o.number)[0]);
    lemma_skip_blank(o.after, tail);
}

/// The multiplications and divisions behind what was read of a term are
/// read with it, and the term evaluates to their product from the left.
proof fn lemma_product(acc: ExprV, ops: Seq<Operation>, vars: Map<Seq<char>, i64>) -> (r: ExprV)
    requires
        plain(ops),
    ensures
        chain(0, acc, operations_text(ops)) == Parsed::Done(
            r,
            operations_text(ops.skip(factors(ops) as int)),
        ),
        eval_int(r, vars) == product(eval_int(acc, vars), ops.take(factors(ops) as int)),
    decreases ops.len(),
{
    let s = operations_text(ops);
    lemma_chain(0, acc, s);
    if ops.len() == 0 {
        assert(skip_spaces(s) =~= s) by {
            lemma_skip_blank(Seq::empty(), s);
            assert(Seq::<char>::empty() + s =~= s);
        }
        assert(ops.skip(0) =~= ops);
        assert(ops.take(0) =~= Seq::<Operation>::empty());
        acc
    } else {
        let o = ops[0];
        let rest = ops.skip(1);
        lemma_operation_ahead(ops);
        if binds_first(o.op) {
            lemma_operations_text(rest);
            lemma_number_atom(o.number, operations_text(rest));
            let next = binary(o.op, acc, ExprV::Int(o.number as i64));
            let r = lemma_product(next, rest, vars);
            let k = factors(ops) as int;
            lemma_factors(rest);
            assert(ops.skip(k) =~= rest.skip(k - 1));
            assert(ops.take(k).skip(1) =~= rest.take(k - 1));
            assert(ops.take(k)[0] == o);
            assert(o.op.is_arithmetic());
            assert(eval_int(ExprV::Int(o.number as i64), vars) == Ok::<i64, ErrorKind>(
                o.number as i64,
            ));
            assert(eval_int(next, vars) == apply(
                o.op,
                eval_int(acc, vars),
                Ok(o.number as i64),
            ));
            assert(product(eval_int(acc, vars), ops.take(k)) == product(
                eval_int(next, vars),
                rest.take(k - 1),
            ));
            r
        } else {
            assert(ops.skip(0) =~= ops);
            assert(ops.take(0) =~= Seq::<Operation>::empty());
            acc
        }
    }
}

/// A number with the multiplications and divisions behind it is read as one
/// term, which evaluates to their product from the left.
proof fn lemma_term(n: nat, ops: Seq<Operation>, vars: Map<Seq<char>, i64>) -> (r: ExprV)
    requires
        n <= i64::MAX,
        plain(ops),
    ensures
        tier(0, digits(n) + operations_text(ops)) == Parsed::Done(
            r,
            operations_text(ops.skip(factors(ops) as int)),
        ),
        eval_int(r, vars) == product(Ok(n as i64), ops.take(factors(ops) as int)),
{
    lemma_tier(0, digits(n) + operations_text(ops));
    lemma_operations_text(ops);
    lemma_number_atom(n, operations_text(ops));
    lemma_product(ExprV::Int(n as i64), ops, vars)
}

/// The terms behind what was read of a sum are read with it to the end of
/// the text, and the sum evaluates to what they come to from the left.
proof fn lemma_sum(acc: ExprV, ops: Seq<Operation>, vars: Map<Seq<char>, i64>) -> (r: ExprV)
    requires
        plain(ops),
        ops.len() > 0 ==> !binds_first(ops[0].op),
    ensures
        chain(1, acc, operations_text(ops)) == Parsed::Done(r, Seq::<char>::empty()),
        eval_int(r, vars) == sum(eval_int(acc, vars), ops),
    decreases ops.len(),
{
    let s = operations_text(ops);
    lemma_chain(1, acc, s);
    if ops.len() == 0 {
        assert(skip_spaces(s) =~= s) by {
            lemma_skip_blank(Seq::empty(), s);
            assert(Seq::<char>::empty() + s =~= s);
        }
        acc
    } else {
        let o = ops[0];
        let rest = ops.skip(1);
        let k = factors(rest) as int;
        lemma_operation_ahead(ops);
        lemma_factors(rest);
        let term = lemma_term(o.number, rest, vars);
        let next = binary(o.op, acc, term);
        assert(ops.subrange(1, 1 + k) =~= rest.take(k));
        assert(ops.skip(1 + k) =~= rest.skip(k));
        lemma_sum(next, rest.skip(k), vars)
    }
}

/// A number with arithmetic operations behind it, written without brackets,
/// is read as one expression to the end of the text, and that expression
/// evaluates to what the usual rules give: products and quotients first, sums
/// and differences then, each from the left. White space may stand on either
/// side of an operator.
pub proof fn reads_by_precedence(first: nat, ops: Seq<Operation>, vars: Map<Seq<char>, i64>) -> (r:
    ExprV)
    requires
        first <= i64::MAX,
        plain(ops),
    ensures
        expression(flat_text(first, ops)) == Parsed::Done(r, Seq::<char>::empty()),
        eval_int(r, vars) == flat_value(first, ops),
{
    let s = flat_text(first, ops);
    let k = factors(ops) as int;
    lemma_factors(ops);
    lemma_tier(2, s);
    lemma_tier(1, s);
    let term = lemma_term(first, ops, vars);
    let whole = lemma_sum(term, ops.skip(k), vars);
    lemma_chain(2, whole, Seq::empty());
    assert(skip_spaces(Seq::<char>::empty()) =~= Seq::<char>::empty()) by {
        lemma_skip_blank(Seq::empty(), Seq::empty());
        assert(Seq::<char>::empty() + Seq::<char>::empty() =~= Seq::<char>::empty());
    }
    whole
}

/// Arithmetic in which brackets say what belongs together: a number, or an
/// operator between two operands, with the white space that stands before
/// and behind the operator.
pub enum Arith {
    Number(nat),
    Apply { op: BinOp, left: Box<Arith>, right: Box<Arith>, before: Seq<char>, after: Seq<char> },
}

/// Whether the operators are arithmetic, the numbers fit in 64 bits, and
/// the white space is white space.
pub open spec fn sound(a: Arith) -> bool
    decreases a,
{
    match a {
        Arith::Number(n) => n <= i64::MAX,
        Arith::Apply { op, left, right, before, after } => op.is_arithmetic() && sound(*left)
            && sound(*right) && blank(before) && blank(after),
    }
}

/// How the arithmetic is written: each operand that is not a number stands
/// in brackets.
pub open spec fn written(a: Arith) -> Seq<char>
    decreases a, 0nat,
{
    match a {
        Arith::Number(n) => digits(n),
        Arith::Apply { op, left, right, before, after } => operand_text(*left) + before
            + seq![symbol(op)] + after + operand_text(*right),
    }
}

/// How the arithmetic is written as an operand.
pub open spec fn operand_text(a: Arith) -> Seq<char>
    decreases a, 1nat,
{
    match a {
        Arith::Number(n) => digits(n),
        _ => seq!['('] + written(a) + seq![')'],
    }
}

/// The expression that the arithmetic is.
pub open spec fn tree(a: Arith) -> ExprV
    decreases a,
{
    match a {
        Arith::Number(n) => ExprV::Int(n as i64),
        Arith::Apply { op, left, right, before, after } => binary(op, tree(*left), tree(*right)),
    }
}

/// What the arithmetic comes to: operands first, the left before the right.
pub open spec fn value(a: Arith) -> Result<i64, ErrorKind>
    decreases a,
{
    match a {
        Arith::Number(n) => Ok(n as i64),
        Arith::Apply { op, left, right, before, after } => apply(op, value(*left), value(*right)),
    }
}

/// Whether `s` is empty or begins with a closing bracket.
pub open spec fn closes(s: Seq<char>) -> bool {
    s.len() == 0 || s[0] == ')'
}

/// Whether `s` begins with a digit or an opening bracket.
pub open spec fn opens(s: Seq<char>) -> bool {
    s.len() > 0 && (is_digit(s[0]) || s[0] == '(')
}

/// Arithmetic is written with a digit or an opening bracket first.
proof fn lemma_opens(a: Arith)
    requires
        sound(a),
    ensures
        opens(written(a)),
        opens(operand_text(a)),
    decreases a,
{
    match a {
        Arith::Number(n) => {
            lemma_digits(n);
        },
        Arith::Apply { op, left, right, before, after } => {
            lemma_opens(*left);
            assert(written(a)[0] == operand_text(*left)[0]);
            assert(operand_text(a)[0] == '(');
        },
    }
}

/// Nothing more of an expression is read where the text ends or a bracket
/// closes.
proof fn lemma_closes(k: nat, acc: ExprV, tail: Seq<char>)
    requires
        closes(tail),
    ensures
        chain(k, acc, tail) == Parsed::Done(acc, tail),
{
    lemma_skip_blank(Seq::empty(), tail);
    assert(Seq::<char>::empty() + tail =~= tail);
    lemma_chain(k, acc, tail);
}

/// The expression of the arithmetic evaluates to what the arithmetic comes
/// to.
pub proof fn lemma_tree_value(a: Arith, vars: Map<Seq<char>, i64>)
    requires
        sound(a),
    ensures
        eval_int(tree(a), vars) == value(a),
    decreases a,
{
    match a {
        Arith::Number(n) => {},
        Arith::Apply { op, left, right, before, after } => {
            lemma_tree_value(*left, vars);
            lemma_tree_value(*right, vars);
        },
    }
}

/// The arithmetic, written down before a text where reading ends, is read
/// as the expression that it is.
proof fn lemma_written(a: Arith, tail: Seq<char>)
    requires
        sound(a),
        closes(tail),
    ensures
        tier(2, written(a) + tail) == Parsed::Done(tree(a), tail),
    decreases a, 0nat,
{
    let s = written(a) + tail;
    lemma_tier(2, s);
    lemma_tier(1, s);
    lemma_tier(0, s);
    match a {
        Arith::Number(n) => {
            lemma_number_atom(n, tail);
            lemma_closes(0, tree(a), tail);
            lemma_closes(1, tree(a), tail);
            lemma_closes(2, tree(a), tail);
        },
        Arith::Apply { op, left, right, before, after } => {
            let behind_op = after + operand_text(*right) + tail;
            let from_op = seq![symbol(op)] + behind_op;
            let rest = before + from_op;
            let l = tree(*left);
            let r = tree(*right);
            let both = binary(op, l, r);
            assert(s =~= operand_text(*left) + rest);
            lemma_opens(*right);
            assert(from_op[0] == symbol(op));
            if before.len() > 0 {
                assert(rest[0] == before[0]);
                assert(is_space(before[0]));
            } else {
                assert(rest[0] == from_op[0]);
            }
            lemma_operand(*left, rest);
            lemma_skip_blank(before, from_op);
            assert(from_op.skip(1) =~= behind_op);
            assert(behind_op =~= after + (operand_text(*right) + tail));
            assert((operand_text(*right) + tail)[0] == operand_text(*right)[0]);
            lemma_skip_blank(after, operand_text(*right) + tail);
            lemma_operand(*right, tail);
            lemma_chain(0, l, rest);
            lemma_chain(1, l, rest);
            lemma_tier(0, operand_text(*right) + tail);
            lemma_closes(0, both, tail);
            lemma_closes(0, r, tail);
            lemma_closes(1, both, tail);
            lemma_closes(2, both, tail);
        },
    }
}

/// The arithmetic, written down as an operand before a text that begins with
/// no digit, is read as the atom that it is.
proof fn lemma_operand(a: Arith, tail: Seq<char>)
    requires
        sound(a),
        no_digit_ahead(tail),
    ensures
        atom(operand_text(a) + tail) == Parsed::Done(tree(a), tail),
    decreases a, 1nat,
{
    match a {
        Arith::Number(n) => {
            lemma_number_atom(n, tail);
        },
        Arith::Apply { op, left, right, before, after } => {
            let s = operand_text(a) + tail;
            let closed = seq![')'] + tail;
            let inside = written(a) + closed;
            assert(s[0] == '(');
            assert(s.skip(1) =~= inside);
            lemma_opens(a);
            assert(inside[0] == written(a)[0]);
            lemma_skip_blank(Seq::empty(), inside);
            assert(Seq::<char>::empty() + inside =~= inside);
            lemma_written(a, closed);
            lemma_skip_blank(Seq::empty(), closed);
            assert(Seq::<char>::empty() + closed =~= closed);
            assert(closed.skip(1) =~= tail);
        },
    }
}

/// Arithmetic written with brackets around every operand that is not a
/// number is read as one expression to the end of the text, and that
/// expression evaluates to what the arithmetic comes to with the brackets
/// taken as they stand.
pub proof fn reads_by_brackets(a: Arith, vars: Map<Seq<char>, i64>)
    requires
        sound(a),
    ensures
        expression(written(a)) == Parsed::Done(tree(a), Seq::<char>::empty()),
        eval_int(tree(a), vars) == value(a),
{
    lemma_written(a, Seq::empty());
    assert(written(a) + Seq::<char>::empty() =~= written(a));
    lemma_tree_value(a, vars);
}

} // verus!
