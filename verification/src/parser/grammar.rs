//! The grammar, as functions from the text that is left to what is read and
//! what remains.
//!
//! Alternatives are tried in order and the first that applies is taken.
//! A rule that has committed itself turns a miss into a failure, after which
//! no alternative is tried. Where a function below compares the length of
//! what one of its own rules has left with that of the text it was given,
//! the comparison holds anyway; it is there to show that the definition
//! ends.

use crate::parser::expr::{binary, BinOp, ExprV};
use crate::parser::instr::{InstrV, STOP_LINE};
use crate::parser::theorems::lemma_tier_within;
use crate::text::{
    begins_with_word, int_literal, lemma_skip_spaces, magnitude, plain_word, skip_spaces, span,
    starts_with, Class,
};
use vstd::prelude::*;

verus! {

/// The rules that leave their name on a mistake found while they read.
#[derive(Debug, Clone, Copy, PartialEq, Eq, Structural)]
pub enum Rule {
    PrefixedLine,
    BracketedExpr,
    ClosingParen,
    PrintStatement,
    LetStatement,
    RemStatement,
    InputStatement,
    GotoStatement,
    ClsStatement,
    IfThenStatement,
    StopStatement,
    ForLoop,
    NextStatement,
}

/// What a rule is called where a mistake is shown to a reader.
pub open spec fn label(rule: Rule) -> Seq<char> {
    match rule {
        Rule::PrefixedLine => "prefixed line"@,
        Rule::BracketedExpr => "bracketed expression"@,
        Rule::ClosingParen => "closing paren"@,
        Rule::PrintStatement => "print statement"@,
        Rule::LetStatement => "let statement"@,
        Rule::RemStatement => "rem statement"@,
        Rule::InputStatement => "input statement"@,
        Rule::GotoStatement => "goto statement"@,
        Rule::ClsStatement => "cls statement"@,
        Rule::IfThenStatement => "if then statement"@,
        Rule::StopStatement => "stop statement"@,
        Rule::ForLoop => "for loop"@,
        Rule::NextStatement => "next statement"@,
    }
}

/// A mistake: the text that was left where reading stopped, and the rules
/// that were at work there, innermost first.
pub struct Fault {
    pub at: Seq<char>,
    pub trail: Seq<Rule>,
}

/// What reading a `T` off a text comes to.
pub enum Parsed<T> {
    /// The value read, and the text behind it.
    Done(T, Seq<char>),
    /// The rule does not apply here; another may.
    Miss(Fault),
    /// The rule applies and the text is wrong.
    Fail(Fault),
}

/// The rule does not apply to the text `at`.
pub open spec fn miss<T>(at: Seq<char>) -> Parsed<T> {
    Parsed::Miss(Fault { at, trail: Seq::empty() })
}

/// The mistake of `p` as the mistake of a rule that reads a `U`.
pub open spec fn mistake<T, U>(p: Parsed<T>) -> Parsed<U> {
    match p {
        Parsed::Miss(f) => Parsed::Miss(f),
        Parsed::Fail(f) => Parsed::Fail(f),
        Parsed::Done(_, rest) => miss(rest),
    }
}

/// `p`, with the name of `rule` left on its mistake.
pub open spec fn tagged<T>(p: Parsed<T>, rule: Rule) -> Parsed<T> {
    match p {
        Parsed::Miss(f) => Parsed::Miss(Fault { at: f.at, trail: f.trail.push(rule) }),
        Parsed::Fail(f) => Parsed::Fail(Fault { at: f.at, trail: f.trail.push(rule) }),
        done => done,
    }
}

/// `p` as the result of a rule that has committed itself.
pub open spec fn committed<T>(p: Parsed<T>) -> Parsed<T> {
    match p {
        Parsed::Miss(f) => Parsed::Fail(f),
        other => other,
    }
}

/// `p`, or `q` where `p` does not apply.
pub open spec fn or_else<T>(p: Parsed<T>, q: Parsed<T>) -> Parsed<T> {
    if p is Miss {
        q
    } else {
        p
    }
}

/// The words of the language.
#[derive(Debug, Clone, Copy, PartialEq, Eq, Structural)]
pub enum Keyword {
    Print,
    Let,
    Rem,
    Input,
    GoTo,
    Cls,
    If,
    Then,
    Stop,
    For,
    To,
    Step,
    Next,
}

/// How a word is written. Capital letters serve as well; `GO TO` is written
/// with one space within and one behind.
pub open spec fn spelling(k: Keyword) -> Seq<char> {
    match k {
        Keyword::Print => "print"@,
        Keyword::Let => "let"@,
        Keyword::Rem => "rem"@,
        Keyword::Input => "input"@,
        Keyword::GoTo => "go to "@,
        Keyword::Cls => "cls"@,
        Keyword::If => "if"@,
        Keyword::Then => "then"@,
        Keyword::Stop => "stop"@,
        Keyword::For => "for"@,
        Keyword::To => "to"@,
        Keyword::Step => "step"@,
        Keyword::Next => "next"@,
    }
}

/// Whether the word `k` stands at the head of `s`.
pub open spec fn keyword(k: Keyword, s: Seq<char>) -> bool {
    begins_with_word(spelling(k), s)
}

/// `s` behind the word `k`.
pub open spec fn behind(k: Keyword, s: Seq<char>) -> Seq<char> {
    s.skip(spelling(k).len() as int)
}

/// Every word has at least one character, all of them ASCII and none a
/// `k`.
pub proof fn lemma_spelling(k: Keyword)
    ensures
        spelling(k).len() > 0,
        plain_word(spelling(k)),
{
    reveal_strlit("print");
    reveal_strlit("let");
    reveal_strlit("rem");
    reveal_strlit("input");
    reveal_strlit("go to ");
    reveal_strlit("cls");
    reveal_strlit("if");
    reveal_strlit("then");
    reveal_strlit("stop");
    reveal_strlit("for");
    reveal_strlit("to");
    reveal_strlit("step");
    reveal_strlit("next");
}

/// What stands behind a word is shorter than the text that begins with it.
pub proof fn lemma_behind(k: Keyword, s: Seq<char>)
    requires
        keyword(k, s),
    ensures
        behind(k, s).len() < s.len(),
{
    lemma_spelling(k);
}

/// Whether `s` begins with the two characters `a` and `b`.
pub open spec fn starts_with_pair(s: Seq<char>, a: char, b: char) -> bool {
    s.len() > 1 && s[0] == a && s[1] == b
}

/// The operator of tier `tier` at the head of `s`, and its length. Tier 0
/// holds `*` and `/`, tier 1 `+` and `-`, tier 2 the comparisons, of which
/// those of two characters are looked for first.
pub open spec fn operator(tier: nat, s: Seq<char>) -> Option<(BinOp, nat)> {
    if tier == 0 {
        if starts_with(s, '*') {
            Some((BinOp::Mul, 1))
        } else if starts_with(s, '/') {
            Some((BinOp::Div, 1))
        } else {
            None
        }
    } else if tier == 1 {
        if starts_with(s, '+') {
            Some((BinOp::Add, 1))
        } else if starts_with(s, '-') {
            Some((BinOp::Sub, 1))
        } else {
            None
        }
    } else {
        if starts_with_pair(s, '<', '=') {
            Some((BinOp::Le, 2))
        } else if starts_with_pair(s, '>', '=') {
            Some((BinOp::Ge, 2))
        } else if starts_with_pair(s, '<', '>') {
            Some((BinOp::Ne, 2))
        } else if starts_with(s, '<') {
            Some((BinOp::Lt, 1))
        } else if starts_with(s, '>') {
            Some((BinOp::Gt, 1))
        } else if starts_with(s, '=') {
            Some((BinOp::Eq, 1))
        } else {
            None
        }
    }
}

/// The text in double quotes at the head of `s`. There is no way to write a
/// double quote within it.
pub open spec fn quoted(s: Seq<char>) -> Parsed<ExprV> {
    if starts_with(s, '"') {
        let body = s.skip(1);
        let n = span(Class::Unquoted, body);
        if n < body.len() {
            Parsed::Done(ExprV::Text(body.take(n as int)), body.skip(n as int + 1))
        } else {
            miss(body.skip(n as int))
        }
    } else {
        miss(s)
    }
}

/// An atom: an expression in round brackets, an identifier, an integer
/// literal or a text in double quotes, whichever applies first. An opening
/// bracket commits to the bracketed expression and the closing bracket.
pub open spec fn atom(s: Seq<char>) -> Parsed<ExprV>
    decreases s.len(), 0nat,
{
    if starts_with(s, '(') {
        proof {
            lemma_skip_spaces(s.skip(1));
        }
        match tier(2, skip_spaces(s.skip(1))) {
            Parsed::Done(e, rest) => {
                let rest = skip_spaces(rest);
                if starts_with(rest, ')') {
                    Parsed::Done(e, rest.skip(1))
                } else {
                    Parsed::Fail(
                        Fault { at: rest, trail: seq![Rule::ClosingParen, Rule::BracketedExpr] },
                    )
                }
            },
            other => tagged(committed(other), Rule::BracketedExpr),
        }
    } else if span(Class::Alpha, s) > 0 {
        let n = span(Class::Alpha, s) as int;
        Parsed::Done(ExprV::Ident(s.take(n)), s.skip(n))
    } else {
        match int_literal(s) {
            Some((v, n)) => Parsed::Done(ExprV::Int(v), s.skip(n as int)),
            None => quoted(s),
        }
    }
}

/// An expression of tier `k`: an operand, then any number of operators of
/// the tier, each with its operand, taken together from the left. The
/// operands of tier 0 are atoms, those of a higher tier the expressions of the
/// tier below.
pub open spec fn tier(k: nat, s: Seq<char>) -> Parsed<ExprV>
    decreases s.len(), k + 1,
{
    let first = if k == 0 {
        atom(s)
    } else {
        tier((k - 1) as nat, s)
    };
    match first {
        Parsed::Done(e, rest) => if rest.len() <= s.len() {
            chain(k, e, rest)
        } else {
            miss(s)
        },
        other => other,
    }
}

/// What follows the first operand of an expression of tier `k`, `acc` being
/// what has been read of it. White space may stand on either side of an
/// operator. Where no operator of the tier follows, or no operand follows the
/// operator, the expression ends before them.
pub open spec fn chain(k: nat, acc: ExprV, s: Seq<char>) -> Parsed<ExprV>
    decreases s.len(), 0nat,
{
    match operator(k, skip_spaces(s)) {
        None => Parsed::Done(acc, s),
        Some((op, n)) => {
            let t = skip_spaces(skip_spaces(s).skip(n as int));
            proof {
                lemma_skip_spaces(s);
                lemma_skip_spaces(skip_spaces(s).skip(n as int));
            }
            let next = if k == 0 {
                atom(t)
            } else {
                tier((k - 1) as nat, t)
            };
            match next {
                Parsed::Done(e, rest) => if rest.len() <= t.len() {
                    chain(k, binary(op, acc, e), rest)
                } else {
                    Parsed::Done(acc, s)
                },
                Parsed::Miss(_) => Parsed::Done(acc, s),
                Parsed::Fail(f) => Parsed::Fail(f),
            }
        },
    }
}

/// An expression: comparisons bind least, then sums and differences, then
/// products and quotients.
pub open spec fn expression(s: Seq<char>) -> Parsed<ExprV> {
    tier(2, s)
}

/// The identifier at the head of `s`.
pub open spec fn name(s: Seq<char>) -> Parsed<ExprV> {
    let n = span(Class::Alpha, s) as int;
    if n > 0 {
        Parsed::Done(ExprV::Ident(s.take(n)), s.skip(n))
    } else {
        miss(s)
    }
}

/// The identifier of one letter at the head of `s`.
pub open spec fn letter(s: Seq<char>) -> Parsed<ExprV> {
    if span(Class::Alpha, s) == 1 {
        Parsed::Done(ExprV::Ident(s.take(1)), s.skip(1))
    } else {
        miss(s)
    }
}

/// Whether `c` separates the items of a print list.
pub open spec fn is_separator(c: char) -> bool {
    c == ',' || c == ';'
}

/// The items of a print list from the second on, `acc` being those read
/// already: each a separator and an expression. The list ends before a
/// separator that no expression follows.
pub open spec fn print_items(acc: Seq<(char, ExprV)>, s: Seq<char>) -> Parsed<Seq<(char, ExprV)>>
    decreases s.len(),
{
    let s1 = skip_spaces(s);
    if s1.len() > 0 && is_separator(s1[0]) {
        let t = skip_spaces(s1.skip(1));
        proof {
            lemma_skip_spaces(s);
            lemma_skip_spaces(s1.skip(1));
            lemma_tier_within(2, t);
        }
        match expression(t) {
            Parsed::Done(e, rest) => print_items(acc.push((s1[0], e)), rest),
            Parsed::Miss(_) => Parsed::Done(acc, s),
            Parsed::Fail(f) => Parsed::Fail(f),
        }
    } else {
        Parsed::Done(acc, s)
    }
}

/// The separator that may end a print list, and the text behind it.
pub open spec fn last_separator(s: Seq<char>) -> (Option<char>, Seq<char>) {
    let s1 = skip_spaces(s);
    if s1.len() > 0 && is_separator(s1[0]) {
        (Some(s1[0]), skip_spaces(s1.skip(1)))
    } else {
        (None, s)
    }
}

/// `PRINT`, alone or with white space and a list behind it, to which it is
/// then committed.
pub open spec fn print_stmt(s: Seq<char>) -> Parsed<InstrV> {
    if keyword(Keyword::Print, s) {
        let s1 = behind(Keyword::Print, s);
        if span(Class::Space, s1) > 0 {
            match expression(skip_spaces(s1)) {
                Parsed::Done(first, rest) => match print_items(Seq::empty(), rest) {
                    Parsed::Done(items, rest) => {
                        let end = last_separator(rest);
                        Parsed::Done(InstrV::Print(Some(first), items, end.0), end.1)
                    },
                    other => committed(mistake(other)),
                },
                other => committed(mistake(other)),
            }
        } else {
            Parsed::Done(InstrV::Print(None, Seq::empty(), None), s1)
        }
    } else {
        miss(s)
    }
}

/// An identifier, `=`, and an expression.
pub open spec fn assignment(s: Seq<char>) -> Parsed<InstrV> {
    match name(s) {
        Parsed::Done(target, rest) => {
            let s1 = skip_spaces(rest);
            if starts_with(s1, '=') {
                match expression(skip_spaces(s1.skip(1))) {
                    Parsed::Done(value, rest) => Parsed::Done(InstrV::Assign(target, value), rest),
                    other => mistake(other),
                }
            } else {
                miss(s1)
            }
        },
        other => mistake(other),
    }
}

/// `LET`, white space, and the assignment it is then committed to.
pub open spec fn let_stmt(s: Seq<char>) -> Parsed<InstrV> {
    if keyword(Keyword::Let, s) {
        let s1 = behind(Keyword::Let, s);
        if span(Class::Space, s1) > 0 {
            committed(assignment(skip_spaces(s1)))
        } else {
            miss(s1)
        }
    } else {
        miss(s)
    }
}

/// `REM` and the rest of the line, less one space directly behind the word.
pub open spec fn rem_stmt(s: Seq<char>) -> Parsed<InstrV> {
    if keyword(Keyword::Rem, s) {
        let s1 = behind(Keyword::Rem, s);
        let text = if starts_with(s1, ' ') {
            s1.skip(1)
        } else {
            s1
        };
        Parsed::Done(InstrV::Rem(text), Seq::empty())
    } else {
        miss(s)
    }
}

/// What follows `INPUT`: an expression, which is the target, or a prompt, a
/// comma and the target.
pub open spec fn input_args(s: Seq<char>) -> Parsed<InstrV> {
    match expression(s) {
        Parsed::Done(first, rest) => {
            let s1 = skip_spaces(rest);
            if starts_with(s1, ',') {
                match expression(skip_spaces(s1.skip(1))) {
                    Parsed::Done(second, rest2) => Parsed::Done(
                        InstrV::Input(Some(first), second),
                        rest2,
                    ),
                    Parsed::Miss(_) => Parsed::Done(InstrV::Input(None, first), rest),
                    Parsed::Fail(f) => Parsed::Fail(f),
                }
            } else {
                Parsed::Done(InstrV::Input(None, first), rest)
            }
        },
        other => mistake(other),
    }
}

/// `INPUT`, white space, and what it is then committed to.
pub open spec fn input_stmt(s: Seq<char>) -> Parsed<InstrV> {
    if keyword(Keyword::Input, s) {
        let s1 = behind(Keyword::Input, s);
        if span(Class::Space, s1) > 0 {
            committed(input_args(skip_spaces(s1)))
        } else {
            miss(s1)
        }
    } else {
        miss(s)
    }
}

/// `GO TO` and a line number that fits in 64 bits.
pub open spec fn goto_stmt(s: Seq<char>) -> Parsed<InstrV> {
    if keyword(Keyword::GoTo, s) {
        let s1 = behind(Keyword::GoTo, s);
        let n = span(Class::Digit, s1) as int;
        if n > 0 && magnitude(s1.take(n)) <= u64::MAX {
            Parsed::Done(InstrV::Goto(magnitude(s1.take(n)) as u64), s1.skip(n))
        } else {
            miss(s1)
        }
    } else {
        miss(s)
    }
}

/// `CLS`.
pub open spec fn cls_stmt(s: Seq<char>) -> Parsed<InstrV> {
    if keyword(Keyword::Cls, s) {
        Parsed::Done(InstrV::Clear, behind(Keyword::Cls, s))
    } else {
        miss(s)
    }
}

/// `STOP`: a jump to a line that no program has.
pub open spec fn stop_stmt(s: Seq<char>) -> Parsed<InstrV> {
    if keyword(Keyword::Stop, s) {
        Parsed::Done(InstrV::Goto(STOP_LINE), behind(Keyword::Stop, s))
    } else {
        miss(s)
    }
}

/// The step of a loop, where `STEP` and an expression follow, and the text
/// behind it; else the step 1.
pub open spec fn step_clause(s: Seq<char>) -> Parsed<ExprV> {
    let s1 = skip_spaces(s);
    if keyword(Keyword::Step, s1) {
        match expression(skip_spaces(behind(Keyword::Step, s1))) {
            Parsed::Miss(_) => Parsed::Done(ExprV::Int(1), s),
            other => other,
        }
    } else {
        Parsed::Done(ExprV::Int(1), s)
    }
}

/// What follows `FOR`: a variable of one letter, `=`, the start, `TO`, the
/// end, and the step if one is given.
pub open spec fn for_args(s: Seq<char>) -> Parsed<InstrV> {
    match letter(s) {
        Parsed::Done(var, rest) => {
            let s1 = skip_spaces(rest);
            if starts_with(s1, '=') {
                match expression(skip_spaces(s1.skip(1))) {
                    Parsed::Done(start, rest) => {
                        let s2 = skip_spaces(rest);
                        if keyword(Keyword::To, s2) {
                            match expression(skip_spaces(behind(Keyword::To, s2))) {
                                Parsed::Done(end, rest) => match step_clause(rest) {
                                    Parsed::Done(step, rest) => Parsed::Done(
                                        InstrV::For(var, start, end, step),
                                        rest,
                                    ),
                                    other => mistake(other),
                                },
                                other => mistake(other),
                            }
                        } else {
                            miss(s2)
                        }
                    },
                    other => mistake(other),
                }
            } else {
                miss(s1)
            }
        },
        other => mistake(other),
    }
}

/// `FOR`, white space, and what it is then committed to.
pub open spec fn for_stmt(s: Seq<char>) -> Parsed<InstrV> {
    if keyword(Keyword::For, s) {
        let s1 = behind(Keyword::For, s);
        if span(Class::Space, s1) > 0 {
            committed(for_args(skip_spaces(s1)))
        } else {
            miss(s1)
        }
    } else {
        miss(s)
    }
}

/// `NEXT`, white space, and the variable of one letter it is then committed
/// to.
pub open spec fn next_stmt(s: Seq<char>) -> Parsed<InstrV> {
    if keyword(Keyword::Next, s) {
        let s1 = behind(Keyword::Next, s);
        if span(Class::Space, s1) > 0 {
            match letter(skip_spaces(s1)) {
                Parsed::Done(var, rest) => Parsed::Done(InstrV::Next(var), rest),
                other => committed(mistake(other)),
            }
        } else {
            miss(s1)
        }
    } else {
        miss(s)
    }
}

/// `IF`, white space, and what it is then committed to: a condition, `THEN`,
/// and a whole line of statements.
pub open spec fn if_stmt(s: Seq<char>) -> Parsed<InstrV>
    decreases s.len(), 1nat,
{
    if keyword(Keyword::If, s) {
        let s1 = behind(Keyword::If, s);
        if span(Class::Space, s1) > 0 {
            match expression(skip_spaces(s1)) {
                Parsed::Done(cond, rest) => {
                    let s2 = skip_spaces(rest);
                    if keyword(Keyword::Then, s2) {
                        proof {
                            lemma_behind(Keyword::If, s);
                            lemma_skip_spaces(s1);
                            lemma_tier_within(2, skip_spaces(s1));
                            lemma_skip_spaces(rest);
                            lemma_behind(Keyword::Then, s2);
                            lemma_skip_spaces(behind(Keyword::Then, s2));
                        }
                        match line(skip_spaces(behind(Keyword::Then, s2))) {
                            Parsed::Done(then, rest) => Parsed::Done(
                                InstrV::IfThen(cond, Box::new(then)),
                                rest,
                            ),
                            other => committed(other),
                        }
                    } else {
                        Parsed::Fail(Fault { at: s2, trail: Seq::empty() })
                    }
                },
                other => committed(mistake(other)),
            }
        } else {
            miss(s1)
        }
    } else {
        miss(s)
    }
}

/// One statement: the first of the ten kinds that applies. Each leaves its
/// name on a mistake; where none applies, the mistake is that of the last.
pub open spec fn inner(s: Seq<char>) -> Parsed<InstrV>
    decreases s.len(), 2nat,
{
    or_else(
        tagged(print_stmt(s), Rule::PrintStatement),
        or_else(
            tagged(let_stmt(s), Rule::LetStatement),
            or_else(
                tagged(rem_stmt(s), Rule::RemStatement),
                or_else(
                    tagged(input_stmt(s), Rule::InputStatement),
                    or_else(
                        tagged(goto_stmt(s), Rule::GotoStatement),
                        or_else(
                            tagged(cls_stmt(s), Rule::ClsStatement),
                            or_else(
                                tagged(if_stmt(s), Rule::IfThenStatement),
                                or_else(
                                    tagged(stop_stmt(s), Rule::StopStatement),
                                    or_else(
                                        tagged(for_stmt(s), Rule::ForLoop),
                                        tagged(next_stmt(s), Rule::NextStatement),
                                    ),
                                ),
                            ),
                        ),
                    ),
                ),
            ),
        ),
    )
}

/// One statement and the white space behind it.
pub open spec fn segment(s: Seq<char>) -> Parsed<InstrV>
    decreases s.len(), 3nat,
{
    match inner(s) {
        Parsed::Done(instr, rest) => Parsed::Done(instr, skip_spaces(rest)),
        other => other,
    }
}

/// The statements of a line from the second on, `acc` being those read
/// already: each behind a colon, around which white space may stand. The
/// line ends before a colon that no statement follows.
pub open spec fn more(acc: Seq<InstrV>, s: Seq<char>) -> Parsed<Seq<InstrV>>
    decreases s.len(), 0nat,
{
    let s1 = skip_spaces(s);
    if starts_with(s1, ':') {
        let t = skip_spaces(s1.skip(1));
        proof {
            lemma_skip_spaces(s);
            lemma_skip_spaces(s1.skip(1));
        }
        match segment(t) {
            Parsed::Done(instr, rest) => if rest.len() <= t.len() {
                more(acc.push(instr), rest)
            } else {
                Parsed::Done(acc, s)
            },
            Parsed::Miss(_) => Parsed::Done(acc, s),
            Parsed::Fail(f) => Parsed::Fail(f),
        }
    } else {
        Parsed::Done(acc, s)
    }
}

/// The statement that a list of statements read off a whole line stands for:
/// the one statement itself, or all of them in a `Multi`. Text left over is a
/// mistake.
pub open spec fn whole_line(p: Parsed<Seq<InstrV>>) -> Parsed<InstrV> {
    match p {
        Parsed::Done(instrs, rest) => if rest.len() == 0 {
            Parsed::Done(
                if instrs.len() == 1 {
                    instrs[0]
                } else {
                    InstrV::Multi(instrs)
                },
                rest,
            )
        } else {
            miss(rest)
        },
        other => mistake(other),
    }
}

/// A line: one statement, or several with colons between them, and nothing
/// behind.
pub open spec fn line(s: Seq<char>) -> Parsed<InstrV>
    decreases s.len(), 4nat,
{
    match segment(s) {
        Parsed::Done(first, rest) => if rest.len() <= s.len() {
            whole_line(more(seq![first], rest))
        } else {
            miss(s)
        },
        other => other,
    }
}

/// A line behind its number: digits, white space, and the line proper.
pub open spec fn prefixed_line(s: Seq<char>) -> Parsed<InstrV> {
    let n = span(Class::Digit, s) as int;
    if n == 0 {
        tagged(miss(s), Rule::PrefixedLine)
    } else if span(Class::Space, s.skip(n)) == 0 {
        tagged(miss(s.skip(n)), Rule::PrefixedLine)
    } else {
        line(skip_spaces(s.skip(n)))
    }
}

} // verus!
