//! Statements: the tree, its model, and the parser that builds it.

use crate::parser::expr::{Expr, ExprV};
use crate::parser::grammar;
use crate::parser::grammar::{Keyword, Parsed, Rule};
use crate::parser::parse_tools::{
    alpha1, char, committed, digit1, ident, miss, one_of, parsed, shrinks, spaces, spaces1, tagged,
    word, ParseError, ParseResult,
};
use crate::text::{digit_value, is_digit, lemma_span, magnitude, Class};
use vstd::prelude::*;

verus! {

/// The line number that `STOP` jumps to. No program reaches it.
pub const STOP_LINE: u64 = 99999999999;

/// A statement. `Print` holds the first expression, the further ones each
/// behind its separator, and the separator that ends the list, if any; `Assign`
/// the target and the value; `Input` the prompt and the target; `For` the
/// variable, start, end and step.
#[derive(Debug, PartialEq)]
pub enum Instr<'a> {
    Print(Option<Expr<'a>>, Vec<(char, Expr<'a>)>, Option<char>),
    Assign(Expr<'a>, Expr<'a>),
    Input(Option<Expr<'a>>, Expr<'a>),
    Rem(&'a str),
    Goto(u64),
    Clear,
    IfThen(Expr<'a>, Box<Instr<'a>>),
    Multi(Vec<Instr<'a>>),
    For(Expr<'a>, Expr<'a>, Expr<'a>, Expr<'a>),
    Next(Expr<'a>),
}

/// The mathematical model of a statement.
pub enum InstrV {
    Print(Option<ExprV>, Seq<(char, ExprV)>, Option<char>),
    Assign(ExprV, ExprV),
    Input(Option<ExprV>, ExprV),
    Rem(Seq<char>),
    Goto(u64),
    Clear,
    IfThen(ExprV, Box<InstrV>),
    Multi(Seq<InstrV>),
    For(ExprV, ExprV, ExprV, ExprV),
    Next(ExprV),
}

/// The model of an optional expression.
pub open spec fn option_model(e: Option<Expr>) -> Option<ExprV> {
    match e {
        Some(e) => Some(e@),
        None => None,
    }
}

/// The models of the items of a print list.
pub open spec fn items_model(items: Seq<(char, Expr)>) -> Seq<(char, ExprV)> {
    Seq::new(items.len(), |i: int| (items[i].0, items[i].1@))
}

/// The models of a sequence of statements.
pub open spec fn instrs_model(instrs: Seq<Instr>) -> Seq<InstrV> {
    Seq::new(instrs.len(), |i: int| instrs[i]@)
}

impl<'a> Instr<'a> {
    /// The model of the statement.
    pub open spec fn model(&self) -> InstrV
        decreases self,
    {
        match self {
            Instr::Print(first, rest, last) => InstrV::Print(
                option_model(*first),
                items_model(rest@),
                *last,
            ),
            Instr::Assign(target, value) => InstrV::Assign(target@, value@),
            Instr::Input(prompt, target) => InstrV::Input(option_model(*prompt), target@),
            Instr::Rem(text) => InstrV::Rem(text@),
            Instr::Goto(line) => InstrV::Goto(*line),
            Instr::Clear => InstrV::Clear,
            Instr::IfThen(cond, then) => InstrV::IfThen(cond@, Box::new(then.model())),
            Instr::Multi(instrs) => InstrV::Multi(
                Seq::new(
                    instrs.len() as nat,
                    |i: int|
                        if 0 <= i < instrs.len() {
                            instrs[i].model()
                        } else {
                            InstrV::Clear
                        },
                ),
            ),
            Instr::For(var, start, end, step) => InstrV::For(var@, start@, end@, step@),
            Instr::Next(var) => InstrV::Next(var@),
        }
    }
}

impl<'a> View for Instr<'a> {
    type V = InstrV;

    open spec fn view(&self) -> InstrV {
        self.model()
    }
}

/// The model of `Multi` is made of the models of its statements.
pub proof fn lemma_multi_model(instrs: Vec<Instr>)
    ensures
        Instr::Multi(instrs)@ == InstrV::Multi(instrs_model(instrs@)),
{
    assert(Instr::Multi(instrs)@->Multi_0 =~= instrs_model(instrs@));
}

/// A copy of an optional expression.
fn clone_option<'a>(e: &Option<Expr<'a>>) -> (r: Option<Expr<'a>>)
    ensures
        option_model(r) == option_model(*e),
{
    match e {
        Some(e) => Some(e.clone()),
        None => None,
    }
}

/// A copy of the items of a print list.
fn clone_items<'a>(items: &Vec<(char, Expr<'a>)>) -> (r: Vec<(char, Expr<'a>)>)
    ensures
        items_model(r@) == items_model(items@),
{
    let mut copy: Vec<(char, Expr<'a>)> = Vec::new();
    let mut i: usize = 0;
    while i < items.len()
        invariant
            i <= items.len(),
            copy.len() == i,
            forall|j: int| 0 <= j < i ==> copy[j].0 == items[j].0 && copy[j].1@ == items[j].1@,
        decreases items.len() - i,
    {
        copy.push((items[i].0, items[i].1.clone()));
        i += 1;
    }
    assert(items_model(copy@) =~= items_model(items@));
    copy
}

impl<'a> Clone for Instr<'a> {
    fn clone(&self) -> (r: Self)
        ensures
            r@ == self@,
        decreases self,
    {
        match self {
            Instr::Print(first, rest, last) => Instr::Print(
                clone_option(first),
                clone_items(rest),
                *last,
            ),
            Instr::Assign(target, value) => Instr::Assign(target.clone(), value.clone()),
            Instr::Input(prompt, target) => Instr::Input(clone_option(prompt), target.clone()),
            Instr::Rem(text) => Instr::Rem(text),
            Instr::Goto(line) => Instr::Goto(*line),
            Instr::Clear => Instr::Clear,
            Instr::IfThen(cond, then) => Instr::IfThen(cond.clone(), Box::new((&**then).clone())),
            Instr::Multi(instrs) => {
                let mut copy: Vec<Instr<'a>> = Vec::new();
                let mut i: usize = 0;
                while i < instrs.len()
                    invariant
                        i <= instrs.len(),
                        copy.len() == i,
                        forall|j: int| 0 <= j < i ==> copy[j]@ == instrs[j]@,
                        decreases_to!(*self => *instrs),
                    decreases instrs.len() - i,
                {
                    copy.push(instrs[i].clone());
                    i += 1;
                }
                proof {
                    lemma_multi_model(copy);
                    lemma_multi_model(*instrs);
                    assert(instrs_model(copy@) =~= instrs_model(instrs@));
                }
                Instr::Multi(copy)
            },
            Instr::For(var, start, end, step) => Instr::For(
                var.clone(),
                start.clone(),
                end.clone(),
                step.clone(),
            ),
            Instr::Next(var) => Instr::Next(var.clone()),
        }
    }
}

/// The number that decimal digits write grows with every digit.
proof fn lemma_magnitude_grows(d: Seq<char>, i: int)
    requires
        forall|j: int| 0 <= j < d.len() ==> is_digit(#[trigger] d[j]),
        0 <= i <= d.len(),
    ensures
        magnitude(d.take(i)) <= magnitude(d),
    decreases d.len() - i,
{
    if i < d.len() {
        let next = d.take(i + 1);
        assert(next.drop_last() =~= d.take(i));
        assert(next.last() == d[i]);
        lemma_magnitude_grows(d, i + 1);
    } else {
        assert(d.take(i) =~= d);
    }
}

/// The number that the digits write, if it fits in 64 bits.
fn number(digits: &str) -> (r: Option<u64>)
    requires
        forall|j: int| 0 <= j < digits@.len() ==> is_digit(#[trigger] digits@[j]),
    ensures
        r == if magnitude(digits@) <= u64::MAX {
            Some(magnitude(digits@) as u64)
        } else {
            None
        },
{
    let n = digits.unicode_len();
    let mut value: u64 = 0;
    let mut i: usize = 0;
    assert(digits@.take(0) =~= Seq::<char>::empty());
    while i < n
        invariant
            n == digits@.len(),
            i <= n,
            value == magnitude(digits@.take(i as int)),
            forall|j: int| 0 <= j < digits@.len() ==> is_digit(#[trigger] digits@[j]),
        decreases n - i,
    {
        let c = digits.get_char(i);
        let d: u64 = (c as u32 - '0' as u32) as u64;
        proof {
            let next = digits@.take(i + 1);
            assert(next.drop_last() =~= digits@.take(i as int));
            assert(next.last() == digits@[i as int]);
            assert(is_digit(digits@[i as int]));
            assert(d == digit_value(c));
            lemma_magnitude_grows(digits@, i + 1);
        }
        if value > (u64::MAX - d) / 10 {
            return None;
        }
        value = value * 10 + d;
        i += 1;
    }
    assert(digits@.take(n as int) =~= digits@);
    Some(value)
}

/// The characters of `",;"` are the separators.
proof fn lemma_separators(c: char)
    ensures
        ",;"@.contains(c) <==> grammar::is_separator(c),
{
    reveal_strlit(",;");
    if c == ',' {
        assert(",;"@[0] == c);
    }
    if c == ';' {
        assert(",;"@[1] == c);
    }
}

/// The items of a print list from the second on.
fn parse_print_items<'a>(s: &'a str) -> (r: ParseResult<'a, Vec<(char, Expr<'a>)>>)
    ensures
        match r {
            Ok((rest, items)) => grammar::print_items(Seq::empty(), s@) == Parsed::Done(
                items_model(items@),
                rest@,
            ) && rest@.len() <= s@.len(),
            Err(e) => e.fatal && grammar::print_items(Seq::empty(), s@) == Parsed::<
                Seq<(char, ExprV)>,
            >::Fail(e@),
        },
{
    let mut items: Vec<(char, Expr<'a>)> = Vec::new();
    let mut rest = s;
    proof {
        assert(items_model(items@) =~= Seq::empty());
    }
    loop
        invariant
            rest@.len() <= s@.len(),
            grammar::print_items(Seq::empty(), s@) == grammar::print_items(
                items_model(items@),
                rest@,
            ),
        decreases rest@.len(),
    {
        let s1 = spaces(rest);
        proof {
            if s1@.len() > 0 {
                lemma_separators(s1@[0]);
            }
        }
        match one_of(",;", s1) {
            None => {
                return Ok((rest, items));
            },
            Some((behind, sep)) => {
                let t = spaces(behind);
                match Expr::parse(t) {
                    Ok((after, e)) => {
                        let ghost before = items_model(items@);
                        items.push((sep, e));
                        assert(items_model(items@) =~= before.push((sep, e@)));
                        rest = after;
                    },
                    Err(e) => {
                        if e.fatal {
                            return Err(e);
                        }
                        return Ok((rest, items));
                    },
                }
            },
        }
    }
}

/// The separator that may end a print list, and the text behind it.
fn parse_last_separator<'a>(s: &'a str) -> (r: (Option<char>, &'a str))
    ensures
        grammar::last_separator(s@) == (r.0, r.1@),
        r.1@.len() <= s@.len(),
{
    let s1 = spaces(s);
    proof {
        if s1@.len() > 0 {
            lemma_separators(s1@[0]);
        }
    }
    match one_of(",;", s1) {
        Some((behind, sep)) => (Some(sep), spaces(behind)),
        None => (None, s),
    }
}

/// The step of a loop and the text behind it.
fn parse_step<'a>(s: &'a str) -> (r: ParseResult<'a, Expr<'a>>)
    ensures
        parsed(r) == grammar::step_clause(s@),
        shrinks(r, s@),
{
    let s1 = spaces(s);
    match word(Keyword::Step, s1) {
        None => Ok((s, Expr::Int(1))),
        Some(behind) => match Expr::parse(spaces(behind)) {
            Ok(found) => Ok(found),
            Err(e) => if e.fatal {
                Err(e)
            } else {
                Ok((s, Expr::Int(1)))
            },
        },
    }
}

/// The text behind `=`, and the white space around it, at the head of `s`.
fn parse_equals<'a>(s: &'a str) -> (r: Result<&'a str, ParseError<'a>>)
    ensures
        match r {
            Ok(rest) => crate::text::starts_with(crate::text::skip_spaces(s@), '=') && rest@
                == crate::text::skip_spaces(crate::text::skip_spaces(s@).skip(1)) && rest@.len()
                < s@.len(),
            Err(e) => !crate::text::starts_with(crate::text::skip_spaces(s@), '=') && !e.fatal
                && e@ == (grammar::Fault { at: crate::text::skip_spaces(s@), trail: Seq::empty() }),
        },
{
    let s1 = spaces(s);
    match char('=', s1) {
        Some(behind) => Ok(spaces(behind)),
        None => Err(miss(s1)),
    }
}

impl<'a> Instr<'a> {
    /// Reads a line that stands behind its number.
    pub fn parse_prefixed(s: &'a str) -> (r: ParseResult<'a, Instr<'a>>)
        ensures
            parsed(r) == grammar::prefixed_line(s@),
            shrinks(r, s@),
    {
        proof {
            lemma_span(Class::Digit, s@);
        }
        let s1 = match digit1(s) {
            Some((rest, _)) => rest,
            None => {
                return Err(tagged(miss(s), Rule::PrefixedLine));
            },
        };
        match spaces1(s1) {
            Some(rest) => Instr::parse(rest),
            None => Err(tagged(miss(s1), Rule::PrefixedLine)),
        }
    }

    /// Reads `PRINT`.
    fn parse_print(s: &'a str) -> (r: ParseResult<'a, Instr<'a>>)
        ensures
            parsed(r) == grammar::print_stmt(s@),
            shrinks(r, s@),
    {
        let s1 = match word(Keyword::Print, s) {
            Some(rest) => rest,
            None => {
                return Err(miss(s));
            },
        };
        let s2 = match spaces1(s1) {
            Some(rest) => rest,
            None => {
                let bare = Instr::Print(None, Vec::new(), None);
                assert(bare@ == InstrV::Print(None, Seq::empty(), None)) by {
                    assert(items_model(bare->Print_1@) =~= Seq::empty());
                }
                return Ok((s1, bare));
            },
        };
        let (rest, first) = match Expr::parse(s2) {
            Ok(found) => found,
            Err(e) => {
                return Err(committed(e));
            },
        };
        let (rest, items) = parse_print_items(rest)?;
        let (last, rest) = parse_last_separator(rest);
        Ok((rest, Instr::Print(Some(first), items, last)))
    }

    /// Reads `IF`.
    fn parse_if_then(s: &'a str) -> (r: ParseResult<'a, Instr<'a>>)
        ensures
            parsed(r) == grammar::if_stmt(s@),
            shrinks(r, s@),
        decreases s@.len(), 1nat,
    {
        let s1 = match word(Keyword::If, s) {
            Some(rest) => rest,
            None => {
                return Err(miss(s));
            },
        };
        let s2 = match spaces1(s1) {
            Some(rest) => rest,
            None => {
                return Err(miss(s1));
            },
        };
        let (rest, cond) = match Expr::parse(s2) {
            Ok(found) => found,
            Err(e) => {
                return Err(committed(e));
            },
        };
        let s3 = spaces(rest);
        let s4 = match word(Keyword::Then, s3) {
            Some(rest) => spaces(rest),
            None => {
                return Err(committed(miss(s3)));
            },
        };
        match Instr::parse(s4) {
            Ok((rest, then)) => Ok((rest, Instr::IfThen(cond, Box::new(then)))),
            Err(e) => Err(committed(e)),
        }
    }

    /// Reads `INPUT`.
    fn parse_input(s: &'a str) -> (r: ParseResult<'a, Instr<'a>>)
        ensures
            parsed(r) == grammar::input_stmt(s@),
            shrinks(r, s@),
    {
        let s1 = match word(Keyword::Input, s) {
            Some(rest) => rest,
            None => {
                return Err(miss(s));
            },
        };
        let s2 = match spaces1(s1) {
            Some(rest) => rest,
            None => {
                return Err(miss(s1));
            },
        };
        let (rest, first) = match Expr::parse(s2) {
            Ok(found) => found,
            Err(e) => {
                return Err(committed(e));
            },
        };
        let s3 = spaces(rest);
        match char(',', s3) {
            None => Ok((rest, Instr::Input(None, first))),
            Some(behind) => match Expr::parse(spaces(behind)) {
                Ok((after, second)) => Ok((after, Instr::Input(Some(first), second))),
                Err(e) => if e.fatal {
                    Err(e)
                } else {
                    Ok((rest, Instr::Input(None, first)))
                },
            },
        }
    }

    /// Reads an identifier, `=`, and an expression.
    fn parse_inner_assign(s: &'a str) -> (r: ParseResult<'a, Instr<'a>>)
        ensures
            parsed(r) == grammar::assignment(s@),
            shrinks(r, s@),
    {
        let (rest, target) = Expr::parse_ident(s)?;
        let s1 = parse_equals(rest)?;
        let (rest, value) = Expr::parse(s1)?;
        Ok((rest, Instr::Assign(target, value)))
    }

    /// Reads `LET`.
    fn parse_assign(s: &'a str) -> (r: ParseResult<'a, Instr<'a>>)
        ensures
            parsed(r) == grammar::let_stmt(s@),
            shrinks(r, s@),
    {
        let s1 = match word(Keyword::Let, s) {
            Some(rest) => rest,
            None => {
                return Err(miss(s));
            },
        };
        let s2 = match spaces1(s1) {
            Some(rest) => rest,
            None => {
                return Err(miss(s1));
            },
        };
        match Instr::parse_inner_assign(s2) {
            Ok(found) => Ok(found),
            Err(e) => Err(committed(e)),
        }
    }

    /// Reads an identifier of one letter.
    fn parse_name_as_ident(s: &'a str) -> (r: ParseResult<'a, Expr<'a>>)
        ensures
            parsed(r) == grammar::letter(s@),
            shrinks(r, s@),
    {
        proof {
            lemma_span(Class::Alpha, s@);
        }
        match alpha1(s) {
            Some((rest, name)) => {
                if name.unicode_len() == 1 {
                    Ok((rest, ident(name)))
                } else {
                    Err(miss(s))
                }
            },
            None => Err(miss(s)),
        }
    }

    /// Reads what follows `FOR`.
    fn parse_for_args(s: &'a str) -> (r: ParseResult<'a, Instr<'a>>)
        ensures
            parsed(r) == grammar::for_args(s@),
            shrinks(r, s@),
    {
        let (rest, var) = Instr::parse_name_as_ident(s)?;
        let s1 = parse_equals(rest)?;
        let (rest, start) = Expr::parse(s1)?;
        let s2 = spaces(rest);
        let s3 = match word(Keyword::To, s2) {
            Some(rest) => spaces(rest),
            None => {
                return Err(miss(s2));
            },
        };
        let (rest, end) = Expr::parse(s3)?;
        let (rest, step) = parse_step(rest)?;
        Ok((rest, Instr::For(var, start, end, step)))
    }

    /// Reads `FOR`.
    fn parse_for(s: &'a str) -> (r: ParseResult<'a, Instr<'a>>)
        ensures
            parsed(r) == grammar::for_stmt(s@),
            shrinks(r, s@),
    {
        let s1 = match word(Keyword::For, s) {
            Some(rest) => rest,
            None => {
                return Err(miss(s));
            },
        };
        let s2 = match spaces1(s1) {
            Some(rest) => rest,
            None => {
                return Err(miss(s1));
            },
        };
        match Instr::parse_for_args(s2) {
            Ok(found) => Ok(found),
            Err(e) => Err(committed(e)),
        }
    }

    /// Reads `NEXT`.
    fn parse_next(s: &'a str) -> (r: ParseResult<'a, Instr<'a>>)
        ensures
            parsed(r) == grammar::next_stmt(s@),
            shrinks(r, s@),
    {
        let s1 = match word(Keyword::Next, s) {
            Some(rest) => rest,
            None => {
                return Err(miss(s));
            },
        };
        let s2 = match spaces1(s1) {
            Some(rest) => rest,
            None => {
                return Err(miss(s1));
            },
        };
        match Instr::parse_name_as_ident(s2) {
            Ok((rest, var)) => Ok((rest, Instr::Next(var))),
            Err(e) => Err(committed(e)),
        }
    }

    /// Reads `REM`.
    fn parse_rem(s: &'a str) -> (r: ParseResult<'a, Instr<'a>>)
        ensures
            parsed(r) == grammar::rem_stmt(s@),
            shrinks(r, s@),
    {
        let s1 = match word(Keyword::Rem, s) {
            Some(rest) => rest,
            None => {
                return Err(miss(s));
            },
        };
        let text = match char(' ', s1) {
            Some(rest) => rest,
            None => s1,
        };
        proof {
            reveal_strlit("");
            assert(""@ =~= Seq::<char>::empty());
        }
        Ok(("", Instr::Rem(text)))
    }

    /// Reads `GO TO`.
    fn parse_goto(s: &'a str) -> (r: ParseResult<'a, Instr<'a>>)
        ensures
            parsed(r) == grammar::goto_stmt(s@),
            shrinks(r, s@),
    {
        let s1 = match word(Keyword::GoTo, s) {
            Some(rest) => rest,
            None => {
                return Err(miss(s));
            },
        };
        proof {
            lemma_span(Class::Digit, s1@);
        }
        match digit1(s1) {
            Some((rest, digits)) => match number(digits) {
                Some(line) => Ok((rest, Instr::Goto(line))),
                None => Err(miss(s1)),
            },
            None => Err(miss(s1)),
        }
    }

    /// Reads one statement.
    pub fn parse_inner(s: &'a str) -> (r: ParseResult<'a, Instr<'a>>)
        ensures
            parsed(r) == grammar::inner(s@),
            shrinks(r, s@),
        decreases s@.len(), 2nat,
    {
        match Instr::parse_print(s) {
            Ok(found) => {
                return Ok(found);
            },
            Err(e) => if e.fatal {
                return Err(tagged(e, Rule::PrintStatement));
            },
        }
        match Instr::parse_assign(s) {
            Ok(found) => {
                return Ok(found);
            },
            Err(e) => if e.fatal {
                return Err(tagged(e, Rule::LetStatement));
            },
        }
        match Instr::parse_rem(s) {
            Ok(found) => {
                return Ok(found);
            },
            Err(e) => if e.fatal {
                return Err(tagged(e, Rule::RemStatement));
            },
        }
        match Instr::parse_input(s) {
            Ok(found) => {
                return Ok(found);
            },
            Err(e) => if e.fatal {
                return Err(tagged(e, Rule::InputStatement));
            },
        }
        match Instr::parse_goto(s) {
            Ok(found) => {
                return Ok(found);
            },
            Err(e) => if e.fatal {
                return Err(tagged(e, Rule::GotoStatement));
            },
        }
        match word(Keyword::Cls, s) {
            Some(rest) => {
                return Ok((rest, Instr::Clear));
            },
            None => {},
        }
        match Instr::parse_if_then(s) {
            Ok(found) => {
                return Ok(found);
            },
            Err(e) => if e.fatal {
                return Err(tagged(e, Rule::IfThenStatement));
            },
        }
        match word(Keyword::Stop, s) {
            Some(rest) => {
                return Ok((rest, Instr::Goto(STOP_LINE)));
            },
            None => {},
        }
        match Instr::parse_for(s) {
            Ok(found) => {
                return Ok(found);
            },
            Err(e) => if e.fatal {
                return Err(tagged(e, Rule::ForLoop));
            },
        }
        match Instr::parse_next(s) {
            Ok(found) => Ok(found),
            Err(e) => Err(tagged(e, Rule::NextStatement)),
        }
    }

    /// Reads one statement and the white space behind it.
    fn parse_segment(s: &'a str) -> (r: ParseResult<'a, Instr<'a>>)
        ensures
            parsed(r) == grammar::segment(s@),
            shrinks(r, s@),
        decreases s@.len(), 3nat,
    {
        let (rest, instr) = Instr::parse_inner(s)?;
        Ok((spaces(rest), instr))
    }

    /// Reads the statements of a line behind the first.
    fn parse_more(first: Instr<'a>, s: &'a str) -> (r: ParseResult<'a, Vec<Instr<'a>>>)
        ensures
            match r {
                Ok((rest, instrs)) => grammar::more(seq![first@], s@) == Parsed::Done(
                    instrs_model(instrs@),
                    rest@,
                ) && rest@.len() <= s@.len(),
                Err(e) => e.fatal && grammar::more(seq![first@], s@) == Parsed::<
                    Seq<InstrV>,
                >::Fail(e@),
            },
        decreases s@.len(), 0nat,
    {
        let mut instrs: Vec<Instr<'a>> = Vec::new();
        instrs.push(first);
        let mut rest = s;
        proof {
            assert(instrs_model(instrs@) =~= seq![first@]);
        }
        loop
            invariant
                rest@.len() <= s@.len(),
                grammar::more(seq![first@], s@) == grammar::more(instrs_model(instrs@), rest@),
            decreases rest@.len(),
        {
            let s1 = spaces(rest);
            match char(':', s1) {
                None => {
                    return Ok((rest, instrs));
                },
                Some(behind) => {
                    let t = spaces(behind);
                    match Instr::parse_segment(t) {
                        Ok((after, instr)) => {
                            let ghost before = instrs_model(instrs@);
                            instrs.push(instr);
                            assert(instrs_model(instrs@) =~= before.push(instr@));
                            rest = after;
                        },
                        Err(e) => {
                            if e.fatal {
                                return Err(e);
                            }
                            return Ok((rest, instrs));
                        },
                    }
                },
            }
        }
    }

    /// Reads a whole line: one statement, or several with colons between
    /// them, which then stand together in a `Multi`.
    pub fn parse(s: &'a str) -> (r: ParseResult<'a, Instr<'a>>)
        ensures
            parsed(r) == grammar::line(s@),
            shrinks(r, s@),
        decreases s@.len(), 4nat,
    {
        let (rest, first) = Instr::parse_segment(s)?;
        let (rest, mut instrs) = Instr::parse_more(first, rest)?;
        if !rest.is_empty() {
            return Err(miss(rest));
        }
        if instrs.len() == 1 {
            match instrs.pop() {
                Some(only) => Ok((rest, only)),
                None => Err(miss(rest)),
            }
        } else {
            proof {
                lemma_multi_model(instrs);
            }
            Ok((rest, Instr::Multi(instrs)))
        }
    }
}

} // verus!
