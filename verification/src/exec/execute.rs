//! Evaluating expressions and running statements.

use crate::exec::console::{ops_model, ConsoleOp, OpV};
use crate::exec::error::{ErrorKind, RunError};
use crate::exec::semantics;
use crate::exec::semantics::{
    lemma_same_line, lemma_same_line_resumed, Effect, EndV, FlowV, Outcome, PendingV, RunV, StatusV,
};
use crate::exec::state::{LoopState, State};
use crate::exec::value::{Value, ValueV};
use crate::parser::expr::{BinOp, Expr};
use crate::parser::instr::{instrs_model, lemma_multi_model, Instr, STOP_LINE};
use crate::parser::lower::LowerCase;
use crate::parser::parse_tools::int64;
use crate::text::{lemma_literal_len, trim};
use vstd::prelude::*;

verus! {

/// The model of the result of an evaluation.
pub open spec fn value_result(r: Result<Value, ErrorKind>) -> Result<ValueV, ErrorKind> {
    match r {
        Ok(v) => Ok(v@),
        Err(k) => Err(k),
    }
}

/// Applies an arithmetic operator. Sums, differences, products and the one
/// quotient that does not fit wrap to 64 bits.
fn apply(op: BinOp, x: i64, y: i64) -> (r: Result<i64, ErrorKind>)
    ensures
        r == semantics::arithmetic(op, x, y),
{
    match op {
        BinOp::Add => Ok(x.wrapping_add(y)),
        BinOp::Sub => Ok(x.wrapping_sub(y)),
        BinOp::Mul => Ok(x.wrapping_mul(y)),
        BinOp::Div => match x.checked_div(y) {
            Some(q) => Ok(q),
            None => if y == 0 {
                Err(ErrorKind::DivisionByZero)
            } else {
                Ok(i64::MIN)
            },
        },
        _ => Err(ErrorKind::TypeError),
    }
}

impl<'a> Expr<'a> {
    /// Evaluates the expression to an integer.
    pub fn eval_to_int(&self, state: &State) -> (r: Result<i64, ErrorKind>)
        ensures
            r == semantics::eval_int(self@, state@.vars),
        decreases self,
    {
        match self {
            Expr::Ident(ident) => state.get_var(ident),
            Expr::Int(i) => Ok(*i),
            Expr::String(_) => Err(ErrorKind::TypeError),
            Expr::Add(a, b) => {
                let x = a.eval_to_int(state)?;
                let y = b.eval_to_int(state)?;
                apply(BinOp::Add, x, y)
            },
            Expr::Sub(a, b) => {
                let x = a.eval_to_int(state)?;
                let y = b.eval_to_int(state)?;
                apply(BinOp::Sub, x, y)
            },
            Expr::Mul(a, b) => {
                let x = a.eval_to_int(state)?;
                let y = b.eval_to_int(state)?;
                apply(BinOp::Mul, x, y)
            },
            Expr::Div(a, b) => {
                let x = a.eval_to_int(state)?;
                let y = b.eval_to_int(state)?;
                apply(BinOp::Div, x, y)
            },
            _ => Err(ErrorKind::TypeError),
        }
    }

    /// Evaluates the expression to a value of whatever kind it has.
    pub fn eval(&self, state: &State) -> (r: Result<Value<'a>, ErrorKind>)
        ensures
            value_result(r) == semantics::eval(self@, state@.vars),
    {
        match self {
            Expr::String(s) => Ok(Value::String(s)),
            Expr::Gt(a, b) => Ok(Value::Bool(a.eval_to_int(state)? > b.eval_to_int(state)?)),
            Expr::Lt(a, b) => Ok(Value::Bool(a.eval_to_int(state)? < b.eval_to_int(state)?)),
            Expr::Eq(a, b) => Ok(Value::Bool(a.eval_to_int(state)? == b.eval_to_int(state)?)),
            Expr::Ne(a, b) => Ok(Value::Bool(a.eval_to_int(state)? != b.eval_to_int(state)?)),
            Expr::Ge(a, b) => Ok(Value::Bool(a.eval_to_int(state)? >= b.eval_to_int(state)?)),
            Expr::Le(a, b) => Ok(Value::Bool(a.eval_to_int(state)? <= b.eval_to_int(state)?)),
            _ => Ok(Value::Int(self.eval_to_int(state)?)),
        }
    }
}

/// Whether `now` is `before` with the requests `ops` behind it.
pub open spec fn emitted(before: Seq<ConsoleOp>, now: Seq<ConsoleOp>, ops: Seq<OpV>) -> bool {
    ops_model(now) == ops_model(before) + ops
}

/// Adds a request to those made.
fn emit(out: &mut Vec<ConsoleOp>, op: ConsoleOp)
    ensures
        emitted(old(out)@, final(out)@, seq![op@]),
{
    out.push(op);
    assert(ops_model(out@) =~= ops_model(old(out)@) + seq![op@]);
}

/// Puts out what the separator `c` stands for, if it is one.
fn emit_separator(c: char, out: &mut Vec<ConsoleOp>) -> (r: bool)
    ensures
        r == (semantics::separator(c) is Some),
        r ==> emitted(old(out)@, final(out)@, semantics::separator(c)->0),
        !r ==> final(out)@ == old(out)@,
{
    if c == ',' {
        emit(out, ConsoleOp::Write(" ".to_owned()));
        true
    } else if c == ';' {
        assert(ops_model(out@) =~= ops_model(out@) + Seq::<OpV>::empty());
        true
    } else {
        false
    }
}

/// Puts out the items of a print list from the second on.
fn print_rest(rest: &Vec<(char, Expr)>, state: &State, out: &mut Vec<ConsoleOp>) -> (r: Option<
    ErrorKind,
>)
    ensures
        ({
            let p = semantics::print_items(crate::parser::instr::items_model(rest@), state@.vars);
            emitted(old(out)@, final(out)@, p.0) && r == p.1
        }),
{
    let ghost items = crate::parser::instr::items_model(rest@);
    let ghost vars = state@.vars;
    let ghost mut done: Seq<OpV> = Seq::empty();
    let mut i: usize = 0;
    assert(items.skip(0) =~= items);
    assert(ops_model(out@) =~= ops_model(out@) + done);
    while i < rest.len()
        invariant
            i <= rest.len(),
            items == crate::parser::instr::items_model(rest@),
            vars == state@.vars,
            emitted(old(out)@, out@, done),
            semantics::print_items(items, vars) == (
                done + semantics::print_items(items.skip(i as int), vars).0,
                semantics::print_items(items.skip(i as int), vars).1,
            ),
        decreases rest.len() - i,
    {
        let ghost tail = items.skip(i as int);
        assert(tail[0] == items[i as int]);
        assert(tail.skip(1) =~= items.skip(i + 1));
        let ghost before = out@;
        if !emit_separator(rest[i].0, out) {
            assert(done + Seq::<OpV>::empty() =~= done);
            return Some(ErrorKind::TypeError);
        }
        let ghost gap = semantics::separator(rest[i as int].0)->0;
        assert(ops_model(out@) =~= ops_model(old(out)@) + (done + gap));
        match rest[i].1.eval(state) {
            Err(k) => {
                return Some(k);
            },
            Ok(v) => {
                emit(out, ConsoleOp::Write(v.text()));
                proof {
                    let shown = seq![OpV::Write(crate::exec::value::rendered(v@))];
                    let more = semantics::print_items(items.skip(i + 1), vars);
                    assert(done + (gap + shown + more.0) =~= (done + gap).push(shown[0]) + more.0);
                    assert(ops_model(out@) =~= ops_model(old(out)@) + (done + gap).push(shown[0]));
                    done = (done + gap).push(shown[0]);
                }
            },
        }
        i += 1;
    }
    assert(done + Seq::<OpV>::empty() =~= done);
    None
}

/// Puts out what a `PRINT` shows.
fn print(
    first: &Option<Expr>,
    rest: &Vec<(char, Expr)>,
    last: &Option<char>,
    state: &State,
    out: &mut Vec<ConsoleOp>,
) -> (r: Option<ErrorKind>)
    ensures
        ({
            let p = semantics::print_ops(
                crate::parser::instr::option_model(*first),
                crate::parser::instr::items_model(rest@),
                *last,
                state@.vars,
            );
            emitted(old(out)@, final(out)@, p.0) && r == p.1
        }),
{
    match first {
        None => {
            emit(out, ConsoleOp::WriteLine(String::new()));
            None
        },
        Some(e) => match e.eval(state) {
            Err(k) => {
                assert(ops_model(out@) =~= ops_model(out@) + Seq::<OpV>::empty());
                Some(k)
            },
            Ok(v) => {
                emit(out, ConsoleOp::Write(v.text()));
                let ghost head = seq![OpV::Write(crate::exec::value::rendered(v@))];
                let ghost mid = out@;
                let failed = print_rest(rest, state, out);
                let ghost items = semantics::print_items(
                    crate::parser::instr::items_model(rest@),
                    state@.vars,
                );
                assert(ops_model(out@) =~= ops_model(old(out)@) + (head + items.0));
                if failed.is_some() {
                    return failed;
                }
                match last {
                    None => {
                        emit(out, ConsoleOp::WriteLine(String::new()));
                        assert(ops_model(out@) =~= ops_model(old(out)@) + (head + items.0
                            + semantics::print_end(*last).0));
                        None
                    },
                    Some(c) => {
                        if emit_separator(*c, out) {
                            assert(ops_model(out@) =~= ops_model(old(out)@) + (head + items.0
                                + semantics::print_end(*last).0));
                            None
                        } else {
                            assert(head + items.0 + Seq::<OpV>::empty() =~= head + items.0);
                            Some(ErrorKind::TypeError)
                        }
                    },
                }
            },
        },
    }
}

/// What is left to do of a statement that waits for a line of input.
#[derive(Debug)]
pub enum Pending<'p, 'a> {
    /// The line read goes to this variable.
    Input(LowerCase<'a>),
    /// Once the first part is done, the statements of the line follow from
    /// the given index on.
    Then(Box<Pending<'p, 'a>>, &'p Vec<Instr<'a>>, usize),
}

impl<'p, 'a> Pending<'p, 'a> {
    /// The model of what is left to do. An index behind the line leaves
    /// nothing of it.
    pub open spec fn model(&self) -> PendingV
        decreases self,
    {
        match self {
            Pending::Input(name) => PendingV::Input(name@),
            Pending::Then(first, instrs, from) => PendingV::Then(
                Box::new(first.model()),
                if *from <= instrs@.len() {
                    instrs_model(instrs@).skip(*from as int)
                } else {
                    Seq::empty()
                },
            ),
        }
    }
}

impl<'p, 'a> View for Pending<'p, 'a> {
    type V = PendingV;

    open spec fn view(&self) -> PendingV {
        self.model()
    }
}

/// How a statement hands control on.
#[derive(Debug)]
pub enum Flow<'p, 'a> {
    /// To the statement that follows.
    Next,
    /// To the statement at this index.
    Jump(usize),
    /// Nowhere: the program ends.
    Stop,
    /// Back here, once a line of input has been read.
    Await(Pending<'p, 'a>),
}

impl<'p, 'a> View for Flow<'p, 'a> {
    type V = FlowV;

    open spec fn view(&self) -> FlowV {
        match self {
            Flow::Next => FlowV::Next,
            Flow::Jump(target) => FlowV::Jump(*target),
            Flow::Stop => FlowV::Stop,
            Flow::Await(p) => FlowV::Await(p@),
        }
    }
}

/// The model of what running a statement returns.
pub open spec fn flow_result(r: Result<Flow, ErrorKind>) -> Result<FlowV, ErrorKind> {
    match r {
        Ok(f) => Ok(f@),
        Err(k) => Err(k),
    }
}

/// Whether a call that began with `state0` and `out0` and returned `r` has
/// done what `e` says.
pub open spec fn performed(
    e: Effect,
    state0: State,
    out0: Seq<ConsoleOp>,
    state1: State,
    out1: Seq<ConsoleOp>,
    r: Result<Flow, ErrorKind>,
) -> bool {
    &&& state1@ == e.state
    &&& emitted(out0, out1, e.out)
    &&& flow_result(r) == e.flow
}

/// Nothing was put out where the requests are what they were.
proof fn lemma_no_output(out: Seq<ConsoleOp>)
    ensures
        emitted(out, out, Seq::empty()),
{
    assert(ops_model(out) =~= ops_model(out) + Seq::<OpV>::empty());
}

/// What was put out in two stages was put out.
proof fn lemma_more_output(a: Seq<ConsoleOp>, b: Seq<ConsoleOp>, c: Seq<ConsoleOp>, x: Seq<OpV>, y: Seq<OpV>)
    requires
        emitted(a, b, x),
        emitted(b, c, y),
    ensures
        emitted(a, c, x + y),
{
    assert(ops_model(c) =~= ops_model(a) + (x + y));
}

/// Gives the variable `name` the value `value`.
fn set_var(state: &mut State, name: &LowerCase, value: i64)
    ensures
        final(state)@ == semantics::assign(old(state)@, name@, value),
{
    state.vars.assign(name, value);
    assert(state@.loops =~= old(state)@.loops);
}

/// Opens a loop within those that are open.
fn open_loop<'a>(state: &mut State<'a>, frame: LoopState<'a>)
    ensures
        final(state)@.vars == old(state)@.vars,
        final(state)@.pc == old(state)@.pc,
        final(state)@.loops == old(state)@.loops.push(frame@),
{
    state.loop_stack.push(frame);
    assert(state@.loops =~= old(state)@.loops.push(frame@));
}

/// Closes the innermost open loop.
fn close_loop(state: &mut State)
    requires
        old(state).loop_stack@.len() > 0,
    ensures
        final(state)@.vars == old(state)@.vars,
        final(state)@.pc == old(state)@.pc,
        final(state)@.loops == old(state)@.loops.drop_last(),
{
    state.loop_stack.pop();
    assert(state@.loops =~= old(state)@.loops.drop_last());
}

/// Runs `FOR`.
fn run_for<'a>(
    name: &LowerCase<'a>,
    start: &Expr<'a>,
    end: &Expr<'a>,
    step: &Expr<'a>,
    state: &mut State<'a>,
) -> (r: Result<(), ErrorKind>)
    ensures
        ({
            let e = semantics::run_for(
                crate::parser::expr::ExprV::Ident(name@),
                start@,
                end@,
                step@,
                old(state)@,
            );
            &&& final(state)@ == e.state
            &&& e.out == Seq::<OpV>::empty()
            &&& match r {
                Ok(_) => e.flow == Ok::<FlowV, ErrorKind>(FlowV::Next),
                Err(k) => e.flow == Err::<FlowV, ErrorKind>(k),
            }
        }),
{
    let first = start.eval_to_int(state)?;
    set_var(state, name, first);
    let last = end.eval_to_int(state)?;
    let by = step.eval_to_int(state)?;
    let pc = state.pc;
    open_loop(state, LoopState { start_line: pc, var_name: *name, end_value: last, step: by });
    Ok(())
}

/// Runs `NEXT` in a program of `len` statements. A loop goes on at the
/// index behind its `FOR`; where that is the end of the program, the run
/// ends.
fn run_next<'p, 'a>(name: &LowerCase<'a>, state: &mut State<'a>, len: usize) -> (r: Result<
    Flow<'p, 'a>,
    ErrorKind,
>)
    ensures
        ({
            let e = semantics::run_next(
                crate::parser::expr::ExprV::Ident(name@),
                old(state)@,
                len as nat,
            );
            &&& final(state)@ == e.state
            &&& e.out == Seq::<OpV>::empty()
            &&& flow_result(r) == e.flow
        }),
{
    let depth = state.loop_stack.len();
    if depth == 0 {
        return Err(ErrorKind::LoopStackError);
    }
    assert(state@.loops.last() == state.loop_stack@[depth - 1]@);
    let top = &state.loop_stack[depth - 1];
    if !(top.var_name == *name) {
        return Err(ErrorKind::LoopStackError);
    }
    let by = top.step;
    let end = top.end_value;
    let start = top.start_line;
    let moved = state.get_var(name)?.wrapping_add(by);
    set_var(state, name, moved);
    if by == 0 {
        Err(ErrorKind::LoopStackError)
    } else if (by > 0 && moved <= end) || (by < 0 && moved >= end) {
        if len > 0 && start < len - 1 {
            Ok(Flow::Jump(start + 1))
        } else if len > 0 && start == len - 1 {
            Ok(Flow::Stop)
        } else {
            Err(ErrorKind::InvalidJumpTarget)
        }
    } else {
        close_loop(state);
        Ok(Flow::Next)
    }
}

/// Runs a jump to `line` in a program of `len` statements.
fn run_goto<'p, 'a>(line: u64, len: usize) -> (r: Result<Flow<'p, 'a>, ErrorKind>)
    ensures
        forall|st: crate::exec::state::StateV|
            flow_result(r) == (#[trigger] semantics::run_goto(line, st, len as nat)).flow,
{
    if line == STOP_LINE {
        Ok(Flow::Stop)
    } else if line >= 10 && line / 10 - 1 < len as u64 {
        Ok(Flow::Jump((line / 10 - 1) as usize))
    } else {
        Err(ErrorKind::InvalidJumpTarget)
    }
}

impl<'a> Instr<'a> {
    /// Runs the statement in a program of `len` statements. `state.pc` is the
    /// index of the line that the statement stands on, and stays: where
    /// control goes is returned. The requests to the console are added to
    /// `out`. A statement that needs a line of input returns what is left of
    /// it, to be taken up with [`Pending::resume`].
    pub fn execute<'p>(
        &'p self,
        state: &mut State<'a>,
        len: usize,
        out: &mut Vec<ConsoleOp>,
    ) -> (r: Result<Flow<'p, 'a>, ErrorKind>)
        ensures
            performed(
                semantics::run_instr(self@, old(state)@, len as nat),
                *old(state),
                old(out)@,
                *final(state),
                final(out)@,
                r,
            ),
        decreases self, 0nat,
    {
        proof {
            lemma_no_output(out@);
        }
        match self {
            Instr::Print(first, rest, last) => match print(first, rest, last, state, out) {
                Some(k) => Err(k),
                None => Ok(Flow::Next),
            },
            Instr::Assign(Expr::Ident(name), value) => {
                let v = value.eval_to_int(state)?;
                set_var(state, name, v);
                Ok(Flow::Next)
            },
            Instr::Assign(_, _) => Err(ErrorKind::TypeError),
            Instr::Rem(_) => Ok(Flow::Next),
            Instr::Input(prompt, Expr::Ident(name)) => {
                if let Some(e) = prompt {
                    let v = e.eval(state)?;
                    emit(out, ConsoleOp::WriteLine(v.text()));
                }
                Ok(Flow::Await(Pending::Input(*name)))
            },
            Instr::Input(_, _) => Err(ErrorKind::TypeError),
            Instr::Goto(line) => run_goto(*line, len),
            Instr::Clear => {
                emit(out, ConsoleOp::ClearScreen);
                Ok(Flow::Next)
            },
            Instr::IfThen(cond, then) => match cond.eval(state)? {
                Value::Bool(true) => then.execute(state, len, out),
                Value::Bool(false) => Ok(Flow::Next),
                _ => Err(ErrorKind::TypeError),
            },
            Instr::Multi(instrs) => {
                proof {
                    lemma_multi_model(*instrs);
                }
                run_line(instrs, 0, state, len, out)
            },
            Instr::For(Expr::Ident(name), start, end, step) => {
                run_for(name, start, end, step, state)?;
                Ok(Flow::Next)
            },
            Instr::For(_, _, _, _) => Err(ErrorKind::TypeError),
            Instr::Next(Expr::Ident(name)) => run_next(name, state, len),
            Instr::Next(_) => Err(ErrorKind::TypeError),
        }
    }
}

/// What [`semantics::run_from`] is where a statement is left to run.
proof fn lemma_run_from(line: Seq<crate::parser::instr::InstrV>, i: nat, st: crate::exec::state::StateV, len: nat)
    requires
        i < line.len(),
    ensures
        semantics::run_from(line, i, st, len) == ({
            let e = semantics::run_instr(line[i as int], st, len);
            match e.flow {
                Ok(FlowV::Next) => semantics::after(
                    e.out,
                    semantics::run_from(line, i + 1, e.state, len),
                ),
                Ok(FlowV::Await(p)) => Effect {
                    state: e.state,
                    out: e.out,
                    flow: Ok(FlowV::Await(PendingV::Then(Box::new(p), line.skip(i as int + 1)))),
                },
                _ => e,
            }
        }),
{
}

/// Runs the statements of one line from the one at `from` on, as
/// [`semantics::run_from`] describes.
pub fn run_line<'p, 'a>(
    instrs: &'p Vec<Instr<'a>>,
    from: usize,
    state: &mut State<'a>,
    len: usize,
    out: &mut Vec<ConsoleOp>,
) -> (r: Result<Flow<'p, 'a>, ErrorKind>)
    ensures
        performed(
            semantics::run_from(instrs_model(instrs@), from as nat, old(state)@, len as nat),
            *old(state),
            old(out)@,
            *final(state),
            final(out)@,
            r,
        ),
    decreases instrs, instrs.len() - from,
{
    if from >= instrs.len() {
        proof {
            lemma_no_output(out@);
        }
        return Ok(Flow::Next);
    }
    let ghost line = instrs_model(instrs@);
    let ghost e = semantics::run_instr(line[from as int], state@, len as nat);
    proof {
        assert(line[from as int] == instrs[from as int]@);
        lemma_run_from(line, from as nat, state@, len as nat);
    }
    match instrs[from].execute(state, len, out) {
        Ok(Flow::Next) => {
            let ghost mid = out@;
            let r = run_line(instrs, from + 1, state, len, out);
            proof {
                let rest = semantics::run_from(line, (from + 1) as nat, e.state, len as nat);
                lemma_more_output(old(out)@, mid, out@, e.out, rest.out);
            }
            r
        },
        Ok(Flow::Await(p)) => Ok(Flow::Await(Pending::Then(Box::new(p), instrs, from + 1))),
        other => other,
    }
}

/// Whether two texts are the same.
fn same_text(a: &str, b: &str) -> (r: bool)
    ensures
        r == (a@ == b@),
{
    a.to_owned() == b.to_owned()
}

/// Hands an answer, the white space at its ends taken off, to the variable
/// `name`: `STOP` is `UserAbort`, an integer becomes the value of the
/// variable, and anything else is a `TypeError` that leaves the state as it
/// was.
pub fn take_answer(name: &LowerCase, answer: &str, state: &mut State) -> (r: Result<(), ErrorKind>)
    ensures
        ({
            let e = semantics::take_answer(name@, answer@, old(state)@);
            &&& final(state)@ == e.state
            &&& e.out == Seq::<OpV>::empty()
            &&& match r {
                Ok(_) => e.flow == Ok::<FlowV, ErrorKind>(FlowV::Next),
                Err(k) => e.flow == Err::<FlowV, ErrorKind>(k),
            }
        }),
{
    if same_text(answer, "STOP") {
        return Err(ErrorKind::UserAbort);
    }
    proof {
        lemma_literal_len(answer@);
    }
    match int64(answer) {
        Some((rest, v)) => {
            if rest.is_empty() {
                set_var(state, name, v);
                Ok(())
            } else {
                Err(ErrorKind::TypeError)
            }
        },
        None => Err(ErrorKind::TypeError),
    }
}

/// Hands the line read to the variable that waits for it.
fn accept(name: &LowerCase, line: &str, state: &mut State) -> (r: Result<(), ErrorKind>)
    ensures
        ({
            let e = semantics::accept(name@, line@, old(state)@);
            &&& final(state)@ == e.state
            &&& e.out == Seq::<OpV>::empty()
            &&& match r {
                Ok(_) => e.flow == Ok::<FlowV, ErrorKind>(FlowV::Next),
                Err(k) => e.flow == Err::<FlowV, ErrorKind>(k),
            }
        }),
{
    take_answer(name, trim(line), state)
}

impl<'p, 'a> Pending<'p, 'a> {
    /// Takes up the statement that waited, with the line that was read for
    /// it, in a program of `len` statements.
    pub fn resume(
        self,
        line: &str,
        state: &mut State<'a>,
        len: usize,
        out: &mut Vec<ConsoleOp>,
    ) -> (r: Result<Flow<'p, 'a>, ErrorKind>)
        ensures
            performed(
                semantics::resume(self@, line@, old(state)@, len as nat),
                *old(state),
                old(out)@,
                *final(state),
                final(out)@,
                r,
            ),
        decreases self,
    {
        proof {
            lemma_no_output(out@);
        }
        match self {
            Pending::Input(name) => {
                accept(&name, line, state)?;
                Ok(Flow::Next)
            },
            Pending::Then(first, instrs, from) => {
                let ghost e = semantics::resume(first@, line@, state@, len as nat);
                match (*first).resume(line, state, len, out) {
                    Ok(Flow::Next) => {
                        let ghost mid = out@;
                        let r = run_line(instrs, from, state, len, out);
                        proof {
                            let rest = semantics::run_from(
                                instrs_model(instrs@),
                                from as nat,
                                e.state,
                                len as nat,
                            );
                            if from <= instrs@.len() {
                                lemma_run_skipped(
                                    instrs_model(instrs@),
                                    from as nat,
                                    0,
                                    e.state,
                                    len as nat,
                                );
                            }
                            lemma_more_output(old(out)@, mid, out@, e.out, rest.out);
                        }
                        r
                    },
                    Ok(Flow::Await(q)) => Ok(Flow::Await(Pending::Then(Box::new(q), instrs, from))),
                    other => other,
                }
            },
        }
    }
}

/// Running a line from its `i`-th statement on is running what is left of it
/// behind the first `i` statements, but for where a waiting statement keeps
/// the rest: both keep the same statements.
proof fn lemma_run_skipped(line: Seq<crate::parser::instr::InstrV>, k: nat, i: nat, st: crate::exec::state::StateV, len: nat)
    requires
        k <= line.len(),
    ensures
        semantics::run_from(line.skip(k as int), i, st, len) == semantics::run_from(
            line,
            k + i,
            st,
            len,
        ),
    decreases line.len() - k - i,
{
    let tail = line.skip(k as int);
    if i < tail.len() {
        assert(tail[i as int] == line[(k + i) as int]);
        let e = semantics::run_instr(tail[i as int], st, len);
        lemma_run_skipped(line, k, i + 1, e.state, len);
        assert(tail.skip(i as int + 1) =~= line.skip((k + i) as int + 1));
    }
}

/// Where a run stands between two steps.
#[derive(Debug)]
pub enum Status<'p, 'a> {
    /// The statement at `pc` is the next to run.
    Running,
    /// The program counter has left the program: the run is over.
    Halted,
    /// A statement waits for a line of input.
    Waiting(Pending<'p, 'a>),
}

impl<'p, 'a> View for Status<'p, 'a> {
    type V = StatusV;

    open spec fn view(&self) -> StatusV {
        match self {
            Status::Running => StatusV::Running,
            Status::Halted => StatusV::Halted,
            Status::Waiting(p) => StatusV::Waiting(p@),
        }
    }
}

/// The model of what a step returns.
pub open spec fn status_result(r: Result<Status, RunError>) -> Result<StatusV, RunError> {
    match r {
        Ok(s) => Ok(s@),
        Err(e) => Err(e),
    }
}

/// Whether a step that began with `state0` and `out0` and returned `r` has
/// done what `o` says.
pub open spec fn stepped(
    o: Outcome,
    state0: State,
    out0: Seq<ConsoleOp>,
    state1: State,
    out1: Seq<ConsoleOp>,
    r: Result<Status, RunError>,
) -> bool {
    &&& state1@ == o.state
    &&& emitted(out0, out1, o.out)
    &&& status_result(r) == o.status
}

/// Where the run stands with the program counter at `pc`.
fn status_at<'p, 'a>(pc: usize, len: usize) -> (r: Status<'p, 'a>)
    ensures
        r@ == semantics::status_at(pc, len as nat),
{
    if pc < len {
        Status::Running
    } else {
        Status::Halted
    }
}

/// Sets the program counter.
fn move_to(state: &mut State, pc: usize)
    ensures
        final(state)@ == semantics::at(old(state)@, pc),
{
    state.pc = pc;
    assert(state@.loops =~= old(state)@.loops);
}

/// Sets the program counter as the statement that ran at `state.pc` asks, in
/// a program of `len` statements.
fn settle<'p, 'a>(flow: Result<Flow<'p, 'a>, ErrorKind>, state: &mut State<'a>, len: usize) -> (r:
    Result<Status<'p, 'a>, RunError>)
    requires
        old(state).pc < len,
        flow matches Ok(Flow::Jump(target)) ==> target < len,
    ensures
        forall|out: Seq<OpV>|
            {
                let o = #[trigger] semantics::settle(
                    Effect { state: old(state)@, out: out, flow: flow_result(flow) },
                    len as nat,
                );
                final(state)@ == o.state && status_result(r) == o.status
            },
{
    let pc = state.pc;
    match flow {
        Ok(Flow::Next) => {
            move_to(state, pc + 1);
            Ok(status_at(pc + 1, len))
        },
        Ok(Flow::Jump(target)) => {
            move_to(state, target);
            Ok(status_at(target, len))
        },
        Ok(Flow::Stop) => {
            move_to(state, len);
            Ok(Status::Halted)
        },
        Ok(Flow::Await(p)) => Ok(Status::Waiting(p)),
        Err(k) => Err(RunError { index: pc, kind: k }),
    }
}

/// One step of the run of `program`: the statement at `state.pc` runs, and
/// the program counter is set to where it hands control. Nothing happens
/// once the counter has left the program.
pub fn step<'p, 'a>(program: &'p Vec<Instr<'a>>, state: &mut State<'a>, out: &mut Vec<ConsoleOp>) -> (r:
    Result<Status<'p, 'a>, RunError>)
    ensures
        stepped(
            semantics::step(instrs_model(program@), old(state)@),
            *old(state),
            old(out)@,
            *final(state),
            final(out)@,
            r,
        ),
{
    let len = program.len();
    if state.pc >= len {
        proof {
            lemma_no_output(out@);
        }
        return Ok(Status::Halted);
    }
    let ghost e = semantics::run_instr(program[state.pc as int]@, state@, len as nat);
    let flow = program[state.pc].execute(state, len, out);
    proof {
        lemma_same_line(program[old(state).pc as int]@, old(state)@, len as nat);
    }
    settle(flow, state, len)
}

/// The step that takes up the statement that waited when the run last
/// stopped, with the line that was read for it. `len` is the number of
/// statements of the program; with the program counter behind them, the step
/// fails with `InvalidJumpTarget`.
pub fn answer<'p, 'a>(
    pending: Pending<'p, 'a>,
    line: &str,
    state: &mut State<'a>,
    len: usize,
    out: &mut Vec<ConsoleOp>,
) -> (r: Result<Status<'p, 'a>, RunError>)
    ensures
        stepped(
            semantics::step_resumed(pending@, line@, old(state)@, len as nat),
            *old(state),
            old(out)@,
            *final(state),
            final(out)@,
            r,
        ),
{
    if state.pc >= len {
        proof {
            lemma_no_output(out@);
        }
        return Err(RunError { index: state.pc, kind: ErrorKind::InvalidJumpTarget });
    }
    let flow = pending.resume(line, state, len, out);
    proof {
        lemma_same_line_resumed(pending@, line@, old(state)@, len as nat);
    }
    settle(flow, state, len)
}

/// How a run ended.
#[derive(Debug, Clone, Copy, PartialEq, Eq, Structural)]
pub enum End {
    /// The program counter left the program.
    Finished,
    /// A statement failed.
    Failed(RunError),
    /// The steps allowed were used up before the program ended.
    Unfinished,
}

impl View for End {
    type V = EndV;

    open spec fn view(&self) -> EndV {
        match self {
            End::Finished => EndV::Finished,
            End::Failed(e) => EndV::Failed(*e),
            End::Unfinished => EndV::Unfinished,
        }
    }
}

/// A run: the console requests made, in order, and how it ended.
#[derive(Debug)]
pub struct Run {
    pub out: Vec<ConsoleOp>,
    pub end: End,
}

impl View for Run {
    type V = RunV;

    open spec fn view(&self) -> RunV {
        RunV { out: ops_model(self.out@), end: self.end@ }
    }
}

/// The texts of a sequence of strings.
pub open spec fn lines_model(lines: Seq<String>) -> Seq<Seq<char>> {
    Seq::new(lines.len(), |i: int| lines[i]@)
}

/// What the next turn of a run is: a step of the program, or the answer to
/// the statement that waits, made of the next line of input. There is none
/// where the run has halted or the input is used up.
#[verifier::opaque]
spec fn turn_of(
    program: Seq<crate::parser::instr::InstrV>,
    st: crate::exec::state::StateV,
    status: StatusV,
    input: Seq<Seq<char>>,
    used: nat,
) -> Option<Outcome> {
    match status {
        StatusV::Halted => None,
        StatusV::Running => Some(semantics::step(program, st)),
        StatusV::Waiting(p) => if used < input.len() {
            Some(semantics::step_resumed(p, input[used as int], st, program.len()))
        } else {
            None
        },
    }
}

/// What is left of a run: [`semantics::run`], under a name that a proof takes
/// apart only where it asks for it.
#[verifier::opaque]
spec fn rest_of_run(
    program: Seq<crate::parser::instr::InstrV>,
    st: crate::exec::state::StateV,
    status: StatusV,
    input: Seq<Seq<char>>,
    used: nat,
    steps: nat,
) -> RunV {
    semantics::run(program, st, status, input, used, steps)
}

/// What is left of a run is the run from there.
proof fn lemma_rest_is_run(
    program: Seq<crate::parser::instr::InstrV>,
    st: crate::exec::state::StateV,
    status: StatusV,
    input: Seq<Seq<char>>,
    used: nat,
    steps: nat,
)
    ensures
        rest_of_run(program, st, status, input, used, steps) == semantics::run(
            program,
            st,
            status,
            input,
            used,
            steps,
        ),
{
    reveal(rest_of_run);
}

/// The lines of input that are spent once a turn is taken from `status`.
spec fn used_after(status: StatusV, used: nat) -> nat {
    if status is Waiting {
        used + 1
    } else {
        used
    }
}

/// One turn of a run: where what is left of it ends at once, and what it is
/// made of where a turn is taken.
proof fn lemma_rest_of_run(
    program: Seq<crate::parser::instr::InstrV>,
    st: crate::exec::state::StateV,
    status: StatusV,
    input: Seq<Seq<char>>,
    used: nat,
    steps: nat,
)
    ensures
        status is Halted ==> rest_of_run(program, st, status, input, used, steps) == (RunV {
            out: Seq::empty(),
            end: EndV::Finished,
        }),
        !(status is Halted) && steps == 0 ==> rest_of_run(program, st, status, input, used, steps)
            == (RunV { out: Seq::empty(), end: EndV::Unfinished }),
        status is Waiting && steps > 0 && used >= input.len() ==> rest_of_run(
            program,
            st,
            status,
            input,
            used,
            steps,
        ) == (RunV {
            out: Seq::empty(),
            end: EndV::Failed(RunError { index: st.pc, kind: ErrorKind::IOError }),
        }),
        !(status is Halted) && steps > 0 && (status is Waiting ==> used < input.len()) ==> (
        turn_of(program, st, status, input, used) matches Some(o) && rest_of_run(
            program,
            st,
            status,
            input,
            used,
            steps,
        ) == semantics::follow(
            o,
            rest_of_run(
                program,
                o.state,
                semantics::status_after(o),
                input,
                used_after(status, used),
                (steps - 1) as nat,
            ),
        )),
{
    reveal(rest_of_run);
    reveal(turn_of);
}

/// A run that has put out `shown` and goes on with the turn `o` is, where
/// the turn fails, over with that failure, and else a run that has put out
/// what the turn added and goes on behind it.
proof fn lemma_follow_turn(
    st: crate::exec::state::StateV,
    shown: Seq<OpV>,
    status: StatusV,
    o: Outcome,
    more: RunV,
)
    ensures
        semantics::follow(
            Outcome { state: st, out: shown, status: Ok(status) },
            semantics::follow(o, more),
        ) == match o.status {
            Err(e) => RunV { out: shown + o.out, end: EndV::Failed(e) },
            Ok(next) => semantics::follow(
                Outcome { state: o.state, out: shown + o.out, status: Ok(next) },
                more,
            ),
        },
{
    assert(shown + (o.out + more.out) =~= (shown + o.out) + more.out);
}

/// Takes the next turn of a run that has not halted and has input left if it
/// waits for some.
fn turn<'p, 'a>(
    instrs: &'p Vec<Instr<'a>>,
    input: &Vec<String>,
    used: usize,
    status: Status<'p, 'a>,
    state: &mut State<'a>,
    out: &mut Vec<ConsoleOp>,
) -> (r: Result<Status<'p, 'a>, RunError>)
    requires
        status is Waiting ==> used < input@.len(),
        !(status is Halted),
    ensures
        turn_of(instrs_model(instrs@), old(state)@, status@, lines_model(input@), used as nat)
            matches Some(o) && stepped(o, *old(state), old(out)@, *final(state), final(out)@, r),
{
    proof {
        reveal(turn_of);
    }
    match status {
        Status::Waiting(p) => answer(p, input[used].as_str(), state, instrs.len(), out),
        _ => step(instrs, state, out),
    }
}

/// Runs the program from its first statement in a fresh state, for at most
/// `max_steps` steps. Each `INPUT` is answered with the next line of `input`;
/// where none is left, the run fails with `IOError`.
pub fn execute<'a>(instrs: &Vec<Instr<'a>>, input: &Vec<String>, max_steps: u64) -> (r: Run)
    ensures
        r@ == semantics::run(
            instrs_model(instrs@),
            crate::exec::state::initial_state(),
            semantics::status_at(0, instrs@.len()),
            lines_model(input@),
            0,
            max_steps as nat,
        ),
{
    let mut state = State::default();
    let mut out: Vec<ConsoleOp> = Vec::new();
    let mut status = status_at(0, instrs.len());
    let mut used: usize = 0;
    let mut steps: u64 = max_steps;
    let mut end = End::Unfinished;
    let ghost program = instrs_model(instrs@);
    let ghost lines = lines_model(input@);
    let ghost whole = rest_of_run(program, state@, status@, lines, 0, max_steps as nat);
    proof {
        lemma_rest_is_run(program, state@, status@, lines, 0, max_steps as nat);
        assert(ops_model(out@) =~= Seq::<OpV>::empty());
        assert(ops_model(out@) + whole.out =~= whole.out);
    }
    loop
        invariant_except_break
            program == instrs_model(instrs@),
            lines == lines_model(input@),
            used <= input@.len(),
            whole == semantics::follow(
                Outcome { state: state@, out: ops_model(out@), status: Ok(status@) },
                rest_of_run(program, state@, status@, lines, used as nat, steps as nat),
            ),
        ensures
            whole == (RunV { out: ops_model(out@), end: end@ }),
        decreases steps,
    {
        let ghost shown = ops_model(out@);
        let ghost here = state@;
        let ghost was = status@;
        proof {
            lemma_rest_of_run(program, here, was, lines, used as nat, steps as nat);
            assert(shown + Seq::<OpV>::empty() =~= shown);
        }
        let halted = match &status {
            Status::Halted => true,
            _ => false,
        };
        if halted {
            end = End::Finished;
            break;
        }
        if steps == 0 {
            end = End::Unfinished;
            break;
        }
        let waiting = match &status {
            Status::Waiting(_) => true,
            _ => false,
        };
        if waiting && used >= input.len() {
            end = End::Failed(RunError { index: state.pc, kind: ErrorKind::IOError });
            break;
        }
        let ghost o = turn_of(program, here, was, lines, used as nat)->0;
        let next = turn(instrs, input, used, status, &mut state, &mut out);
        if waiting {
            used += 1;
        }
        steps -= 1;
        proof {
            lemma_follow_turn(
                here,
                shown,
                was,
                o,
                rest_of_run(
                    program,
                    o.state,
                    semantics::status_after(o),
                    lines,
                    used as nat,
                    steps as nat,
                ),
            );
        }
        match next {
            Err(e) => {
                end = End::Failed(e);
                break;
            },
            Ok(s) => {
                status = s;
            },
        }
    }
    Run { out, end }
}

} // verus!
