//! What expressions and statements mean, as functions over the models.

use crate::exec::console::OpV;
use crate::exec::error::{ErrorKind, RunError};
use crate::exec::state::{read_var, LoopV, StateV};
use crate::exec::value::{rendered, ValueV};
use crate::parser::expr::{BinOp, ExprV};
use crate::parser::instr::{InstrV, STOP_LINE};
use crate::text::{lower_text, trimmed, whole_int};
use vstd::prelude::*;

verus! {

/// The 64-bit two's complement number that `x` wraps to.
pub open spec fn wrap(x: int) -> i64 {
    let m = x % 0x1_0000_0000_0000_0000;
    if m > i64::MAX {
        (m - 0x1_0000_0000_0000_0000) as i64
    } else {
        m as i64
    }
}

/// The quotient of `a` by `b`, rounded towards zero; `b` is not zero.
pub open spec fn quotient(a: int, b: int) -> int {
    if a == 0 {
        0
    } else if a > 0 && b > 0 {
        a / b
    } else if a < 0 && b < 0 {
        (-a) / (-b)
    } else if a < 0 {
        -((-a) / b)
    } else {
        -(a / (-b))
    }
}

/// What an arithmetic operator makes of two numbers. Results wrap to 64
/// bits; division by zero fails.
pub open spec fn arithmetic(op: BinOp, a: i64, b: i64) -> Result<i64, ErrorKind> {
    match op {
        BinOp::Add => Ok(wrap(a + b)),
        BinOp::Sub => Ok(wrap(a - b)),
        BinOp::Mul => Ok(wrap(a * b)),
        BinOp::Div => if b == 0 {
            Err(ErrorKind::DivisionByZero)
        } else {
            Ok(wrap(quotient(a as int, b as int)))
        },
        _ => Err(ErrorKind::TypeError),
    }
}

/// What a comparison operator says of two numbers.
pub open spec fn comparison(op: BinOp, a: i64, b: i64) -> bool {
    match op {
        BinOp::Gt => a > b,
        BinOp::Lt => a < b,
        BinOp::Eq => a == b,
        BinOp::Ne => a != b,
        BinOp::Ge => a >= b,
        _ => a <= b,
    }
}

/// The integer that `e` evaluates to. A text or a comparison is a
/// `TypeError`. The left operand is evaluated first, and its failure is the
/// one reported.
pub open spec fn eval_int(e: ExprV, vars: Map<Seq<char>, i64>) -> Result<i64, ErrorKind>
    decreases e,
{
    match e {
        ExprV::Ident(name) => read_var(vars, lower_text(name)),
        ExprV::Int(i) => Ok(i),
        ExprV::Text(_) => Err(ErrorKind::TypeError),
        ExprV::Binary(op, a, b) => if op.is_arithmetic() {
            match eval_int(*a, vars) {
                Err(k) => Err(k),
                Ok(x) => match eval_int(*b, vars) {
                    Err(k) => Err(k),
                    Ok(y) => arithmetic(op, x, y),
                },
            }
        } else {
            Err(ErrorKind::TypeError)
        },
    }
}

/// The value that `e` evaluates to: a number, a text, or the truth value of a
/// comparison of two numbers.
pub open spec fn eval(e: ExprV, vars: Map<Seq<char>, i64>) -> Result<ValueV, ErrorKind> {
    match e {
        ExprV::Text(s) => Ok(ValueV::Text(s)),
        ExprV::Binary(op, a, b) => if op.is_arithmetic() {
            match eval_int(e, vars) {
                Ok(i) => Ok(ValueV::Int(i)),
                Err(k) => Err(k),
            }
        } else {
            match eval_int(*a, vars) {
                Err(k) => Err(k),
                Ok(x) => match eval_int(*b, vars) {
                    Err(k) => Err(k),
                    Ok(y) => Ok(ValueV::Bool(comparison(op, x, y))),
                },
            }
        },
        _ => match eval_int(e, vars) {
            Ok(i) => Ok(ValueV::Int(i)),
            Err(k) => Err(k),
        },
    }
}

/// What is left to do of a statement that waits for a line of input.
pub enum PendingV {
    /// The line read goes to this variable.
    Input(Seq<char>),
    /// Once the first part is done, these statements follow.
    Then(Box<PendingV>, Seq<InstrV>),
}

/// How a statement hands control on.
pub enum FlowV {
    /// To the statement that follows.
    Next,
    /// To the statement at this index, which lies in the program.
    Jump(usize),
    /// Nowhere: the program ends.
    Stop,
    /// Back here, once a line of input has been read.
    Await(PendingV),
}

/// What running a statement does: the state it leaves, the console requests
/// it makes, and how it hands control on or fails.
pub struct Effect {
    pub state: StateV,
    pub out: Seq<OpV>,
    pub flow: Result<FlowV, ErrorKind>,
}

/// The effect of a statement that changes nothing.
pub open spec fn pass(st: StateV) -> Effect {
    Effect { state: st, out: Seq::empty(), flow: Ok(FlowV::Next) }
}

/// The effect of a statement that fails at once.
pub open spec fn fail(st: StateV, k: ErrorKind) -> Effect {
    Effect { state: st, out: Seq::empty(), flow: Err(k) }
}

/// `e` with the requests `out` made before its own.
pub open spec fn after(out: Seq<OpV>, e: Effect) -> Effect {
    Effect { state: e.state, out: out + e.out, flow: e.flow }
}

/// `st` with the variable `name` set to `v`. Variables are kept under the
/// lower-case forms of their names.
pub open spec fn assign(st: StateV, name: Seq<char>, v: i64) -> StateV {
    StateV { vars: st.vars.insert(lower_text(name), v), pc: st.pc, loops: st.loops }
}

/// What a separator of a print list puts out: a space for a comma, nothing
/// for a semicolon. Nothing else is a separator.
pub open spec fn separator(c: char) -> Option<Seq<OpV>> {
    if c == ',' {
        Some(seq![OpV::Write(" "@)])
    } else if c == ';' {
        Some(Seq::empty())
    } else {
        None
    }
}

/// The requests of the items of a print list from the second on, and the
/// failure that cuts them short, if any. Each item puts out its separator,
/// then its value.
pub open spec fn print_items(items: Seq<(char, ExprV)>, vars: Map<Seq<char>, i64>) -> (
    Seq<OpV>,
    Option<ErrorKind>,
)
    decreases items.len(),
{
    if items.len() == 0 {
        (Seq::empty(), None)
    } else {
        match separator(items[0].0) {
            None => (Seq::empty(), Some(ErrorKind::TypeError)),
            Some(gap) => match eval(items[0].1, vars) {
                Err(k) => (gap, Some(k)),
                Ok(v) => {
                    let more = print_items(items.skip(1), vars);
                    (gap + seq![OpV::Write(rendered(v))] + more.0, more.1)
                },
            },
        }
    }
}

/// The requests that end a print list, after a last separator or without.
pub open spec fn print_end(last: Option<char>) -> (Seq<OpV>, Option<ErrorKind>) {
    match last {
        None => (seq![OpV::WriteLine(Seq::empty())], None),
        Some(c) => match separator(c) {
            Some(gap) => (gap, None),
            None => (Seq::empty(), Some(ErrorKind::TypeError)),
        },
    }
}

/// The requests of a `PRINT` and the failure that cuts them short, if any.
pub open spec fn print_ops(
    first: Option<ExprV>,
    rest: Seq<(char, ExprV)>,
    last: Option<char>,
    vars: Map<Seq<char>, i64>,
) -> (Seq<OpV>, Option<ErrorKind>) {
    match first {
        None => (seq![OpV::WriteLine(Seq::empty())], None),
        Some(e) => match eval(e, vars) {
            Err(k) => (Seq::empty(), Some(k)),
            Ok(v) => {
                let head = seq![OpV::Write(rendered(v))];
                let items = print_items(rest, vars);
                if items.1 is Some {
                    (head + items.0, items.1)
                } else {
                    let end = print_end(last);
                    (head + items.0 + end.0, end.1)
                }
            },
        },
    }
}

/// The effect of `PRINT`.
pub open spec fn run_print(
    first: Option<ExprV>,
    rest: Seq<(char, ExprV)>,
    last: Option<char>,
    st: StateV,
) -> Effect {
    let p = print_ops(first, rest, last, st.vars);
    Effect {
        state: st,
        out: p.0,
        flow: match p.1 {
            Some(k) => Err(k),
            None => Ok(FlowV::Next),
        },
    }
}

/// The effect of an assignment.
pub open spec fn run_assign(target: ExprV, value: ExprV, st: StateV) -> Effect {
    match target {
        ExprV::Ident(name) => match eval_int(value, st.vars) {
            Ok(v) => pass(assign(st, name, v)),
            Err(k) => fail(st, k),
        },
        _ => fail(st, ErrorKind::TypeError),
    }
}

/// The effect of `INPUT` up to the point where the line is read: the prompt
/// is shown, and the statement waits.
pub open spec fn run_input(prompt: Option<ExprV>, target: ExprV, st: StateV) -> Effect {
    match target {
        ExprV::Ident(name) => match prompt {
            None => Effect {
                state: st,
                out: Seq::empty(),
                flow: Ok(FlowV::Await(PendingV::Input(name))),
            },
            Some(e) => match eval(e, st.vars) {
                Ok(v) => Effect {
                    state: st,
                    out: seq![OpV::WriteLine(rendered(v))],
                    flow: Ok(FlowV::Await(PendingV::Input(name))),
                },
                Err(k) => fail(st, k),
            },
        },
        _ => fail(st, ErrorKind::TypeError),
    }
}

/// The index that a line number stands for: a tenth of it, rounded down,
/// less one.
pub open spec fn line_index(line: u64) -> int {
    line / 10 - 1
}

/// The effect of a jump to `line` in a program of `len` statements.
pub open spec fn run_goto(line: u64, st: StateV, len: nat) -> Effect {
    if line == STOP_LINE {
        Effect { state: st, out: Seq::empty(), flow: Ok(FlowV::Stop) }
    } else if 0 <= line_index(line) < len {
        Effect { state: st, out: Seq::empty(), flow: Ok(FlowV::Jump(line_index(line) as usize)) }
    } else {
        fail(st, ErrorKind::InvalidJumpTarget)
    }
}

/// The effect of `FOR`: the variable gets the start value, then end and step
/// are evaluated and the loop is opened at the statement that runs.
pub open spec fn run_for(var: ExprV, start: ExprV, end: ExprV, step: ExprV, st: StateV) -> Effect {
    match var {
        ExprV::Ident(name) => match eval_int(start, st.vars) {
            Err(k) => fail(st, k),
            Ok(first) => {
                let bound = assign(st, name, first);
                match eval_int(end, bound.vars) {
                    Err(k) => fail(bound, k),
                    Ok(last) => match eval_int(step, bound.vars) {
                        Err(k) => fail(bound, k),
                        Ok(by) => pass(
                            StateV {
                                vars: bound.vars,
                                pc: bound.pc,
                                loops: bound.loops.push(
                                    LoopV {
                                        start_line: st.pc,
                                        var: lower_text(name),
                                        end_value: last,
                                        step: by,
                                    },
                                ),
                            },
                        ),
                    },
                }
            },
        },
        _ => fail(st, ErrorKind::TypeError),
    }
}

/// Whether a loop with this step goes on once its variable has reached `v`.
pub open spec fn continues(step: i64, v: i64, end: i64) -> bool {
    (step > 0 && v <= end) || (step < 0 && v >= end)
}

/// The effect of `NEXT` in a program of `len` statements. The innermost open
/// loop must be that of the variable. The variable moves by the step; then
/// the loop either goes on behind its `FOR`, or is closed.
///
/// Where the loop goes on, control is handed to the index behind the `FOR`.
/// Behind a `FOR` on the last line that index is the end of the program, and
/// the run ends there in good order. A loop whose `FOR` is no statement of
/// the program, which no run opens, has no index to go on at: that is an
/// `InvalidJumpTarget`.
pub open spec fn run_next(var: ExprV, st: StateV, len: nat) -> Effect {
    match var {
        ExprV::Ident(name) => if st.loops.len() == 0 || st.loops.last().var != lower_text(name) {
            fail(st, ErrorKind::LoopStackError)
        } else {
            let top = st.loops.last();
            match read_var(st.vars, lower_text(name)) {
                Err(k) => fail(st, k),
                Ok(v) => {
                    let moved = wrap(v + top.step);
                    let bound = assign(st, name, moved);
                    if top.step == 0 {
                        fail(bound, ErrorKind::LoopStackError)
                    } else if continues(top.step, moved, top.end_value) {
                        if top.start_line + 1 < len {
                            Effect {
                                state: bound,
                                out: Seq::empty(),
                                flow: Ok(FlowV::Jump((top.start_line + 1) as usize)),
                            }
                        } else if top.start_line + 1 == len {
                            Effect { state: bound, out: Seq::empty(), flow: Ok(FlowV::Stop) }
                        } else {
                            fail(bound, ErrorKind::InvalidJumpTarget)
                        }
                    } else {
                        pass(
                            StateV {
                                vars: bound.vars,
                                pc: bound.pc,
                                loops: bound.loops.drop_last(),
                            },
                        )
                    }
                },
            }
        },
        _ => fail(st, ErrorKind::TypeError),
    }
}

/// The effect of one statement in a program of `len` statements, run in
/// state `st`, whose `pc` is the index of the line the statement stands on.
/// The state that results has the same `pc`: where control goes is said by
/// the flow.
pub open spec fn run_instr(instr: InstrV, st: StateV, len: nat) -> Effect
    decreases instr, 0nat,
{
    match instr {
        InstrV::Print(first, rest, last) => run_print(first, rest, last, st),
        InstrV::Assign(target, value) => run_assign(target, value, st),
        InstrV::Input(prompt, target) => run_input(prompt, target, st),
        InstrV::Rem(_) => pass(st),
        InstrV::Goto(line) => run_goto(line, st, len),
        InstrV::Clear => Effect { state: st, out: seq![OpV::ClearScreen], flow: Ok(FlowV::Next) },
        InstrV::IfThen(cond, then) => match eval(cond, st.vars) {
            Err(k) => fail(st, k),
            Ok(ValueV::Bool(true)) => run_instr(*then, st, len),
            Ok(ValueV::Bool(false)) => pass(st),
            Ok(_) => fail(st, ErrorKind::TypeError),
        },
        InstrV::Multi(instrs) => run_from(instrs, 0, st, len),
        InstrV::For(var, start, end, step) => run_for(var, start, end, step, st),
        InstrV::Next(var) => run_next(var, st, len),
    }
}

/// The effect of the statements of one line from the `i`-th on, in order. The
/// first that does not hand on to its follower ends the line: a jump, a stop
/// or a failure at once, and a wait with the statements behind it kept for
/// later.
pub open spec fn run_from(instrs: Seq<InstrV>, i: nat, st: StateV, len: nat) -> Effect
    decreases instrs, instrs.len() - i,
{
    if i >= instrs.len() {
        pass(st)
    } else {
        let e = run_instr(instrs[i as int], st, len);
        match e.flow {
            Ok(FlowV::Next) => after(e.out, run_from(instrs, i + 1, e.state, len)),
            Ok(FlowV::Await(p)) => Effect {
                state: e.state,
                out: e.out,
                flow: Ok(FlowV::Await(PendingV::Then(Box::new(p), instrs.skip(i as int + 1)))),
            },
            _ => e,
        }
    }
}

/// The effect of an answer, the white space at its ends taken off, on the
/// variable that waits for it. `STOP` ends the run; anything else must write
/// an integer, which the variable then holds.
pub open spec fn take_answer(name: Seq<char>, answer: Seq<char>, st: StateV) -> Effect {
    if answer == "STOP"@ {
        fail(st, ErrorKind::UserAbort)
    } else {
        match whole_int(answer) {
            Some(v) => pass(assign(st, name, v)),
            None => fail(st, ErrorKind::TypeError),
        }
    }
}

/// The effect of a line of input on the variable that waits for it. White
/// space at either end of the line, the line end with it, is no part of the
/// answer.
pub open spec fn accept(name: Seq<char>, line: Seq<char>, st: StateV) -> Effect {
    take_answer(name, trimmed(line), st)
}

/// The effect of taking up a statement that waited, now that `line` was read.
pub open spec fn resume(p: PendingV, line: Seq<char>, st: StateV, len: nat) -> Effect
    decreases p,
{
    match p {
        PendingV::Input(name) => accept(name, line, st),
        PendingV::Then(first, rest) => {
            let e = resume(*first, line, st, len);
            match e.flow {
                Ok(FlowV::Next) => after(e.out, run_from(rest, 0, e.state, len)),
                Ok(FlowV::Await(q)) => Effect {
                    state: e.state,
                    out: e.out,
                    flow: Ok(FlowV::Await(PendingV::Then(Box::new(q), rest))),
                },
                _ => e,
            }
        },
    }
}

/// Where a run stands between two steps.
pub enum StatusV {
    /// The statement at `pc` is the next to run.
    Running,
    /// The program counter has left the program: the run is over.
    Halted,
    /// A statement waits for a line of input.
    Waiting(PendingV),
}

/// What a step of the run results in.
pub struct Outcome {
    pub state: StateV,
    pub out: Seq<OpV>,
    pub status: Result<StatusV, RunError>,
}

/// `st` with the program counter at `pc`.
pub open spec fn at(st: StateV, pc: usize) -> StateV {
    StateV { vars: st.vars, pc: pc, loops: st.loops }
}

/// Where the run stands once the program counter is settled.
pub open spec fn status_at(pc: usize, len: nat) -> StatusV {
    if pc < len {
        StatusV::Running
    } else {
        StatusV::Halted
    }
}

/// The step that the effect `e` of the statement at `e.state.pc` amounts to
/// in a program of `len` statements: without a jump the program counter moves
/// on by one, a jump sets it, a stop puts it behind the program, a wait leaves
/// it, and a failure is reported with it.
pub open spec fn settle(e: Effect, len: nat) -> Outcome {
    let pc = e.state.pc;
    match e.flow {
        Ok(FlowV::Next) => Outcome {
            state: at(e.state, (pc + 1) as usize),
            out: e.out,
            status: Ok(status_at((pc + 1) as usize, len)),
        },
        Ok(FlowV::Jump(target)) => Outcome {
            state: at(e.state, target),
            out: e.out,
            status: Ok(status_at(target, len)),
        },
        Ok(FlowV::Stop) => Outcome {
            state: at(e.state, len as usize),
            out: e.out,
            status: Ok(StatusV::Halted),
        },
        Ok(FlowV::Await(p)) => Outcome { state: e.state, out: e.out, status: Ok(StatusV::Waiting(p)) },
        Err(k) => Outcome {
            state: e.state,
            out: e.out,
            status: Err(RunError { index: pc, kind: k }),
        },
    }
}

/// One step of the run of `program` from `st`: the statement at the program
/// counter runs, unless the counter has left the program.
pub open spec fn step(program: Seq<InstrV>, st: StateV) -> Outcome {
    if st.pc < program.len() {
        settle(run_instr(program[st.pc as int], st, program.len()), program.len())
    } else {
        Outcome { state: st, out: Seq::empty(), status: Ok(StatusV::Halted) }
    }
}

/// The step that takes up the statement that waited, with the line read.
/// Behind the program no statement can have waited: that is a failure.
pub open spec fn step_resumed(p: PendingV, line: Seq<char>, st: StateV, len: nat) -> Outcome {
    if st.pc < len {
        settle(resume(p, line, st, len), len)
    } else {
        Outcome {
            state: st,
            out: Seq::empty(),
            status: Err(RunError { index: st.pc, kind: ErrorKind::InvalidJumpTarget }),
        }
    }
}

/// Whether the effect `e` of something run in `st` leaves the program counter
/// where it was and jumps, if at all, into the program.
pub open spec fn keeps_line(e: Effect, st: StateV, len: nat) -> bool {
    &&& e.state.pc == st.pc
    &&& e.flow matches Ok(FlowV::Jump(target)) ==> target < len
}

/// A statement leaves the program counter alone, and a jump that it asks for
/// leads into the program.
pub proof fn lemma_same_line(instr: InstrV, st: StateV, len: nat)
    ensures
        keeps_line(run_instr(instr, st, len), st, len),
    decreases instr, 0nat,
{
    match instr {
        InstrV::IfThen(cond, then) => {
            lemma_same_line(*then, st, len);
        },
        InstrV::Multi(instrs) => {
            lemma_same_line_from(instrs, 0, st, len);
        },
        _ => {},
    }
}

/// The statements of a line leave the program counter alone, and a jump that
/// one of them asks for leads into the program.
pub proof fn lemma_same_line_from(instrs: Seq<InstrV>, i: nat, st: StateV, len: nat)
    ensures
        keeps_line(run_from(instrs, i, st, len), st, len),
    decreases instrs, instrs.len() - i,
{
    if i < instrs.len() {
        let e = run_instr(instrs[i as int], st, len);
        lemma_same_line(instrs[i as int], st, len);
        lemma_same_line_from(instrs, i + 1, e.state, len);
    }
}

/// A statement that is taken up leaves the program counter alone, and a jump
/// that it asks for leads into the program.
pub proof fn lemma_same_line_resumed(p: PendingV, line: Seq<char>, st: StateV, len: nat)
    ensures
        keeps_line(resume(p, line, st, len), st, len),
    decreases p,
{
    match p {
        PendingV::Input(_) => {},
        PendingV::Then(first, rest) => {
            let e = resume(*first, line, st, len);
            lemma_same_line_resumed(*first, line, st, len);
            lemma_same_line_from(rest, 0, e.state, len);
        },
    }
}

/// How a run ends.
pub enum EndV {
    /// The program counter left the program.
    Finished,
    /// A statement failed.
    Failed(RunError),
    /// The steps allowed were used up before the program ended.
    Unfinished,
}

/// What a run amounts to: the console requests made, in order, and how it
/// ended.
pub struct RunV {
    pub out: Seq<OpV>,
    pub end: EndV,
}

/// The status that the step `o` leaves, a failed one counting as halted.
pub open spec fn status_after(o: Outcome) -> StatusV {
    match o.status {
        Ok(status) => status,
        Err(_) => StatusV::Halted,
    }
}

/// The run that begins with the step `o` and, unless that failed, goes on as
/// `more`.
pub open spec fn follow(o: Outcome, more: RunV) -> RunV {
    match o.status {
        Err(e) => RunV { out: o.out, end: EndV::Failed(e) },
        Ok(_) => RunV { out: o.out + more.out, end: more.end },
    }
}

/// The run of `program` from `st` and `status`, with at most `steps` more
/// steps. A statement that waits is answered with the next of the lines
/// `input`, of which `used` are spent; where none is left, the console cannot
/// be read, and the run fails.
pub open spec fn run(
    program: Seq<InstrV>,
    st: StateV,
    status: StatusV,
    input: Seq<Seq<char>>,
    used: nat,
    steps: nat,
) -> RunV
    decreases steps,
{
    match status {
        StatusV::Halted => RunV { out: Seq::empty(), end: EndV::Finished },
        StatusV::Running => if steps == 0 {
            RunV { out: Seq::empty(), end: EndV::Unfinished }
        } else {
            let o = step(program, st);
            follow(o, run(program, o.state, status_after(o), input, used, (steps - 1) as nat))
        },
        StatusV::Waiting(p) => if steps == 0 {
            RunV { out: Seq::empty(), end: EndV::Unfinished }
        } else if used < input.len() {
            let o = step_resumed(p, input[used as int], st, program.len());
            follow(o, run(program, o.state, status_after(o), input, used + 1, (steps - 1) as nat))
        } else {
            RunV {
                out: Seq::empty(),
                end: EndV::Failed(RunError { index: st.pc, kind: ErrorKind::IOError }),
            }
        },
    }
}

} // verus!
