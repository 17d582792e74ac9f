//! What holds of every run, proved from the meaning of the statements.

use crate::exec::console::{console_text, OpV};
use crate::exec::error::{ErrorKind, RunError};
use crate::exec::semantics::{
    eval, eval_int, resume, run_from, run_instr, step, step_resumed, Effect, FlowV, StatusV,
};
use crate::exec::state::StateV;
use crate::exec::value::{rendered, ValueV};
use crate::parser::expr::ExprV;
use crate::parser::instr::{InstrV, STOP_LINE};
use crate::text::{lemma_trimmed, lower_text, white};
use vstd::prelude::*;

verus! {

/// A `PRINT` of two values with a comma between them shows the first, one
/// space, the second, and ends the line, whatever kinds the values are of.
pub proof fn print_comma_is_one_space(a: ExprV, b: ExprV, st: StateV, len: nat)
    requires
        eval(a, st.vars) is Ok,
        eval(b, st.vars) is Ok,
    ensures
        console_text(run_instr(InstrV::Print(Some(a), seq![(',', b)], None), st, len).out)
            == rendered(eval(a, st.vars)->Ok_0) + seq![' '] + rendered(eval(b, st.vars)->Ok_0)
            + seq!['\n'],
        run_instr(InstrV::Print(Some(a), seq![(',', b)], None), st, len).flow == Ok::<
            FlowV,
            ErrorKind,
        >(FlowV::Next),
{
    let items = seq![(',', b)];
    let va = rendered(eval(a, st.vars)->Ok_0);
    let vb = rendered(eval(b, st.vars)->Ok_0);
    let out = run_instr(InstrV::Print(Some(a), items, None), st, len).out;
    reveal_strlit(" ");
    assert(" "@ =~= seq![' ']);
    assert(items.skip(1) =~= Seq::<(char, ExprV)>::empty());
    reveal_with_fuel(crate::exec::semantics::print_items, 2);
    let expected = seq![
        OpV::Write(va),
        OpV::Write(seq![' ']),
        OpV::Write(vb),
        OpV::WriteLine(Seq::empty()),
    ];
    assert(out =~= expected);
    reveal_with_fuel(console_text, 5);
    assert(expected.drop_last() =~= seq![OpV::Write(va), OpV::Write(seq![' ']), OpV::Write(vb)]);
    assert(expected.drop_last().drop_last() =~= seq![OpV::Write(va), OpV::Write(seq![' '])]);
    assert(expected.drop_last().drop_last().drop_last() =~= seq![OpV::Write(va)]);
    assert(expected.drop_last().drop_last().drop_last().drop_last() =~= Seq::<OpV>::empty());
    assert(console_text(expected) =~= va + seq![' '] + vb + seq!['\n']);
}

/// `NEXT` fails with `LoopStackError`, and changes nothing, where no loop is
/// open or the innermost open loop is that of another variable.
pub proof fn next_needs_its_for(name: Seq<char>, st: StateV, len: nat)
    requires
        st.loops.len() == 0 || st.loops.last().var != lower_text(name),
    ensures
        run_instr(InstrV::Next(ExprV::Ident(name)), st, len) == (Effect {
            state: st,
            out: Seq::empty(),
            flow: Err(ErrorKind::LoopStackError),
        }),
{
}

/// A jump to a line whose index lies outside the program fails with
/// `InvalidJumpTarget`, and the run ends there with that failure. The one
/// line number left out is that of `STOP`, which ends the run in good order.
pub proof fn jump_outside_fails(line: u64, program: Seq<InstrV>, st: StateV)
    requires
        line != STOP_LINE,
        !(0 <= line / 10 - 1 < program.len()),
    ensures
        run_instr(InstrV::Goto(line), st, program.len()).flow == Err::<FlowV, ErrorKind>(
            ErrorKind::InvalidJumpTarget,
        ),
        st.pc < program.len() && program[st.pc as int] == InstrV::Goto(line) ==> step(
            program,
            st,
        ).status == Err::<StatusV, RunError>(
            RunError { index: st.pc, kind: ErrorKind::InvalidJumpTarget },
        ),
{
}

/// No step of a run leaves the program counter anywhere but in the program
/// or directly behind it, unless it fails.
pub proof fn steps_stay_in_program(program: Seq<InstrV>, st: StateV)
    requires
        st.pc <= program.len(),
        program.len() <= usize::MAX,
    ensures
        step(program, st).status is Ok ==> step(program, st).state.pc <= program.len(),
{
    if st.pc < program.len() {
        crate::exec::semantics::lemma_same_line(program[st.pc as int], st, program.len());
    }
}

/// What is assigned under one spelling of a name is read under any other
/// spelling with the same lower-case form.
pub proof fn names_ignore_case(written: Seq<char>, read: Seq<char>, value: ExprV, st: StateV, len: nat)
    requires
        lower_text(written) == lower_text(read),
        eval_int(value, st.vars) is Ok,
    ensures
        ({
            let after = run_instr(
                InstrV::Assign(ExprV::Ident(written), value),
                st,
                len,
            ).state;
            eval(ExprV::Ident(read), after.vars) == Ok::<ValueV, ErrorKind>(
                ValueV::Int(eval_int(value, st.vars)->Ok_0),
            )
        }),
{
}

/// An `INPUT` that is answered with `STOP`, with or without white space
/// before and behind it, ends the run with `UserAbort`, with or without a
/// prompt.
pub proof fn stop_aborts(
    prompt: Option<ExprV>,
    name: Seq<char>,
    before: Seq<char>,
    behind: Seq<char>,
    st: StateV,
    len: nat,
)
    requires
        white(before),
        white(behind),
        run_instr(InstrV::Input(prompt, ExprV::Ident(name)), st, len).flow is Ok,
    ensures
        ({
            let line = before + "STOP"@ + behind;
            run_instr(InstrV::Input(prompt, ExprV::Ident(name)), st, len).flow matches Ok(
                FlowV::Await(p),
            ) && resume(p, line, st, len).flow == Err::<FlowV, ErrorKind>(ErrorKind::UserAbort)
                && (st.pc < len ==> step_resumed(p, line, st, len).status == Err::<
                StatusV,
                RunError,
            >(RunError { index: st.pc, kind: ErrorKind::UserAbort }))
        }),
{
    reveal_strlit("STOP");
    lemma_trimmed(before, "STOP"@, behind);
}

/// Once a statement of a line has jumped, or stopped the program, the line
/// is over: whatever stands behind on the same line has no effect.
pub proof fn jump_ends_line(line: Seq<InstrV>, behind: Seq<InstrV>, st: StateV, len: nat)
    requires
        run_from(line, 0, st, len).flow matches Ok(flow) && (flow is Jump || flow is Stop),
    ensures
        run_from(line + behind, 0, st, len) == run_from(line, 0, st, len),
        run_instr(InstrV::Multi(line + behind), st, len) == run_instr(InstrV::Multi(line), st, len),
{
    lemma_jump_ends_line(line, behind, 0, st, len);
}

/// [`jump_ends_line`], from the `i`-th statement of the line on.
proof fn lemma_jump_ends_line(line: Seq<InstrV>, behind: Seq<InstrV>, i: nat, st: StateV, len: nat)
    requires
        run_from(line, i, st, len).flow matches Ok(flow) && (flow is Jump || flow is Stop),
    ensures
        run_from(line + behind, i, st, len) == run_from(line, i, st, len),
    decreases line.len() - i,
{
    if i < line.len() {
        assert((line + behind)[i as int] == line[i as int]);
        let e = run_instr(line[i as int], st, len);
        if e.flow == Ok::<FlowV, ErrorKind>(FlowV::Next) {
            lemma_jump_ends_line(line, behind, i + 1, e.state, len);
        }
    }
}

} // verus!
