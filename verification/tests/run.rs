use basic_interp::exec::console::terminal_text;
use basic_interp::exec::{
    answer, execute, step, take_answer, ConsoleOp, End, ErrorKind, Flow, LoopState, Pending,
    RunError, State, Status, Value, Variables,
};
use basic_interp::parser::parse_tools::ident;
use basic_interp::parser::{parse_file, Expr, Instr, LowerCase};

fn run(source: &str, input: &[&str]) -> (String, End) {
    let program = parse_file(source, false).unwrap();
    let lines: Vec<String> = input.iter().map(|l| l.to_string()).collect();
    let run = execute(&program, &lines, 10_000);
    (terminal_text(&run.out), run.end)
}

fn failed(index: usize, kind: ErrorKind) -> End {
    End::Failed(RunError { index, kind })
}

fn eval_int(text: &str) -> Result<i64, ErrorKind> {
    let (rest, expr) = Expr::parse(text).unwrap();
    assert_eq!(rest, "");
    expr.eval_to_int(&State::default())
}

#[test]
fn arithmetic_by_precedence() {
    assert_eq!(eval_int("1 + 2 * 3"), Ok(7));
    assert_eq!(eval_int("(1 + 2) * 3"), Ok(9));
    assert_eq!(eval_int("10 - 4 - 3"), Ok(3));
    assert_eq!(eval_int("2 * 3 + 4 * 5 - 6 / 2"), Ok(23));
    assert_eq!(eval_int("100 / 10 / 5"), Ok(2));
}

#[test]
fn division_rounds_towards_zero() {
    assert_eq!(eval_int("7 / 2"), Ok(3));
    assert_eq!(eval_int("-7 / 2"), Ok(-3));
    assert_eq!(eval_int("7 / -2"), Ok(-3));
    assert_eq!(eval_int("-7 / -2"), Ok(3));
}

#[test]
fn arithmetic_wraps() {
    assert_eq!(eval_int("9223372036854775807 + 1"), Ok(i64::MIN));
    assert_eq!(eval_int("-9223372036854775808 - 1"), Ok(i64::MAX));
    assert_eq!(eval_int("9223372036854775807 * 2"), Ok(-2));
    assert_eq!(eval_int("-9223372036854775808 / -1"), Ok(i64::MIN));
}

#[test]
fn division_by_zero() {
    assert_eq!(eval_int("1 / 0"), Err(ErrorKind::DivisionByZero));
    assert_eq!(eval_int("1 / (2 - 2)"), Err(ErrorKind::DivisionByZero));
    let (_, end) = run("PRINT 1 / 0", &[]);
    assert_eq!(end, failed(0, ErrorKind::DivisionByZero));
}

#[test]
fn kinds_of_values() {
    let state = State::default();
    assert_eq!(Expr::Int(3).eval(&state), Ok(Value::Int(3)));
    assert_eq!(Expr::String("hi").eval(&state), Ok(Value::String("hi")));
    assert_eq!(
        Expr::parse("1 < 2").unwrap().1.eval(&state),
        Ok(Value::Bool(true))
    );
    assert_eq!(
        Expr::parse("1 >= 2").unwrap().1.eval(&state),
        Ok(Value::Bool(false))
    );
    assert_eq!(
        Expr::parse("2 <> 2").unwrap().1.eval(&state),
        Ok(Value::Bool(false))
    );
    assert_eq!(
        Expr::parse("2 = 2").unwrap().1.eval(&state),
        Ok(Value::Bool(true))
    );
    assert_eq!(
        Expr::parse("3 > 2").unwrap().1.eval(&state),
        Ok(Value::Bool(true))
    );
    assert_eq!(
        Expr::parse("3 <= 2").unwrap().1.eval(&state),
        Ok(Value::Bool(false))
    );
    assert_eq!(
        Expr::parse("1 + 1").unwrap().1.eval(&state),
        Ok(Value::Int(2))
    );
}

#[test]
fn type_errors_in_expressions() {
    assert_eq!(eval_int("\"a\""), Err(ErrorKind::TypeError));
    assert_eq!(eval_int("1 < 2"), Err(ErrorKind::TypeError));
    assert_eq!(eval_int("1 + (2 < 3)"), Err(ErrorKind::TypeError));
    assert_eq!(eval_int("\"a\" + 1"), Err(ErrorKind::TypeError));
}

#[test]
fn left_failure_comes_first() {
    assert_eq!(eval_int("x + 1 / 0"), Err(ErrorKind::NameError));
    assert_eq!(eval_int("1 / 0 + x"), Err(ErrorKind::DivisionByZero));
}

#[test]
fn values_as_text() {
    assert_eq!(Value::Int(-42).text(), "-42");
    assert_eq!(Value::Int(0).text(), "0");
    assert_eq!(Value::Int(i64::MIN).text(), "-9223372036854775808");
    assert_eq!(Value::Bool(true).text(), "true");
    assert_eq!(Value::Bool(false).text(), "false");
    assert_eq!(Value::Char('q').text(), "q");
    assert_eq!(Value::String("as is").text(), "as is");
}

#[test]
fn values_from_plain_values() {
    assert_eq!(Value::from(7i64), Value::Int(7));
    assert_eq!(Value::from(true), Value::Bool(true));
    assert_eq!(Value::from('c'), Value::Char('c'));
    assert_eq!(Value::from("s"), Value::String("s"));
}

#[test]
fn variables_keep_the_last_value() {
    let mut vars = Variables::new();
    assert_eq!(vars.read(&LowerCase("a")), None);
    vars.assign(&LowerCase("a"), 1);
    vars.assign(&LowerCase("b"), 2);
    vars.assign(&LowerCase("a"), 3);
    assert_eq!(vars.read(&LowerCase("a")), Some(3));
    assert_eq!(vars.read(&LowerCase("b")), Some(2));
    assert_eq!(vars.read(&LowerCase("c")), None);
}

#[test]
fn get_var_folds_case() {
    let mut state = State::default();
    assert_eq!(state.get_var(&LowerCase("x")), Err(ErrorKind::NameError));
    state.vars.assign(&LowerCase("x"), 5);
    assert_eq!(state.get_var(&LowerCase("x")), Ok(5));
    assert_eq!(state.get_var(&LowerCase("X")), Ok(5));
}

#[test]
fn print_with_comma() {
    assert_eq!(run("PRINT 1, \"world!\"", &[]).0, "1 world!\n");
    assert_eq!(run("PRINT \"Hello,\", \"world!\"", &[]).0, "Hello, world!\n");
    let program = parse_file("PRINT 1, \"world!\"", false).unwrap();
    let run = execute(&program, &vec![], 10);
    assert_eq!(
        run.out,
        vec![
            ConsoleOp::Write("1".to_string()),
            ConsoleOp::Write(" ".to_string()),
            ConsoleOp::Write("world!".to_string()),
            ConsoleOp::WriteLine("".to_string()),
        ]
    );
    assert_eq!(run.end, End::Finished);
}

#[test]
fn print_with_semicolon_and_trailing_separators() {
    assert_eq!(run("PRINT 1;2", &[]).0, "12\n");
    assert_eq!(run("PRINT 1;\nPRINT 2", &[]).0, "12\n");
    assert_eq!(run("PRINT 1,\nPRINT 2", &[]).0, "1 2\n");
    assert_eq!(run("PRINT", &[]).0, "\n");
    assert_eq!(run("PRINT 1 < 2", &[]).0, "true\n");
}

#[test]
fn print_shows_what_came_before_a_failure() {
    let (text, end) = run("PRINT 1, x", &[]);
    assert_eq!(text, "1 ");
    assert_eq!(end, failed(0, ErrorKind::NameError));
}

#[test]
fn print_rejects_a_made_up_separator() {
    let program = vec![Instr::Print(
        Some(Expr::Int(1)),
        vec![('+', Expr::Int(2))],
        None,
    )];
    let run = execute(&program, &vec![], 10);
    assert_eq!(terminal_text(&run.out), "1");
    assert_eq!(run.end, failed(0, ErrorKind::TypeError));
    let program = vec![Instr::Print(Some(Expr::Int(1)), vec![], Some('+'))];
    let run = execute(&program, &vec![], 10);
    assert_eq!(run.end, failed(0, ErrorKind::TypeError));
}

#[test]
fn clear_screen() {
    let program = parse_file("CLS", false).unwrap();
    let run = execute(&program, &vec![], 10);
    assert_eq!(run.out, vec![ConsoleOp::ClearScreen]);
    assert_eq!(terminal_text(&run.out), "\x1B[2J\x1B[1;1H");
}

#[test]
fn for_loop_counts_up() {
    let (text, end) = run("FOR i = 1 TO 10\nPRINT i\nNEXT i\nPRINT \"done\"", &[]);
    assert_eq!(text, "1\n2\n3\n4\n5\n6\n7\n8\n9\n10\ndone\n");
    assert_eq!(end, End::Finished);
}

#[test]
fn for_loop_counts_down() {
    let (text, end) = run("FOR i = 10 TO 1 STEP -2\nPRINT i\nNEXT i", &[]);
    assert_eq!(text, "10\n8\n6\n4\n2\n");
    assert_eq!(end, End::Finished);
}

#[test]
fn for_loop_with_step() {
    assert_eq!(
        run("FOR i = 1 TO 10 STEP 4\nPRINT i;\nNEXT i", &[]).0,
        "159"
    );
}

#[test]
fn nested_loops_close_in_order() {
    let source = "FOR i = 1 TO 2\nFOR j = 1 TO 2\nPRINT i; j\nNEXT j\nNEXT i";
    let (text, end) = run(source, &[]);
    assert_eq!(text, "11\n12\n21\n22\n");
    assert_eq!(end, End::Finished);
}

#[test]
fn finished_loop_is_closed() {
    let (text, end) = run("FOR i = 1 TO 1\nNEXT i\nNEXT i", &[]);
    assert_eq!(text, "");
    assert_eq!(end, failed(2, ErrorKind::LoopStackError));
}

#[test]
fn next_without_for() {
    assert_eq!(
        run("NEXT x", &[]).1,
        failed(0, ErrorKind::LoopStackError)
    );
    assert_eq!(
        run("FOR i = 1 TO 3\nNEXT j", &[]).1,
        failed(1, ErrorKind::LoopStackError)
    );
}

#[test]
fn next_matches_in_any_case() {
    assert_eq!(run("FOR I = 1 TO 2\nPRINT i\nNEXT i", &[]).0, "1\n2\n");
}

#[test]
fn zero_step_fails_at_next() {
    assert_eq!(
        run("FOR i = 1 TO 3 STEP 0\nPRINT i\nNEXT i", &[]),
        ("1\n".to_string(), failed(2, ErrorKind::LoopStackError))
    );
}

#[test]
fn for_needs_numbers() {
    assert_eq!(
        run("FOR i = \"a\" TO 3", &[]).1,
        failed(0, ErrorKind::TypeError)
    );
    assert_eq!(
        run("FOR i = 1 TO x", &[]).1,
        failed(0, ErrorKind::NameError)
    );
}

#[test]
fn for_end_sees_the_start_value() {
    assert_eq!(
        run("FOR i = 2 TO i + 1\nPRINT i\nNEXT i", &[]).0,
        "2\n3\n"
    );
}

#[test]
fn goto_jumps_by_tens() {
    let source = "GO TO 30\nPRINT 1\nPRINT 2";
    assert_eq!(run(source, &[]), ("2\n".to_string(), End::Finished));
    let source = "GO TO 35\nPRINT 1\nPRINT 2";
    assert_eq!(run(source, &[]), ("2\n".to_string(), End::Finished));
}

#[test]
fn goto_outside_the_program() {
    assert_eq!(
        run("GO TO 20", &[]).1,
        failed(0, ErrorKind::InvalidJumpTarget)
    );
    assert_eq!(
        run("GO TO 0", &[]).1,
        failed(0, ErrorKind::InvalidJumpTarget)
    );
    assert_eq!(
        run("GO TO 9", &[]).1,
        failed(0, ErrorKind::InvalidJumpTarget)
    );
    assert_eq!(
        run("PRINT 1\nGO TO 18446744073709551615", &[]),
        ("1\n".to_string(), failed(1, ErrorKind::InvalidJumpTarget))
    );
}

#[test]
fn stop_ends_the_run() {
    assert_eq!(
        run("PRINT 1\nSTOP\nPRINT 2", &[]),
        ("1\n".to_string(), End::Finished)
    );
}

#[test]
fn endless_loop_runs_out_of_steps() {
    let program = parse_file("PRINT 1;\nGO TO 10", false).unwrap();
    let run = execute(&program, &vec![], 6);
    assert_eq!(terminal_text(&run.out), "111");
    assert_eq!(run.end, End::Unfinished);
}

#[test]
fn no_steps_at_all() {
    let program = parse_file("PRINT 1", false).unwrap();
    let run = execute(&program, &vec![], 0);
    assert_eq!(run.out, vec![]);
    assert_eq!(run.end, End::Unfinished);
    let run = execute(&vec![], &vec![], 0);
    assert_eq!(run.end, End::Finished);
}

#[test]
fn assignment_is_case_insensitive() {
    assert_eq!(run("LET X = 1\nPRINT x", &[]).0, "1\n");
    assert_eq!(run("LET abc = 1\nLET ABC = abc + 1\nPRINT Abc", &[]).0, "2\n");
}

#[test]
fn assignment_needs_a_number() {
    assert_eq!(run("LET x = 1 < 2", &[]).1, failed(0, ErrorKind::TypeError));
    assert_eq!(
        run("LET x = \"a\"", &[]).1,
        failed(0, ErrorKind::TypeError)
    );
    let program = vec![Instr::Assign(Expr::Int(1), Expr::Int(2))];
    assert_eq!(
        execute(&program, &vec![], 10).end,
        failed(0, ErrorKind::TypeError)
    );
}

#[test]
fn name_error() {
    assert_eq!(run("PRINT y", &[]).1, failed(0, ErrorKind::NameError));
}

#[test]
fn if_then() {
    assert_eq!(run("IF 1 < 2 THEN PRINT 1", &[]).0, "1\n");
    assert_eq!(run("IF 1 > 2 THEN PRINT 1\nPRINT 2", &[]).0, "2\n");
    assert_eq!(
        run("IF 1 THEN PRINT 1", &[]).1,
        failed(0, ErrorKind::TypeError)
    );
    assert_eq!(
        run("IF \"a\" THEN PRINT 1", &[]).1,
        failed(0, ErrorKind::TypeError)
    );
    assert_eq!(
        run("IF 1 < 2 THEN GO TO 30\nPRINT 1\nPRINT 2", &[]).0,
        "2\n"
    );
}

#[test]
fn jump_ends_the_line() {
    let source = "PRINT 1 : GO TO 30 : PRINT 2\nPRINT 3\nPRINT 4";
    assert_eq!(run(source, &[]), ("1\n4\n".to_string(), End::Finished));
    let source = "PRINT 1 : STOP : PRINT 2\nPRINT 3";
    assert_eq!(run(source, &[]), ("1\n".to_string(), End::Finished));
    let source = "PRINT 1 : IF 1 = 1 THEN GO TO 20 : PRINT 2\nPRINT 3";
    assert_eq!(run(source, &[]), ("1\n3\n".to_string(), End::Finished));
}

#[test]
fn line_without_a_jump_runs_through() {
    assert_eq!(
        run("PRINT 1 : PRINT 2 : PRINT 3", &[]),
        ("1\n2\n3\n".to_string(), End::Finished)
    );
}

#[test]
fn loop_on_one_line_after_for() {
    let source = "FOR i = 1 TO 3\nPRINT i; : NEXT i : PRINT \"never\"\nPRINT \"end\"";
    assert_eq!(run(source, &[]).0, "123never\nend\n");
}

#[test]
fn input_reads_a_number() {
    assert_eq!(
        run("INPUT x\nPRINT x + 1", &["41\n"]),
        ("42\n".to_string(), End::Finished)
    );
    assert_eq!(
        run("INPUT x\nPRINT x", &["-7  \r\n"]),
        ("-7\n".to_string(), End::Finished)
    );
    assert_eq!(
        run("INPUT x\nPRINT x", &["+7"]),
        ("7\n".to_string(), End::Finished)
    );
}

#[test]
fn input_shows_its_prompt() {
    assert_eq!(
        run("INPUT \"Age?\", a\nPRINT a", &["5\n"]),
        ("Age?\n5\n".to_string(), End::Finished)
    );
    assert_eq!(
        run("LET n = 3\nINPUT n * 2, a\nPRINT a", &["5\n"]).0,
        "6\n5\n"
    );
}

#[test]
fn input_stop_aborts() {
    assert_eq!(
        run("INPUT x\nPRINT x", &["STOP\n"]),
        ("".to_string(), failed(0, ErrorKind::UserAbort))
    );
    assert_eq!(
        run("PRINT 1\nINPUT \"?\", x\nPRINT x", &["STOP  \n"]),
        ("1\n?\n".to_string(), failed(1, ErrorKind::UserAbort))
    );
}

#[test]
fn input_rejects_what_is_no_number() {
    assert_eq!(run("INPUT x", &["abc\n"]).1, failed(0, ErrorKind::TypeError));
    assert_eq!(run("INPUT x", &["\n"]).1, failed(0, ErrorKind::TypeError));
    assert_eq!(run("INPUT x", &["12a\n"]).1, failed(0, ErrorKind::TypeError));
    assert_eq!(run("INPUT x", &["1 2\n"]).1, failed(0, ErrorKind::TypeError));
    assert_eq!(run("INPUT x", &["stop\n"]).1, failed(0, ErrorKind::TypeError));
    assert_eq!(
        run("INPUT x", &["9223372036854775808\n"]).1,
        failed(0, ErrorKind::TypeError)
    );
}

#[test]
fn input_without_a_line_is_an_io_error() {
    assert_eq!(
        run("PRINT 1\nINPUT x", &[]),
        ("1\n".to_string(), failed(1, ErrorKind::IOError))
    );
}

#[test]
fn input_needs_an_identifier() {
    assert_eq!(
        run("INPUT x, 42", &["1\n"]).1,
        failed(0, ErrorKind::TypeError)
    );
    assert_eq!(
        run("INPUT y, x", &["1\n"]).1,
        failed(0, ErrorKind::NameError)
    );
}

#[test]
fn input_in_the_middle_of_a_line() {
    let source = "PRINT \"a\"; : INPUT x : PRINT x : INPUT y : PRINT x + y";
    assert_eq!(
        run(source, &["1\n", "2\n"]),
        ("a1\n3\n".to_string(), End::Finished)
    );
    let source = "IF 1 = 1 THEN INPUT x : PRINT x * 2";
    assert_eq!(run(source, &["4\n"]).0, "8\n");
}

#[test]
fn steps_one_by_one() {
    let program = parse_file("INPUT \"n\", n : PRINT n\nGO TO 10", false).unwrap();
    let mut state = State::default();
    let mut out = Vec::new();
    let status = step(&program, &mut state, &mut out).unwrap();
    assert_eq!(out, vec![ConsoleOp::WriteLine("n".to_string())]);
    assert_eq!(state.pc, 0);
    let pending = match status {
        Status::Waiting(p) => p,
        _ => panic!("the statement should wait"),
    };
    let status = answer(pending, "7\n", &mut state, program.len(), &mut out).unwrap();
    assert!(matches!(status, Status::Running));
    assert_eq!(state.pc, 1);
    assert_eq!(state.get_var(&LowerCase("N")), Ok(7));
    assert_eq!(terminal_text(&out), "n\n7\n");
    let status = step(&program, &mut state, &mut out).unwrap();
    assert!(matches!(status, Status::Running));
    assert_eq!(state.pc, 0);
}

#[test]
fn step_behind_the_program_halts() {
    let program = parse_file("PRINT 1", false).unwrap();
    let mut state = State::default();
    let mut out = Vec::new();
    assert!(matches!(
        step(&program, &mut state, &mut out),
        Ok(Status::Halted)
    ));
    assert_eq!(state.pc, 1);
    assert!(matches!(
        step(&program, &mut state, &mut out),
        Ok(Status::Halted)
    ));
    assert_eq!(state.pc, 1);
    assert_eq!(terminal_text(&out), "1\n");
}

#[test]
fn execute_one_statement() {
    let mut state = State::default();
    let mut out = Vec::new();
    let assign = Instr::Assign(ident("a"), Expr::Int(4));
    assert!(matches!(
        assign.execute(&mut state, 1, &mut out),
        Ok(Flow::Next)
    ));
    assert!(matches!(
        Instr::Goto(30).execute(&mut state, 3, &mut out),
        Ok(Flow::Jump(2))
    ));
    assert!(matches!(
        Instr::Goto(30).execute(&mut state, 2, &mut out),
        Err(ErrorKind::InvalidJumpTarget)
    ));
    assert!(matches!(
        Instr::Goto(99999999999).execute(&mut state, 2, &mut out),
        Ok(Flow::Stop)
    ));
    assert!(matches!(
        Instr::Rem("x").execute(&mut state, 2, &mut out),
        Ok(Flow::Next)
    ));
    let input = Instr::Input(None, ident("b"));
    let waiting = input.execute(&mut state, 1, &mut out).unwrap();
    match waiting {
        Flow::Await(p) => {
            assert!(matches!(
                p.resume("STOP", &mut state, 1, &mut out),
                Err(ErrorKind::UserAbort)
            ));
        }
        _ => panic!("the statement should wait"),
    }
    assert_eq!(state.pc, 0);
    assert_eq!(out, vec![]);
}

#[test]
fn for_records_its_line() {
    let program = parse_file("CLS\nFOR i = 3 TO 9 STEP 2", false).unwrap();
    let mut state = State::default();
    let mut out = Vec::new();
    step(&program, &mut state, &mut out).unwrap();
    step(&program, &mut state, &mut out).unwrap();
    assert_eq!(state.loop_stack.len(), 1);
    let frame: &LoopState = &state.loop_stack[0];
    assert_eq!(frame.start_line, 1);
    assert_eq!(frame.var_name, LowerCase("I"));
    assert_eq!(frame.end_value, 9);
    assert_eq!(frame.step, 2);
    assert_eq!(state.get_var(&LowerCase("i")), Ok(3));
}

#[test]
fn next_with_a_frame_behind_the_program() {
    let mut state = State::default();
    state.vars.assign(&LowerCase("i"), 0);
    state.loop_stack.push(LoopState {
        start_line: 5,
        var_name: LowerCase("i"),
        end_value: 10,
        step: 1,
    });
    let mut out = Vec::new();
    let next = Instr::Next(ident("i"));
    assert!(matches!(
        next.execute(&mut state, 5, &mut out),
        Err(ErrorKind::InvalidJumpTarget)
    ));
    assert!(matches!(
        next.execute(&mut state, 6, &mut out),
        Ok(Flow::Stop)
    ));
    assert!(matches!(
        next.execute(&mut state, 7, &mut out),
        Ok(Flow::Jump(6))
    ));
    assert_eq!(state.get_var(&LowerCase("i")), Ok(3));
}

#[test]
fn next_on_an_unset_variable() {
    let mut state = State::default();
    state.loop_stack.push(LoopState {
        start_line: 0,
        var_name: LowerCase("i"),
        end_value: 10,
        step: 1,
    });
    let mut out = Vec::new();
    assert!(matches!(
        Instr::Next(ident("i")).execute(&mut state, 2, &mut out),
        Err(ErrorKind::NameError)
    ));
    assert!(matches!(
        Instr::Next(Expr::Int(1)).execute(&mut state, 2, &mut out),
        Err(ErrorKind::TypeError)
    ));
    assert!(matches!(
        Instr::For(Expr::Int(1), Expr::Int(1), Expr::Int(1), Expr::Int(1))
            .execute(&mut state, 2, &mut out),
        Err(ErrorKind::TypeError)
    ));
}

#[test]
fn pending_that_points_behind_its_line() {
    let line = vec![Instr::Print(Some(Expr::Int(1)), vec![], None)];
    let mut state = State::default();
    let mut out = Vec::new();
    let pending = Pending::Then(Box::new(Pending::Input(LowerCase("x"))), &line, 5);
    assert!(matches!(
        pending.resume("3", &mut state, 1, &mut out),
        Ok(Flow::Next)
    ));
    assert_eq!(out, vec![]);
    let pending = Pending::Then(Box::new(Pending::Input(LowerCase("x"))), &line, 0);
    assert!(matches!(
        pending.resume("3", &mut state, 1, &mut out),
        Ok(Flow::Next)
    ));
    assert_eq!(terminal_text(&out), "1\n");
}

#[test]
fn input_is_trimmed_at_both_ends() {
    assert_eq!(run("INPUT x\nPRINT x", &["5\u{a0}\t \n"]).0, "5\n");
    assert_eq!(run("INPUT x\nPRINT x", &[" 12\n"]).0, "12\n");
    assert_eq!(run("INPUT x\nPRINT x", &["\t\u{3000} -4 \r\n"]).0, "-4\n");
    assert_eq!(run("INPUT x", &["STOP\u{2003}"]).1, failed(0, ErrorKind::UserAbort));
    assert_eq!(run("INPUT x", &[" STOP"]).1, failed(0, ErrorKind::UserAbort));
    assert_eq!(run("INPUT x", &["  STOP  \n"]).1, failed(0, ErrorKind::UserAbort));
    assert_eq!(
        run("INPUT \"?\", x", &["  STOP  \n"]),
        ("?\n".to_string(), failed(0, ErrorKind::UserAbort))
    );
    assert_eq!(run("INPUT x", &["ST OP"]).1, failed(0, ErrorKind::TypeError));
    assert_eq!(run("INPUT x", &["   \n"]).1, failed(0, ErrorKind::TypeError));
}

#[test]
fn white_space_is_what_unicode_says() {
    let white = |c: char| {
        ('\u{9}'..='\u{d}').contains(&c)
            || c == ' '
            || c == '\u{85}'
            || c == '\u{a0}'
            || c == '\u{1680}'
            || ('\u{2000}'..='\u{200a}').contains(&c)
            || c == '\u{2028}'
            || c == '\u{2029}'
            || c == '\u{202f}'
            || c == '\u{205f}'
            || c == '\u{3000}'
    };
    let mut state = State::default();
    let mut out = Vec::new();
    let mut count = 0;
    for code in 0..=0x10ffffu32 {
        let c = match char::from_u32(code) {
            Some(c) => c,
            None => continue,
        };
        let line = format!("{}7{}", c, c);
        let read = Pending::Input(LowerCase("x")).resume(&line, &mut state, 1, &mut out);
        if white(c) {
            count += 1;
            assert!(matches!(read, Ok(Flow::Next)), "U+{:04X}", code);
        } else if c == '+' || c == '-' {
            assert!(matches!(read, Err(ErrorKind::TypeError)), "U+{:04X}", code);
        } else if c.is_ascii_digit() {
            assert!(matches!(read, Ok(Flow::Next)), "U+{:04X}", code);
        } else {
            assert!(matches!(read, Err(ErrorKind::TypeError)), "U+{:04X}", code);
        }
    }
    assert_eq!(count, 25);
}

#[test]
fn answers_without_their_line_end() {
    let mut state = State::default();
    assert_eq!(take_answer(&LowerCase("N"), "41", &mut state), Ok(()));
    assert_eq!(state.get_var(&LowerCase("n")), Ok(41));
    assert_eq!(take_answer(&LowerCase("n"), "-3", &mut state), Ok(()));
    assert_eq!(state.get_var(&LowerCase("n")), Ok(-3));
    assert_eq!(
        take_answer(&LowerCase("n"), "STOP", &mut state),
        Err(ErrorKind::UserAbort)
    );
    assert_eq!(
        take_answer(&LowerCase("n"), "41\n", &mut state),
        Err(ErrorKind::TypeError)
    );
    assert_eq!(
        take_answer(&LowerCase("n"), "STOP ", &mut state),
        Err(ErrorKind::TypeError)
    );
    assert_eq!(
        take_answer(&LowerCase("n"), "", &mut state),
        Err(ErrorKind::TypeError)
    );
    assert_eq!(state.get_var(&LowerCase("n")), Ok(-3));
}

#[test]
fn variables_by_identifier() {
    let mut vars = Variables::new();
    assert_eq!(vars.read(&LowerCase("Total")), None);
    vars.assign(&LowerCase("Total"), 7);
    assert_eq!(vars.read(&LowerCase("tOTAL")), Some(7));
    vars.assign(&LowerCase("TOTAL"), 8);
    assert_eq!(vars.read(&LowerCase("total")), Some(8));
    assert_eq!(vars.read(&LowerCase("Total")), Some(8));
    assert_eq!(vars.read(&LowerCase("totals")), None);
}

#[test]
fn loop_behind_the_last_line_ends_the_run() {
    let source = "GO TO 30\nNEXT i\nFOR i = 1 TO 3 : PRINT i : GO TO 20";
    assert_eq!(run(source, &[]), ("1\n".to_string(), End::Finished));
}
