use basic_interp::parser::grammar::{Keyword, Rule};
use basic_interp::parser::instr::STOP_LINE;
use basic_interp::parser::parse_file;
use basic_interp::parser::parse_tools::{ident, ParseError};
use basic_interp::parser::{Expr, Instr, LowerCase};

fn num(i: i64) -> Box<Expr<'static>> {
    Box::new(Expr::Int(i))
}

#[test]
fn identifiers_compare_without_case() {
    assert_eq!(LowerCase("Total"), LowerCase("tOTAL"));
    assert_ne!(LowerCase("total"), LowerCase("totals"));
    assert_eq!(LowerCase("Total").text(), "Total");
    assert_eq!(LowerCase("Total").key(), "total");
    assert_eq!(Expr::parse("X"), Ok(("", ident("x"))));
}

#[test]
fn identifier_is_a_run_of_letters() {
    assert_eq!(Expr::parse("ab1"), Ok(("1", ident("ab"))));
    assert_eq!(Expr::parse_ident("abc def"), Ok((" def", ident("abc"))));
    assert!(Expr::parse_ident("1abc").is_err());
}

#[test]
fn subtraction_and_division_fold_from_the_left() {
    assert_eq!(
        Expr::parse("10 - 4 - 3"),
        Ok((
            "",
            Expr::Sub(Box::new(Expr::Sub(num(10), num(4))), num(3))
        ))
    );
    assert_eq!(
        Expr::parse("8/4/2"),
        Ok((
            "",
            Expr::Div(Box::new(Expr::Div(num(8), num(4))), num(2))
        ))
    );
}

#[test]
fn comparison_binds_least() {
    assert_eq!(
        Expr::parse("1 + 2 <= 3 * 4"),
        Ok((
            "",
            Expr::Le(
                Box::new(Expr::Add(num(1), num(2))),
                Box::new(Expr::Mul(num(3), num(4)))
            )
        ))
    );
}

#[test]
fn signed_literals() {
    assert_eq!(Expr::parse("-5"), Ok(("", Expr::Int(-5))));
    assert_eq!(Expr::parse("+5"), Ok(("", Expr::Int(5))));
    assert_eq!(
        Expr::parse("1--2"),
        Ok(("", Expr::Sub(num(1), num(-2))))
    );
    assert_eq!(
        Expr::parse("-9223372036854775808"),
        Ok(("", Expr::Int(i64::MIN)))
    );
    assert!(Expr::parse("9223372036854775808").is_err());
    assert!(Expr::parse("-").is_err());
}

#[test]
fn expression_ends_before_what_it_cannot_read() {
    assert_eq!(Expr::parse("1 + "), Ok((" + ", Expr::Int(1))));
    assert_eq!(Expr::parse("1 2"), Ok((" 2", Expr::Int(1))));
    assert_eq!(Expr::parse("7THEN"), Ok(("THEN", Expr::Int(7))));
}

#[test]
fn unclosed_bracket_is_fatal() {
    assert_eq!(
        Expr::parse("(1 + 2"),
        Err(ParseError {
            rest: "",
            trail: vec![Rule::ClosingParen, Rule::BracketedExpr],
            fatal: true
        })
    );
    assert_eq!(
        Expr::parse("1 + (2"),
        Err(ParseError {
            rest: "",
            trail: vec![Rule::ClosingParen, Rule::BracketedExpr],
            fatal: true
        })
    );
    assert_eq!(
        Expr::parse("( )"),
        Err(ParseError {
            rest: ")",
            trail: vec![Rule::BracketedExpr],
            fatal: true
        })
    );
    assert_eq!(Expr::parse("( 4 )"), Ok(("", Expr::Int(4))));
}

#[test]
fn unclosed_text_is_a_miss() {
    assert_eq!(
        Expr::parse("\"abc"),
        Err(ParseError {
            rest: "",
            trail: vec![],
            fatal: false
        })
    );
    assert_eq!(Expr::parse("\"\""), Ok(("", Expr::String(""))));
    assert_eq!(
        Expr::parse("\"a b\"c"),
        Ok(("c", Expr::String("a b")))
    );
}

#[test]
fn keywords_in_any_case() {
    assert_eq!(Instr::parse("cLs"), Ok(("", Instr::Clear)));
    assert_eq!(Instr::parse("Stop"), Ok(("", Instr::Goto(STOP_LINE))));
    assert_eq!(Instr::parse("go TO 120"), Ok(("", Instr::Goto(120))));
    assert_eq!(Keyword::GoTo.text(), "go to ");
    assert_eq!(Keyword::Print.text(), "print");
}

#[test]
fn print_forms() {
    assert_eq!(
        Instr::parse("PRINT"),
        Ok(("", Instr::Print(None, vec![], None)))
    );
    assert_eq!(
        Instr::parse("PRINT 1;2 , 3"),
        Ok((
            "",
            Instr::Print(
                Some(Expr::Int(1)),
                vec![(';', Expr::Int(2)), (',', Expr::Int(3))],
                None
            )
        ))
    );
    assert_eq!(
        Instr::parse("PRINT 1, "),
        Ok(("", Instr::Print(Some(Expr::Int(1)), vec![], Some(','))))
    );
    assert_eq!(
        Instr::parse("PRINT x;"),
        Ok(("", Instr::Print(Some(ident("x")), vec![], Some(';'))))
    );
}

#[test]
fn print_commits_to_its_list() {
    assert_eq!(
        Instr::parse("PRINT ,"),
        Err(ParseError {
            rest: ",",
            trail: vec![Rule::PrintStatement],
            fatal: true
        })
    );
}

#[test]
fn rem_keeps_the_rest_of_the_line() {
    assert_eq!(
        Instr::parse("REM hello : PRINT 1"),
        Ok(("", Instr::Rem("hello : PRINT 1")))
    );
    assert_eq!(Instr::parse("REM"), Ok(("", Instr::Rem(""))));
    assert_eq!(Instr::parse("rem  two"), Ok(("", Instr::Rem(" two"))));
    assert_eq!(Instr::parse("REMark"), Ok(("", Instr::Rem("ark"))));
}

#[test]
fn let_needs_an_identifier() {
    assert_eq!(
        Instr::parse("LET 1 = 2"),
        Err(ParseError {
            rest: "1 = 2",
            trail: vec![Rule::LetStatement],
            fatal: true
        })
    );
    assert_eq!(
        Instr::parse("let x ="),
        Err(ParseError {
            rest: "",
            trail: vec![Rule::LetStatement],
            fatal: true
        })
    );
    assert_eq!(
        Instr::parse("LET x 5"),
        Err(ParseError {
            rest: "5",
            trail: vec![Rule::LetStatement],
            fatal: true
        })
    );
}

#[test]
fn input_with_prompt() {
    assert_eq!(
        Instr::parse("INPUT \"Age?\", a"),
        Ok(("", Instr::Input(Some(Expr::String("Age?")), ident("a"))))
    );
}

#[test]
fn goto_line_number() {
    assert_eq!(Instr::parse("GO TO 10"), Ok(("", Instr::Goto(10))));
    assert_eq!(
        Instr::parse("GO TO 18446744073709551615"),
        Ok(("", Instr::Goto(u64::MAX)))
    );
    assert!(Instr::parse("GO TO 18446744073709551616").is_err());
    assert!(Instr::parse("GOTO 10").is_err());
    assert!(Instr::parse("GO TO x").is_err());
}

#[test]
fn if_takes_the_rest_of_the_line() {
    assert_eq!(
        Instr::parse("IF x > 1 THEN PRINT 1 : PRINT 2"),
        Ok((
            "",
            Instr::IfThen(
                Expr::Gt(Box::new(ident("x")), num(1)),
                Box::new(Instr::Multi(vec![
                    Instr::Print(Some(Expr::Int(1)), vec![], None),
                    Instr::Print(Some(Expr::Int(2)), vec![], None),
                ]))
            )
        ))
    );
    assert_eq!(
        Instr::parse("IF 1 PRINT 2"),
        Err(ParseError {
            rest: "PRINT 2",
            trail: vec![Rule::IfThenStatement],
            fatal: true
        })
    );
    assert_eq!(
        Instr::parse("IF 1 THEN foo"),
        Err(ParseError {
            rest: "foo",
            trail: vec![Rule::NextStatement, Rule::IfThenStatement],
            fatal: true
        })
    );
}

#[test]
fn for_and_next_take_one_letter() {
    assert_eq!(Instr::parse("NEXT i"), Ok(("", Instr::Next(ident("i")))));
    assert_eq!(
        Instr::parse("NEXT ij"),
        Err(ParseError {
            rest: "ij",
            trail: vec![Rule::NextStatement],
            fatal: true
        })
    );
    assert_eq!(
        Instr::parse("FOR ij = 1 TO 2"),
        Err(ParseError {
            rest: "ij = 1 TO 2",
            trail: vec![Rule::ForLoop],
            fatal: true
        })
    );
    assert_eq!(
        Instr::parse("FOR i = 1 2"),
        Err(ParseError {
            rest: "2",
            trail: vec![Rule::ForLoop],
            fatal: true
        })
    );
}

#[test]
fn unknown_statement_is_a_miss_of_the_last_rule() {
    assert_eq!(
        Instr::parse("foo"),
        Err(ParseError {
            rest: "foo",
            trail: vec![Rule::NextStatement],
            fatal: false
        })
    );
    assert_eq!(
        Instr::parse(""),
        Err(ParseError {
            rest: "",
            trail: vec![Rule::NextStatement],
            fatal: false
        })
    );
}

#[test]
fn line_must_be_read_whole() {
    assert_eq!(
        Instr::parse("PRINT 1 : foo"),
        Err(ParseError {
            rest: ": foo",
            trail: vec![],
            fatal: false
        })
    );
    assert_eq!(
        Instr::parse("CLS extra"),
        Err(ParseError {
            rest: "extra",
            trail: vec![],
            fatal: false
        })
    );
    assert_eq!(
        Instr::parse("CLS   "),
        Ok(("", Instr::Clear))
    );
}

#[test]
fn three_statements_on_a_line() {
    assert_eq!(
        Instr::parse("PRINT 1 : GO TO 10 : PRINT 2"),
        Ok((
            "",
            Instr::Multi(vec![
                Instr::Print(Some(Expr::Int(1)), vec![], None),
                Instr::Goto(10),
                Instr::Print(Some(Expr::Int(2)), vec![], None),
            ])
        ))
    );
}

#[test]
fn prefixed_lines() {
    assert_eq!(
        Instr::parse_prefixed("10 PRINT 1"),
        Ok(("", Instr::Print(Some(Expr::Int(1)), vec![], None)))
    );
    assert_eq!(
        Instr::parse_prefixed("PRINT 1"),
        Err(ParseError {
            rest: "PRINT 1",
            trail: vec![Rule::PrefixedLine],
            fatal: false
        })
    );
    assert_eq!(
        Instr::parse_prefixed("10PRINT 1"),
        Err(ParseError {
            rest: "PRINT 1",
            trail: vec![Rule::PrefixedLine],
            fatal: false
        })
    );
}

#[test]
fn parse_inner_reads_one_statement() {
    assert_eq!(
        Instr::parse_inner("CLS : CLS"),
        Ok((" : CLS", Instr::Clear))
    );
}

#[test]
fn file_of_plain_lines() {
    assert_eq!(
        parse_file("LET x = 1\nPRINT x\n", false),
        Ok(vec![
            Instr::Assign(ident("x"), Expr::Int(1)),
            Instr::Print(Some(ident("x")), vec![], None),
        ])
    );
    assert_eq!(parse_file("", false), Ok(vec![]));
}

#[test]
fn file_of_prefixed_lines_with_carriage_returns() {
    assert_eq!(
        parse_file("10 CLS\r\n20 GO TO 10", true),
        Ok(vec![Instr::Clear, Instr::Goto(10)])
    );
}

#[test]
fn file_stops_at_the_first_bad_line() {
    assert_eq!(
        parse_file("CLS\nLET 1\nLET 2", false),
        Err(ParseError {
            rest: "1",
            trail: vec![Rule::LetStatement],
            fatal: true
        })
    );
    assert!(parse_file("CLS\n\nCLS", false).is_err());
}

#[test]
fn clones_are_equal() {
    let (_, instr) = Instr::parse("IF a = 1 THEN PRINT \"x\", a; : FOR i = 1 TO 3").unwrap();
    assert_eq!(instr.clone(), instr);
    let (_, expr) = Expr::parse("(a + 1) * 2 <> b").unwrap();
    assert_eq!(expr.clone(), expr);
}

#[test]
fn equal_identifiers_hash_alike() {
    let mut seen = std::collections::HashSet::new();
    assert!(seen.insert(LowerCase("Total")));
    assert!(!seen.insert(LowerCase("tOTAL")));
    assert!(seen.insert(LowerCase("other")));
    assert_eq!(seen.len(), 2);
}

#[test]
fn rules_have_names() {
    assert_eq!(Rule::ClosingParen.text(), "closing paren");
    assert_eq!(Rule::BracketedExpr.text(), "bracketed expression");
    assert_eq!(Rule::NextStatement.text(), "next statement");
    let failure = Instr::parse("IF (1 THEN CLS").unwrap_err();
    let names: Vec<&str> = failure.trail.iter().map(|r| r.text()).collect();
    assert_eq!(
        names,
        vec!["closing paren", "bracketed expression", "if then statement"]
    );
    assert_eq!(failure.rest, "THEN CLS");
    assert!(failure.fatal);
}

#[test]
fn letters_are_ascii() {
    assert!(Expr::parse("é").is_err());
    assert_eq!(Expr::parse("aé"), Ok(("é", ident("a"))));
    assert_eq!(LowerCase("É"), LowerCase("é"));
}

#[test]
fn keywords_are_ascii() {
    assert!(Instr::parse("ſtop").is_err());
    assert!(Instr::parse("PRİNT 1").is_err());
    assert!(Instr::parse("cl").is_err());
    assert!(Instr::parse("GO  TO 10").is_err());
}

#[test]
fn texts_may_hold_anything_but_a_quote() {
    assert_eq!(
        Expr::parse("\"héllo, wörld: 1+1\""),
        Ok(("", Expr::String("héllo, wörld: 1+1")))
    );
}

#[test]
fn white_space_is_space_tab_and_line_ends() {
    assert_eq!(
        Expr::parse("1\t+\r\n2"),
        Ok(("", Expr::Add(num(1), num(2))))
    );
    assert_eq!(Expr::parse("1\u{a0}+ 2"), Ok(("\u{a0}+ 2", Expr::Int(1))));
}

#[test]
fn lines_end_at_line_feeds() {
    assert_eq!(
        parse_file("REM a\r\nREM b\r", false),
        Ok(vec![Instr::Rem("a"), Instr::Rem("b\r")])
    );
    assert_eq!(
        parse_file("REM a\n\nREM", false),
        Err(ParseError {
            rest: "",
            trail: vec![Rule::NextStatement],
            fatal: false
        })
    );
    assert_eq!(
        parse_file("REM a\r\r\nREM b\n", false),
        Ok(vec![Instr::Rem("a\r"), Instr::Rem("b")])
    );
}
