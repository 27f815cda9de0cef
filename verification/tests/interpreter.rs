use lox::environment::{Environment, LoxObject};
use lox::interpreter::{check_arity, evaluate, interpret, Interpreter};
use lox::number::{Cmp, NumOp, NumOut};
use lox::parser::{Parser, ParsingError};
use lox::runtime_error::RuntimeError;
use lox::scanner::{scan, ScanningError};
use lox::text::SmartString;
use lox::{run, runnable_source, validate, Lox, LoxError};

/// The number operations of double-precision floats.
fn numbers(op: NumOp) -> NumOut {
    let f = f64::from_bits;
    match op {
        NumOp::Parse(lexeme) => match lexeme.as_str().parse::<f64>() {
            Ok(x) => NumOut::Number(x.to_bits()),
            Err(_) => NumOut::Order(None),
        },
        NumOp::Negate(x) => NumOut::Number((-f(x)).to_bits()),
        NumOp::Add(x, y) => NumOut::Number((f(x) + f(y)).to_bits()),
        NumOp::Subtract(x, y) => NumOut::Number((f(x) - f(y)).to_bits()),
        NumOp::Multiply(x, y) => NumOut::Number((f(x) * f(y)).to_bits()),
        NumOp::Divide(x, y) => NumOut::Number((f(x) / f(y)).to_bits()),
        NumOp::Compare(x, y) => NumOut::Order(if f(x) < f(y) {
            Some(Cmp::Less)
        } else if f(x) > f(y) {
            Some(Cmp::Greater)
        } else if f(x) == f(y) {
            Some(Cmp::Equal)
        } else {
            None
        }),
        NumOp::Show(x) => NumOut::Text(SmartString::from(format!("{}", f(x)).as_str())),
    }
}

fn run_lines(source: &str) -> (Vec<String>, Result<(), LoxError>) {
    let mut out = Vec::new();
    let mut err = Vec::new();
    let r = run(source, u64::MAX, &numbers, &mut out, &mut err);
    (out, r)
}

fn run_streams(source: &str) -> (Vec<String>, Vec<String>, Result<(), LoxError>) {
    let mut out = Vec::new();
    let mut err = Vec::new();
    let r = run(source, u64::MAX, &numbers, &mut out, &mut err);
    (out, err, r)
}

fn prints(source: &str) -> Vec<String> {
    let (out, r) = run_lines(source);
    assert!(r.is_ok(), "{:?}", r);
    out
}

#[test]
fn arithmetic_and_strings() {
    assert_eq!(prints("print 1 + 2;"), vec!["3"]);
    assert_eq!(prints("print 10 / 4;"), vec!["2.5"]);
    assert_eq!(prints("print 2 * 3 - 1;"), vec!["5"]);
    assert_eq!(prints("print -(1.5);"), vec!["-1.5"]);
    assert_eq!(prints("print \"a\" + \"b\";"), vec!["ab"]);
}

#[test]
fn literals_and_truthiness() {
    assert_eq!(prints("print nil;"), vec!["nil"]);
    assert_eq!(prints("print !nil;"), vec!["true"]);
    assert_eq!(prints("print !0;"), vec!["false"]);
    assert_eq!(prints("print true and false;"), vec!["false"]);
    assert_eq!(prints("print nil or \"x\";"), vec!["x"]);
    assert_eq!(prints("if (0) print 1; else print 2;"), vec!["1"]);
    assert_eq!(prints("if (nil) print 1; else print 2;"), vec!["2"]);
}

#[test]
fn comparisons_of_numbers() {
    assert_eq!(prints("print 1 < 2;"), vec!["true"]);
    assert_eq!(prints("print 2 > 3;"), vec!["false"]);
    assert_eq!(prints("print 2 < 1;"), vec!["false"]);
}

#[test]
fn operators_take_equals_from_the_second_character() {
    // An operator that may be followed by `=` takes it where the second
    // character of the source is `=`, and only there.
    let (out, r) = run_lines("print 1 <= 2;");
    assert_eq!(out, vec!["Error on line 1: Expected Expression."]);
    assert!(matches!(r, Err(LoxError::ParsingError(ParsingError::NoExpr))));
    assert_eq!(prints("1=1; print 1 < 2; print 1 > 1;"), vec!["true", "true"]);
}

#[test]
fn equality_takes_only_numbers() {
    let (out, r) = run_lines("1=\"a\";");
    assert!(matches!(r, Err(LoxError::RuntimeError(RuntimeError::InvalidOperand))));
    assert_eq!(out, vec!["Error on line 1: Operator must be a number."]);
    let (out, r) = run_lines("print \"a\" < \"a\";");
    assert!(matches!(r, Err(LoxError::RuntimeError(RuntimeError::InvalidOperand))));
    assert_eq!(out, vec!["Error on line 1: Operator must be a number."]);
}

#[test]
fn variables_and_blocks() {
    assert_eq!(
        prints("var a = 1; { var a = 2; print a; } print a;"),
        vec!["2", "1"]
    );
    assert_eq!(prints("var a; print a;"), vec!["nil"]);
    assert_eq!(prints("var i = 0; while (i < 3) i = i + 1; print i;"), vec!["3"]);
}

#[test]
fn for_loops() {
    assert_eq!(prints("for (var i = 0; i < 3; i = i + 1) print i;"), vec!["0", "1", "2"]);
}

#[test]
fn functions_and_returns() {
    assert_eq!(prints("fun f(x) { return x * 2; } print f(21);"), vec!["42"]);
    assert_eq!(prints("fun f() { } print f();"), vec!["nil"]);
    assert_eq!(
        prints("fun fib(n) { if (n < 2) return n; return fib(n - 1) + fib(n - 2); } print fib(10);"),
        vec!["55"]
    );
}

#[test]
fn closures_keep_their_environment() {
    assert_eq!(
        prints("{ var y = 3; fun g() { return y; } y = 4; print g(); }"),
        vec!["3"]
    );
}

#[test]
fn functions_are_displayed_by_their_declaration() {
    assert_eq!(
        prints("fun f(a, b) { print a; } print f;"),
        vec!["f(a, b){print (a)\n}"]
    );
}

#[test]
fn runtime_errors_are_reported_with_their_line() {
    let (out, r) = run_lines("print 1;\nprint x;");
    assert_eq!(out, vec!["1", "Error on line 2: Undefined Variable x."]);
    assert!(matches!(r, Err(LoxError::RuntimeError(RuntimeError::Undefined(_)))));

    let (out, r) = run_lines("1();");
    assert_eq!(out, vec!["Error on line 1: Can only call functions and classes."]);
    assert!(matches!(r, Err(LoxError::RuntimeError(RuntimeError::NotCallable))));

    let (out, r) = run_lines("fun f(a) {} f();");
    assert_eq!(out, vec!["Error on line 1: Expected 1 Arguments, but got 0."]);
    assert!(matches!(
        r,
        Err(LoxError::RuntimeError(RuntimeError::Arity { expected: 1, got: 0 }))
    ));

    let (out, r) = run_lines("print -\"a\";");
    assert!(out.is_empty());
    assert!(matches!(r, Err(LoxError::RuntimeError(RuntimeError::InvalidOperand))));
}

#[test]
fn global_variables_are_not_assigned_from_blocks() {
    let (out, r) = run_lines("var a = 1; { a = 2; }");
    assert!(out.is_empty());
    assert!(matches!(r, Err(LoxError::RuntimeError(RuntimeError::Undefined(_)))));
}

#[test]
fn scanning_and_parsing_errors() {
    let (out, err, r) = run_streams("\"abc");
    assert!(out.is_empty());
    assert_eq!(err, vec!["[line 1] at : Unterminated String"]);
    assert!(matches!(r, Err(LoxError::ScanningError(ScanningError::UntermString))));
    let (out, err, r) = run_streams("1;\n@ # 2;");
    assert!(out.is_empty());
    assert_eq!(err, vec!["[line 2] at : Unexpected Character", "[line 2] at : Unexpected Character"]);
    assert!(matches!(r, Err(LoxError::ScanningError(ScanningError::Syntax))));
    let (out, r) = run_lines("print ;");
    assert_eq!(out, vec!["Error on line 1: Expected Expression."]);
    assert!(matches!(r, Err(LoxError::ParsingError(ParsingError::NoExpr))));
}

#[test]
fn parse_errors_are_reported_as_they_are_met() {
    let (out, r) = run_lines("print 1");
    assert_eq!(out, vec!["Error at end of file: Expect ';' after expression."]);
    assert!(matches!(r, Err(LoxError::ParsingError(ParsingError::NoSemi))));
    // Every declaration is parsed; each error reported, the last returned.
    let (out, r) = run_lines("var = 1;\nprint (2;");
    assert_eq!(
        out,
        vec![
            "Error on line 1: Expected Identifier.",
            "Error on line 2: Expected ')' after expression."
        ]
    );
    assert!(matches!(r, Err(LoxError::ParsingError(ParsingError::UntermParen))));
    let (out, r) = run_lines("{ print 1;");
    assert_eq!(out, vec!["Error at end of file: Expected '}' after Block."]);
    assert!(matches!(r, Err(LoxError::ParsingError(ParsingError::UntermBrace))));
    let (out, r) = run_lines("1 + 2 = 3;");
    assert_eq!(out, vec!["Error on line 1: Invalid Assignment Target."]);
    assert!(matches!(r, Err(LoxError::ParsingError(ParsingError::InvalidAssignment))));
}

#[test]
fn if_conditions_are_shown_on_the_error_stream() {
    let (out, err, r) = run_streams("if (1 < 2) print 3;");
    assert!(r.is_ok());
    assert_eq!(out, vec!["3"]);
    assert_eq!(err, vec!["if condition: (1<2)"]);
}

#[test]
fn the_step_budget_ends_endless_loops() {
    let mut out = Vec::new();
    let mut err = Vec::new();
    let r = run("while (true) {}", 10, &numbers, &mut out, &mut err);
    assert!(matches!(r, Err(LoxError::RuntimeError(RuntimeError::OutOfFuel))));
}

#[test]
fn lox_runs_sources() {
    let mut lox = Lox::new();
    assert_eq!(lox.fuel, u64::MAX);
    let mut out = Vec::new();
    let mut err = Vec::new();
    lox.run("print \"hi\";", &numbers, &mut out, &mut err).unwrap();
    lox.run("print 1;", &numbers, &mut out, &mut err).unwrap();
    assert!(err.is_empty());
    assert_eq!(out, vec!["hi", "1"]);
    assert!(validate("anything"));
}

#[test]
fn lox_error_messages() {
    assert_eq!(LoxError::Usage.message(), "Usage: jlox [script] | jlox");
    assert_eq!(
        LoxError::ParsingError(ParsingError::NoSemi).report(4, "end"),
        "[line 4] at end: Parsing Error: Expect ';' after expression."
    );
    assert_eq!(
        LoxError::RuntimeError(RuntimeError::Undefined(SmartString::from("q"))).message(),
        "Runtime Error: Undefined Variable q."
    );
    assert!(matches!(LoxError::NotAscii.error(3), LoxError::NotAscii));
    assert_eq!(LoxError::usage().message(), "Usage: jlox [script] | jlox");
}

#[test]
fn interpreter_keeps_its_environment() {
    let statements = Parser::new(scan("var a = 2; print a * a;").unwrap()).parse().unwrap();
    let mut interpreter = Interpreter::new();
    interpreter.interpret(&statements, 100, &numbers).unwrap();
    assert_eq!(interpreter.output, vec!["4"]);
    let more = Parser::new(scan("print a;").unwrap()).parse().unwrap();
    interpreter.interpret(&more, 100, &numbers).unwrap();
    assert_eq!(interpreter.output, vec!["4", "2"]);
}

#[test]
fn free_functions_interpret_and_evaluate() {
    let statements = Parser::new(scan("var b = 7;").unwrap()).parse().unwrap();
    let mut env = Environment::new();
    let mut out = Vec::new();
    interpret(&statements, &mut env, &mut out, 100, &numbers).unwrap();
    let expr = match &Parser::new(scan("b + 1;").unwrap()).parse().unwrap()[0] {
        lox::syntax_trees::Statement::Expression(e) => e.copy(),
        _ => panic!(),
    };
    match evaluate(&expr, &mut env, &mut out, 100, &numbers) {
        Ok(LoxObject::Float(bits)) => assert_eq!(f64::from_bits(bits), 8.0),
        other => panic!("{:?}", other),
    }
}

#[test]
fn arity_check() {
    let mut out = Vec::new();
    assert!(check_arity(2, 2, 1, &mut out).is_ok());
    assert!(out.is_empty());
    assert!(matches!(
        check_arity(2, 3, 9, &mut out),
        Err(RuntimeError::Arity { expected: 2, got: 3 })
    ));
    assert_eq!(out, vec!["Error on line 9: Expected 2 Arguments, but got 3."]);
}

#[test]
fn calling_a_closure_leaves_the_callers_variables() {
    assert_eq!(
        prints("{ var y = 1; fun g() { y = 5; print y; } g(); print y; }"),
        vec!["5", "1"]
    );
}

#[test]
fn completed_blocks_leave_no_scope_behind() {
    let statements =
        Parser::new(scan("{ var a = 1; { print a; } } fun f() { return 2; } print f();").unwrap())
            .parse()
            .unwrap();
    let mut interpreter = Interpreter::new();
    interpreter.interpret(&statements, 100, &numbers).unwrap();
    assert!(interpreter.environment.global());
    assert_eq!(interpreter.output, vec!["1", "2"]);
}

#[test]
fn runtime_error_messages_and_reports() {
    assert_eq!(
        RuntimeError::Arity { expected: 10, got: 305 }.message(),
        "Expected 10 Arguments, but got 305."
    );
    assert_eq!(
        RuntimeError::NotCallable.report(1203),
        "Error on line 1203: Can only call functions and classes."
    );
    assert_eq!(RuntimeError::OutOfFuel.message(), "Step budget exhausted.");
    assert_eq!(RuntimeError::InvalidOperand.copy().message(), "Operator must be a number.");
}

#[test]
fn only_ascii_sources_run() {
    assert!(validate("print 1;"));
    assert!(!validate("print \"\u{e9}\";"));
    let (out, err, r) = run_streams("print \"\u{e9}\";");
    assert!(matches!(r, Err(LoxError::NotAscii)));
    assert!(out.is_empty());
    assert!(err.is_empty());
    assert_eq!(
        LoxError::NotAscii.message(),
        "Sorry, I only except Ascii (my bad, its a skill issue)"
    );
}

#[test]
fn sources_that_run_are_told_apart() {
    assert!(runnable_source("print 1;"));
    assert!(runnable_source("print \"\u{e9}\";"));
    assert!(runnable_source("print @;"));
    let args = vec!["1"; 255].join(",");
    assert!(!runnable_source(&format!("f({},", args)));
    assert!(runnable_source(&format!("f({});", args)));
}

#[test]
fn not_negates_truthiness() {
    assert!(matches!(LoxObject::Nil.not(), Ok(LoxObject::Bool(true))));
    assert!(matches!(LoxObject::Bool(false).not(), Ok(LoxObject::Bool(true))));
    assert!(matches!(LoxObject::Bool(true).not(), Ok(LoxObject::Bool(false))));
    assert!(matches!(LoxObject::Float(0.0f64.to_bits()).not(), Ok(LoxObject::Bool(false))));
    assert!(matches!(
        LoxObject::String(SmartString::from("")).not(),
        Ok(LoxObject::Bool(false))
    ));
}

/// Number operations that no program free of numbers may ask anything.
fn no_numbers(_op: NumOp) -> NumOut {
    panic!("a program free of numbers asked the number operations")
}

#[test]
fn programs_free_of_numbers_ask_no_number_operations() {
    // Inside a block, so that the assignments find the variables: where
    // scopes are nested, an assignment searches only them.
    let source = "{ var a = true; var b; if (!a or nil) { b = a; } else { b = !b and a; } \
                  { var c = b; a = c; } while (a) { a = false; } print a; print b; }";
    let statements = Parser::new(scan(source).unwrap()).parse().unwrap();
    let mut interpreter = Interpreter::new();
    interpreter.interpret(&statements, 100, &no_numbers).unwrap();
    assert_eq!(interpreter.output, vec!["false", "true"]);
}

#[test]
fn logical_operators_short_circuit() {
    // The right operand is not evaluated where the left one decides: the
    // undefined variable is never read.
    assert_eq!(prints("print true or nothing;"), vec!["true"]);
    assert_eq!(prints("print false and nothing;"), vec!["false"]);
    assert_eq!(prints("print nil or \"x\";"), vec!["x"]);
}

#[test]
fn statements_run_in_order_until_one_fails() {
    let (out, r) = run_lines("print 1; print nothing; print 2;");
    assert!(matches!(r, Err(LoxError::RuntimeError(RuntimeError::Undefined(_)))));
    assert_eq!(out[0], "1");
    assert!(!out.iter().any(|l| l == "2"));
}

#[test]
fn while_loops_until_the_condition_fails() {
    assert_eq!(
        prints("{ var i = 0; while (i < 3) { print i; i = i + 1; } }"),
        vec!["0", "1", "2"]
    );
    assert_eq!(prints("fun f() { while (true) { return 5; } } print f();"), vec!["5"]);
}

#[test]
fn if_runs_one_branch() {
    assert_eq!(prints("if (nil) print 1; else print 2;"), vec!["2"]);
    assert_eq!(prints("if (0) print 1; else print 2;"), vec!["1"]);
    assert!(prints("if (false) print 1;").is_empty());
}

#[test]
fn a_block_forgets_what_it_declared() {
    let (out, r) = run_lines("{ var a = 1; { var b = 2; a = b; } print a; print b; }");
    assert_eq!(out[0], "2");
    assert!(matches!(r, Err(LoxError::RuntimeError(RuntimeError::Undefined(_)))));
}
