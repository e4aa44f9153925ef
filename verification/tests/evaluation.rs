use my_ast_interpreter::{
    Action, Arithmetic, Interpreter, InterpreterStatus, Output, Parser, Request, Resolver, RuntimeError,
    Scanner, Stmt,
};

fn parse(source: &str) -> Vec<Stmt> {
    let (tokens, errors) = Scanner::new(source.to_string()).scan_tokens();
    assert!(errors.is_empty(), "lexical errors: {:?}", errors);
    Parser::new(tokens).parse().unwrap()
}

fn answer(request: &Request) -> u64 {
    match request {
        Request::Literal(text) => text.parse::<f64>().unwrap().to_bits(),
        Request::Compute { operation, left, right } => {
            let (left, right) = (f64::from_bits(*left), f64::from_bits(*right));
            let result = match operation {
                Arithmetic::Add => left + right,
                Arithmetic::Subtract => left - right,
                Arithmetic::Multiply => left * right,
                Arithmetic::Divide => left / right,
            };
            result.to_bits()
        }
    }
}

fn written(output: Output) -> String {
    match output {
        Output::Text(text) => text,
        Output::Number(bits) => format!("{}", f64::from_bits(bits)),
    }
}

/// Scans, parses, resolves and evaluates the source in the given mode, and
/// returns the lines written and the error that ended the evaluation.
fn run_in<'a>(statements: &'a Vec<Stmt>, mode: &str, limit: usize) -> (Vec<String>, Option<RuntimeError<'a>>) {
    let mut interpreter = Interpreter::new();
    {
        let mut resolver = Resolver::new(&mut interpreter);
        resolver.resolve(statements).unwrap();
    }
    interpreter.set_status(mode).unwrap();
    interpreter.interpret(statements);
    let mut lines = Vec::new();
    let mut reply = None;
    for _ in 0..limit {
        match interpreter.run(reply.take(), 64) {
            Action::Continue => {}
            Action::Print(output) => lines.push(written(output)),
            Action::Ask(request) => reply = Some(answer(&request)),
            Action::Finished => {
                assert!(interpreter.tasks.is_empty());
                assert!(interpreter.values.is_empty());
                assert_eq!(interpreter.environment, 0);
                return (lines, None);
            }
            Action::Failed(error) => {
                assert!(interpreter.tasks.is_empty());
                assert!(interpreter.values.is_empty());
                assert_eq!(interpreter.environment, 0);
                return (lines, Some(error));
            }
        }
    }
    panic!("the evaluation did not end");
}

fn evaluate(source: &str) -> Vec<String> {
    let statements = parse(source);
    let (lines, error) = run_in(&statements, "evaluate", 100_000);
    assert_eq!(error, None);
    lines
}

fn run(source: &str) -> Vec<String> {
    let statements = parse(source);
    let (lines, error) = run_in(&statements, "run", 100_000);
    assert_eq!(error, None);
    lines
}

/// The lines written before the error, and the report of the error.
fn fails(source: &str) -> (Vec<String>, String) {
    let statements = parse(source);
    let (lines, error) = run_in(&statements, "run", 100_000);
    match error {
        Some(error) => (lines, error.describe().unwrap()),
        None => panic!("the evaluation ended without an error"),
    }
}

#[test]
fn precedence_and_parentheses() {
    assert_eq!(evaluate("1 + 2 * 3"), vec!["7"]);
    assert_eq!(evaluate("(1 + 2) * 3"), vec!["9"]);
}

#[test]
fn arithmetic() {
    assert_eq!(evaluate("10 - 4 - 3"), vec!["3"]);
    assert_eq!(evaluate("7 / 2"), vec!["3.5"]);
    assert_eq!(evaluate("-(3 + 4)"), vec!["-7"]);
    assert_eq!(evaluate("0.1 + 0.2"), vec!["0.30000000000000004"]);
    assert_eq!(evaluate("2 * 3.5"), vec!["7"]);
    assert_eq!(evaluate("--2"), vec!["2"]);
}

#[test]
fn division_by_zero_is_no_error() {
    assert_eq!(evaluate("1 / 0"), vec!["inf"]);
    assert_eq!(evaluate("-1 / 0"), vec!["-inf"]);
    assert_eq!(evaluate("0 / 0"), vec!["NaN"]);
    assert_eq!(evaluate("1 / 0 > 1000000"), vec!["true"]);
}

#[test]
fn string_concatenation() {
    assert_eq!(evaluate("\"foo\" + \"bar\""), vec!["foobar"]);
    assert_eq!(evaluate("\"\" + \"\""), vec![""]);
    assert_eq!(evaluate("\"1\" + \"foo\""), vec!["1foo"]);
}

#[test]
fn adding_a_number_and_a_string_is_an_error() {
    assert_eq!(
        fails("1 + \"foo\";").1,
        "[line 1] Runtime Error: Operands must be two numbers or two strings."
    );
    assert_eq!(
        fails("\"foo\" + 1;").1,
        "[line 1] Runtime Error: Operands must be two numbers or two strings."
    );
    assert_eq!(
        fails("nil + nil;").1,
        "[line 1] Runtime Error: Operands must be two numbers or two strings."
    );
}

#[test]
fn runtime_error_carries_token_message_and_line() {
    let statements = parse("\n\n1 * \"a\";");
    let (_, error) = run_in(&statements, "run", 1000);
    assert_eq!(
        error,
        Some(RuntimeError::RTE {
            token: "*".to_string(),
            message: "Operands must be numbers".to_string(),
            line: 3,
        })
    );
}

#[test]
fn comparison_needs_numbers() {
    assert_eq!(evaluate("1 < 2"), vec!["true"]);
    assert_eq!(evaluate("2 <= 2"), vec!["true"]);
    assert_eq!(evaluate("1 > 2"), vec!["false"]);
    assert_eq!(evaluate("2 >= 3"), vec!["false"]);
    assert_eq!(evaluate("-1 < 0"), vec!["true"]);
    assert_eq!(evaluate("-2 < -1"), vec!["true"]);
    assert_eq!(fails("1 < \"2\";").1, "[line 1] Runtime Error: Operands must be numbers");
    assert_eq!(fails("true > false;").1, "[line 1] Runtime Error: Operands must be numbers");
    assert_eq!(fails("\"a\" - \"b\";").1, "[line 1] Runtime Error: Operands must be numbers");
}

#[test]
fn unary_minus_needs_a_number() {
    assert_eq!(fails("-\"a\";").1, "[line 1] Runtime Error: Operand must be a number.");
    assert_eq!(fails("-nil;").1, "[line 1] Runtime Error: Operand must be a number.");
    assert_eq!(fails("-true;").1, "[line 1] Runtime Error: Operand must be a number.");
}

#[test]
fn equality_never_fails() {
    assert_eq!(evaluate("nil == nil"), vec!["true"]);
    assert_eq!(evaluate("1 == 1"), vec!["true"]);
    assert_eq!(evaluate("1 == 2"), vec!["false"]);
    assert_eq!(evaluate("1 != 2"), vec!["true"]);
    assert_eq!(evaluate("1 != 1"), vec!["false"]);
    assert_eq!(evaluate("\"a\" == \"a\""), vec!["true"]);
    assert_eq!(evaluate("\"a\" != \"b\""), vec!["true"]);
    assert_eq!(evaluate("true == true"), vec!["true"]);
    assert_eq!(evaluate("true == false"), vec!["false"]);
    assert_eq!(evaluate("1 == \"1\""), vec!["false"]);
    assert_eq!(evaluate("1 != \"1\""), vec!["true"]);
    assert_eq!(evaluate("nil == false"), vec!["false"]);
    assert_eq!(evaluate("0 == nil"), vec!["false"]);
    assert_eq!(evaluate("\"\" != nil"), vec!["true"]);
}

#[test]
fn numbers_are_equal_within_epsilon() {
    assert_eq!(evaluate("0.1 + 0.2 == 0.3"), vec!["true"]);
    assert_eq!(evaluate("1 == 1.0000000000000002"), vec!["false"]);
    assert_eq!(evaluate("1 == 1.00000000000000001"), vec!["true"]);
    assert_eq!(evaluate("1 / 0 == 1 / 0"), vec!["false"]);
}

#[test]
fn functions_are_never_equal() {
    assert_eq!(run("fun f() {} print f == f; print f != f;"), vec!["false", "true"]);
}

#[test]
fn only_nil_and_false_are_falsey() {
    assert_eq!(evaluate("!nil"), vec!["true"]);
    assert_eq!(evaluate("!false"), vec!["true"]);
    assert_eq!(evaluate("!true"), vec!["false"]);
    assert_eq!(evaluate("!0"), vec!["false"]);
    assert_eq!(evaluate("!\"\""), vec!["false"]);
    assert_eq!(evaluate("!\"x\""), vec!["false"]);
    assert_eq!(run("if (0) print \"yes\"; else print \"no\";"), vec!["yes"]);
    assert_eq!(run("if (\"\") print \"yes\"; else print \"no\";"), vec!["yes"]);
    assert_eq!(run("if (nil) print \"yes\"; else print \"no\";"), vec!["no"]);
    assert_eq!(run("fun f() {} if (f) print \"yes\";"), vec!["yes"]);
}

#[test]
fn logical_operators_short_circuit() {
    assert_eq!(evaluate("1 or 2"), vec!["1"]);
    assert_eq!(evaluate("nil or 2"), vec!["2"]);
    assert_eq!(evaluate("false or false"), vec!["false"]);
    assert_eq!(evaluate("1 and 2"), vec!["2"]);
    assert_eq!(evaluate("nil and 2"), vec!["nil"]);
    assert_eq!(evaluate("false and 1"), vec!["false"]);
    assert_eq!(
        run("var a = 0; fun touch() { a = a + 1; return true; } true or touch(); false and touch(); print a; false or touch(); true and touch(); print a;"),
        vec!["0", "2"]
    );
}

#[test]
fn literals_and_display() {
    assert_eq!(evaluate("true"), vec!["true"]);
    assert_eq!(evaluate("false"), vec!["false"]);
    assert_eq!(evaluate("nil"), vec!["nil"]);
    assert_eq!(evaluate("\"hello\""), vec!["hello"]);
    assert_eq!(evaluate("12.50"), vec!["12.5"]);
    assert_eq!(evaluate("(\"grouped\")"), vec!["grouped"]);
    assert_eq!(run("fun named() {} print named;"), vec!["<fn named>"]);
}

#[test]
fn bare_expressions_print_only_in_evaluate_mode() {
    assert_eq!(evaluate("1 + 1; print 3;"), vec!["2", "3"]);
    assert_eq!(run("1 + 1; print 3;"), vec!["3"]);
    assert_eq!(evaluate("var a = 1; a = 2;"), vec!["2"]);
}

#[test]
fn set_status_accepts_two_names() {
    let mut interpreter = Interpreter::new();
    assert_eq!(interpreter.status, InterpreterStatus::Evaluate);
    assert_eq!(interpreter.set_status("run"), Ok(()));
    assert_eq!(interpreter.status, InterpreterStatus::Run);
    assert_eq!(interpreter.set_status("evaluate"), Ok(()));
    assert_eq!(interpreter.status, InterpreterStatus::Evaluate);
    assert_eq!(
        interpreter.set_status("debug"),
        Err("should only accept `evaluate` and `run` string values".to_string())
    );
    assert_eq!(interpreter.status, InterpreterStatus::Evaluate);
}

#[test]
fn variables() {
    assert_eq!(run("var a = 1; var b = 2; print a + b;"), vec!["3"]);
    assert_eq!(run("var a; print a;"), vec!["nil"]);
    assert_eq!(run("var a = 1; var a = 2; print a;"), vec!["2"]);
    assert_eq!(run("var a = 1; a = a + 1; print a;"), vec!["2"]);
    assert_eq!(run("var a = 1; print a = 5;"), vec!["5"]);
    assert_eq!(run("var a = 1; var b = a; a = 2; print b;"), vec!["1"]);
    assert_eq!(fails("var a = a;").1, "[line 1] Runtime Error: Undefined variable 'a'.");
}

#[test]
fn undefined_variables() {
    assert_eq!(fails("print missing;").1, "[line 1] Runtime Error: Undefined variable 'missing'.");
    assert_eq!(fails("print 1;\nmissing = 2;"), (vec!["1".to_string()], "[line 2] Runtime Error: Undefined variable 'missing'".to_string()));
    assert_eq!(fails("{ var a = 1; } print a;").1, "[line 1] Runtime Error: Undefined variable 'a'.");
}

#[test]
fn scope_shadowing() {
    assert_eq!(
        run("var a = \"global\"; { var a = \"local\"; print a; } print a;"),
        vec!["local", "global"]
    );
    assert_eq!(
        run("var a = 1; { var a = 2; { var a = 3; print a; } print a; } print a;"),
        vec!["3", "2", "1"]
    );
}

#[test]
fn assignment_reaches_the_declaring_scope() {
    assert_eq!(run("var a = 1; { a = 2; } print a;"), vec!["2"]);
    assert_eq!(run("var a = 1; { var b = a; { a = b + 1; } } print a;"), vec!["2"]);
    assert_eq!(run("{ var a = 1; { a = 2; print a; } print a; }"), vec!["2", "2"]);
}

#[test]
fn a_closure_sees_the_binding_of_its_declaration() {
    assert_eq!(
        run("var a = \"global\"; { fun show() { print a; } show(); var a = \"block\"; show(); }"),
        vec!["global", "global"]
    );
}

#[test]
fn conditionals() {
    assert_eq!(run("if (1 < 2) print \"then\"; else print \"else\";"), vec!["then"]);
    assert_eq!(run("if (1 > 2) print \"then\"; else print \"else\";"), vec!["else"]);
    assert_eq!(run("if (false) print \"then\"; print \"after\";"), vec!["after"]);
    assert_eq!(run("if (true) { print 1; print 2; }"), vec!["1", "2"]);
}

#[test]
fn while_loop_evaluates_its_condition_every_round() {
    assert_eq!(run("var i = 0; while (i < 3) { print i; i = i + 1; }"), vec!["0", "1", "2"]);
    assert_eq!(run("while (false) print 1; print 2;"), vec!["2"]);
    assert_eq!(run("var i = 3; while (i) { i = i - 1; if (i == 0) i = nil; } print i;"), vec!["nil"]);
}

#[test]
fn for_loop() {
    assert_eq!(run("for (var i = 0; i < 3; i = i + 1) print i;"), vec!["0", "1", "2"]);
    assert_eq!(evaluate("for (var i = 0; i < 3; i = i + 1) print i;"), vec!["0", "1", "1", "2", "2", "3"]);
    assert_eq!(run("for (var i = 0; i < 2; i = i + 1) { print i; }"), vec!["0", "1"]);
    assert_eq!(run("var i = 5; for (; i < 7;) { print i; i = i + 1; } print i;"), vec!["5", "6", "7"]);
    assert_eq!(run("var i = 9; for (var i = 0; i < 1; i = i + 1) {} print i;"), vec!["9"]);
}

#[test]
fn nested_loops() {
    assert_eq!(
        run("for (var i = 0; i < 2; i = i + 1) for (var j = 0; j < 2; j = j + 1) print i * 10 + j;"),
        vec!["0", "1", "10", "11"]
    );
}

#[test]
fn functions_and_calls() {
    assert_eq!(run("fun add(a, b) { return a + b; } print add(1, 2);"), vec!["3"]);
    assert_eq!(run("fun hi() { print \"hi\"; } hi(); hi();"), vec!["hi", "hi"]);
    assert_eq!(run("fun nothing() {} print nothing();"), vec!["nil"]);
    assert_eq!(run("fun early() { return; print 1; } print early();"), vec!["nil"]);
    assert_eq!(run("fun f(a) { return a; } print f(f(f(4)));"), vec!["4"]);
    assert_eq!(run("fun f(a) { a = a + 1; return a; } var a = 1; print f(a); print a;"), vec!["2", "1"]);
    assert_eq!(run("fun f(a, b) { print a; print b; } f(1 + 1, \"x\" + \"y\");"), vec!["2", "xy"]);
}

#[test]
fn arguments_are_evaluated_left_to_right_after_the_callee() {
    assert_eq!(
        run("fun note(x) { print x; return x; } fun f(a, b, c) { return a + b + c; } print note(f)(note(1), note(2), note(3));"),
        vec!["<fn f>", "1", "2", "3", "6"]
    );
}

#[test]
fn return_leaves_loops_and_blocks() {
    assert_eq!(
        run("fun first() { var i = 0; while (true) { { if (i == 3) return i; } i = i + 1; } } print first(); print \"after\";"),
        vec!["3", "after"]
    );
    assert_eq!(
        run("fun f() { for (var i = 0; i < 10; i = i + 1) { if (i == 2) { return \"two\"; } } return \"none\"; } var a = 1; { var a = 2; print f(); print a; } print a;"),
        vec!["two", "2", "1"]
    );
}

#[test]
fn return_keeps_the_operands_of_the_caller() {
    assert_eq!(run("fun two() { { return 2; } } print 1 + two() * 3 + two();"), vec!["9"]);
    assert_eq!(run("fun f(a) { return a; } print \"a\" + f(\"b\") + f(\"c\");"), vec!["abc"]);
}

#[test]
fn recursion() {
    assert_eq!(
        run("fun fib(n) { if (n < 2) return n; return fib(n - 1) + fib(n - 2); } print fib(15);"),
        vec!["610"]
    );
    assert_eq!(
        run("fun count(n) { if (n > 0) { count(n - 1); } print n; } count(3);"),
        vec!["0", "1", "2", "3"]
    );
}

#[test]
fn deep_recursion_needs_no_host_stack() {
    assert_eq!(
        run("fun down(n) { if (n == 0) return \"bottom\"; return down(n - 1); } print down(5000);"),
        vec!["bottom"]
    );
}

#[test]
fn closures_keep_their_frame_after_the_outer_call_returns() {
    let source = "fun makeCounter() { var i = 0; fun count() { i = i + 1; print i; } return count; } \
                  var counter = makeCounter(); counter(); counter(); counter();";
    assert_eq!(run(source), vec!["1", "2", "3"]);
}

#[test]
fn closures_of_one_frame_share_it_and_others_do_not() {
    let source = "fun makeCounter() { var i = 0; fun count() { i = i + 1; return i; } return count; } \
                  var first = makeCounter(); var alias = first; var second = makeCounter(); \
                  print first(); print alias(); print second(); print first(); print second();";
    assert_eq!(run(source), vec!["1", "2", "1", "3", "2"]);
}

#[test]
fn two_closures_over_one_local() {
    let source = "var get; var set; \
                  fun make() { var value = \"initial\"; fun g() { return value; } fun s(v) { value = v; } get = g; set = s; } \
                  make(); print get(); set(\"changed\"); print get();";
    assert_eq!(run(source), vec!["initial", "changed"]);
}

#[test]
fn closure_captures_a_parameter() {
    assert_eq!(
        run("fun adder(n) { fun add(x) { return x + n; } return add; } var add2 = adder(2); var add5 = adder(5); print add2(1); print add5(1);"),
        vec!["3", "6"]
    );
}

#[test]
fn arity_is_checked() {
    assert_eq!(
        fails("fun f(a, b) {}\n\nf(1);").1,
        "[line 3] Runtime Error: Expected 2 arguments but got 1."
    );
    assert_eq!(
        fails("fun f() {} f(1, 2, 3);").1,
        "[line 1] Runtime Error: Expected 0 arguments but got 3."
    );
    let statements = parse("fun f(a, b) {} f(1);");
    let (_, error) = run_in(&statements, "evaluate", 1000);
    assert_eq!(
        error,
        Some(RuntimeError::RTE {
            token: ")".to_string(),
            message: "Expected 2 arguments but got 1.".to_string(),
            line: 1,
        })
    );
}

#[test]
fn only_functions_are_called() {
    assert_eq!(fails("\"text\"();").1, "[line 1] Runtime Error: Can only call functions and methods");
    assert_eq!(fails("var a = 1; a(2);").1, "[line 1] Runtime Error: Can only call functions and methods");
    assert_eq!(fails("nil();").1, "[line 1] Runtime Error: Can only call functions and methods");
}

#[test]
fn an_error_stops_the_evaluation() {
    assert_eq!(
        fails("print 1; { var a = 2; print a; -\"x\"; print 3; } print 4;"),
        (vec!["1".to_string(), "2".to_string()], "[line 1] Runtime Error: Operand must be a number.".to_string())
    );
    assert_eq!(
        fails("fun f() { return 1 + nil; } print \"before\"; f(); print \"after\";"),
        (vec!["before".to_string()], "[line 1] Runtime Error: Operands must be two numbers or two strings.".to_string())
    );
}

#[test]
fn a_request_is_made_again_until_it_is_answered() {
    let statements = parse("print 1 + 2;");
    let mut interpreter = Interpreter::new();
    interpreter.interpret(&statements);
    let first = interpreter.run(None, 100);
    let text = "1.0".to_string();
    assert_eq!(first, Action::Ask(Request::Literal(&text)));
    assert_eq!(interpreter.run(None, 100), Action::Ask(Request::Literal(&text)));
    assert_eq!(interpreter.step(None), Action::Ask(Request::Literal(&text)));
    let two = "2.0".to_string();
    assert_eq!(interpreter.run(Some(1.0f64.to_bits()), 100), Action::Ask(Request::Literal(&two)));
    let sum = Request::Compute { operation: Arithmetic::Add, left: 1.0f64.to_bits(), right: 2.0f64.to_bits() };
    assert_eq!(interpreter.run(Some(2.0f64.to_bits()), 100), Action::Ask(sum));
    assert_eq!(interpreter.run(Some(3.0f64.to_bits()), 100), Action::Print(Output::Number(3.0f64.to_bits())));
    assert_eq!(interpreter.run(None, 100), Action::Finished);
    assert_eq!(interpreter.run(Some(7), 100), Action::Finished);
}

#[test]
fn an_answer_that_nothing_waits_for_is_ignored() {
    let statements = parse("print \"a\";");
    let mut interpreter = Interpreter::new();
    interpreter.interpret(&statements);
    assert_eq!(interpreter.run(Some(42), 100), Action::Print(Output::Text("a".to_string())));
    assert_eq!(interpreter.run(Some(42), 100), Action::Finished);
}

#[test]
fn run_stops_when_the_fuel_is_spent() {
    let statements = parse("while (true) {}");
    let mut interpreter = Interpreter::new();
    interpreter.interpret(&statements);
    for _ in 0..50 {
        assert_eq!(interpreter.run(None, 7), Action::Continue);
    }
    assert_eq!(interpreter.run(None, 0), Action::Continue);
}

#[test]
fn one_step_at_a_time() {
    let statements = parse("print nil;");
    let mut interpreter = Interpreter::new();
    assert_eq!(interpreter.step(None), Action::Finished);
    interpreter.interpret(&statements);
    assert_eq!(interpreter.tasks.len(), 1);
    assert_eq!(interpreter.step(None), Action::Continue);
    assert_eq!(interpreter.step(None), Action::Continue);
    assert_eq!(interpreter.step(None), Action::Continue);
    assert_eq!(interpreter.values.len(), 1);
    assert_eq!(interpreter.step(None), Action::Print(Output::Text("nil".to_string())));
    assert_eq!(interpreter.step(None), Action::Continue);
    assert_eq!(interpreter.step(None), Action::Finished);
}

#[test]
fn a_return_outside_every_call_stops_the_evaluation() {
    let statements = parse("print 1; return \"x\"; print 2;");
    let mut interpreter = Interpreter::new();
    interpreter.set_status("run").unwrap();
    interpreter.interpret(&statements);
    assert_eq!(interpreter.run(None, 100), Action::Ask(Request::Literal(&"1.0".to_string())));
    assert_eq!(interpreter.run(Some(1.0f64.to_bits()), 100), Action::Print(Output::Number(1.0f64.to_bits())));
    let action = interpreter.run(None, 100);
    assert_eq!(
        action,
        Action::Failed(RuntimeError::Return(my_ast_interpreter::ExprValue::String("x".to_string())))
    );
    match action {
        Action::Failed(error) => assert_eq!(error.describe(), None),
        _ => unreachable!(),
    }
    assert_eq!(interpreter.run(None, 100), Action::Finished);
}

#[test]
fn blocks_open_frames_and_leave_them() {
    let statements = parse("{ var a = 1; { var b = 2; } }");
    let mut interpreter = Interpreter::new();
    interpreter.interpret(&statements);
    let mut deepest = 0;
    let mut reply = None;
    loop {
        match interpreter.step(reply.take()) {
            Action::Finished => break,
            Action::Ask(request) => reply = Some(answer(&request)),
            _ => {}
        }
        if interpreter.environment > deepest {
            deepest = interpreter.environment;
        }
    }
    assert_eq!(deepest, 2);
    assert_eq!(interpreter.environment, 0);
    assert_eq!(interpreter.frames.len(), 3);
    assert_eq!(interpreter.frames.frames[1].enclosing, Some(0));
    assert_eq!(interpreter.frames.frames[2].enclosing, Some(1));
}

#[test]
fn eval_block_stmt_enters_a_given_frame() {
    let statements = parse("print a;");
    let mut interpreter = Interpreter::new();
    let frame = interpreter.frames.with_enclosing(0);
    interpreter.frames.define(frame, "a".to_string(), my_ast_interpreter::ExprValue::Bool(true));
    {
        let mut resolver = Resolver::new(&mut interpreter);
        resolver.resolve(&statements).unwrap();
    }
    assert_eq!(interpreter.eval_block_stmt(&statements, Some(frame)), Action::Continue);
    assert_eq!(interpreter.environment, frame);
    assert!(matches!(interpreter.run(None, 100), Action::Failed(_)));

    let mut interpreter = Interpreter::new();
    assert!(matches!(interpreter.eval_block_stmt(&statements, Some(5)), Action::Failed(_)));
}

#[test]
fn a_binding_table_that_points_nowhere_is_an_inconsistency() {
    let statements = parse("a; a = nil;");
    let site = match &statements[0] {
        Stmt::Expression(my_ast_interpreter::Expr::Variable(id, _)) => *id,
        other => panic!("unexpected statement {:?}", other),
    };
    let inconsistent = RuntimeError::Inconsistent;

    let mut interpreter = Interpreter::new();
    interpreter.resolve(site, 0);
    interpreter.interpret(&statements);
    assert_eq!(interpreter.run(None, 100), Action::Failed(inconsistent));

    let inconsistent = RuntimeError::Inconsistent;
    let mut interpreter = Interpreter::new();
    interpreter.frames.define(0, "a".to_string(), my_ast_interpreter::ExprValue::Nil);
    interpreter.resolve(2, 3);
    interpreter.set_status("run").unwrap();
    interpreter.interpret(&statements);
    assert_eq!(interpreter.run(None, 100), Action::Failed(inconsistent));
}

#[test]
fn declarations_in_a_block_and_in_calls_inside_it_stay_inside() {
    assert_eq!(
        run(
            "var a = \"global\"; fun f() { var a = \"called\"; print a; } \
             { var a = \"local\"; f(); { fun g() { var a = \"deep\"; print a; } g(); } print a; } print a;"
        ),
        vec!["called", "deep", "local", "global"]
    );
    assert_eq!(run("var a = 1; { var a = 2; while (a < 4) { var b = a; a = b + 1; } } print a;"), vec!["1"]);
}

#[test]
fn writes_through_a_closure_stay_after_the_call_returns() {
    assert_eq!(run("var n = 0; fun bump() { n = n + 1; } bump(); bump(); print n;"), vec!["2"]);
    assert_eq!(
        run(
            "fun counter() { var c = 0; fun inc() { c = c + 1; return c; } return inc; } \
             var i = counter(); i(); { var c = 10; i(); print c; } print i();"
        ),
        vec!["10", "3"]
    );
}

#[test]
fn an_inconsistency_is_no_error_of_the_program() {
    assert_eq!(
        RuntimeError::Inconsistent.describe(),
        Some("Internal Error: The evaluator's state is inconsistent.".to_string())
    );
    let (_, report) = fails("print missing;");
    assert_eq!(report, "[line 1] Runtime Error: Undefined variable 'missing'.");
}
