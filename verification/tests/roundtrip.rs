use my_ast_interpreter::{ParseError, Parser, Scanner, Stmt};

fn parse(source: &str) -> Result<Vec<Stmt>, ParseError> {
    let (tokens, errors) = Scanner::new(source.to_string()).scan_tokens();
    assert!(errors.is_empty(), "lexical errors: {:?}", errors);
    Parser::new(tokens).parse()
}

/// The statements of the source and those of their canonical rendering.
fn both(source: &str) -> (Vec<Stmt>, Result<Vec<Stmt>, ParseError>) {
    let first = parse(source).unwrap();
    assert_eq!(first.len(), 1);
    let printed = first[0].render();
    let second = parse(&printed);
    (first, second)
}

#[test]
fn literals_and_names_parse_back_to_themselves() {
    for source in ["true", "false", "nil", "a", "12", "12.50", "007"] {
        let (first, second) = both(source);
        assert_eq!(second, Ok(first), "{}", source);
    }
}

#[test]
fn calls_and_assignments_parse_back_to_themselves() {
    for source in ["f()", "f(a, 1)", "f(a)(b)(nil, true)", "a = 1", "a = b = f(2)"] {
        let (first, second) = both(source);
        assert_eq!(second, Ok(first), "{}", source);
    }
}

#[test]
fn the_rendering_is_stable_where_it_parses_back() {
    for source in ["f(a, 1.0)", "a = b", "x"] {
        let first = parse(source).unwrap();
        let printed = first[0].render();
        assert_eq!(printed, source);
        assert_eq!(parse(&printed).unwrap()[0].render(), printed);
    }
}

#[test]
fn a_unary_operation_parses_back_inside_a_grouping() {
    let (first, second) = both("-a");
    assert_eq!(first[0].render(), "(- a)");
    assert_eq!(second.unwrap()[0].render(), "(group (- a))");
}

#[test]
fn a_binary_operation_does_not_parse_back() {
    let (first, second) = both("1 + 2");
    assert_eq!(first[0].render(), "(+ 1.0 2.0)");
    assert_eq!(
        second,
        Err(ParseError("[line 1] Parse Error: Expected valid primary expression. Received '+'.".to_string()))
    );
}

#[test]
fn a_grouping_does_not_parse_back() {
    let (first, second) = both("(a)");
    assert_eq!(first[0].render(), "(group a)");
    assert_eq!(second, Err(ParseError("Expect ')' after expression.".to_string())));
}

#[test]
fn a_string_parses_back_as_something_else() {
    let (first, second) = both("\"text\"");
    assert_eq!(first[0].render(), "text");
    assert_ne!(second, Ok(first));
}

/// The rendering of the one statement of the source, the statements that
/// the rendering parses to, and the rendering of the first of them.
fn twice(source: &str) -> (String, Vec<Stmt>, String) {
    let first = parse(source).unwrap();
    assert_eq!(first.len(), 1);
    let printed = first[0].render();
    let second = parse(&printed).unwrap();
    let again = second[0].render();
    (printed, second, again)
}

#[test]
fn unary_operations_parse_back_inside_groupings() {
    for source in ["-1", "!a", "!!nil", "-f(1)", "a = -b", "f(-1, !x)"] {
        let first = parse(source).unwrap();
        let printed = first[0].render();
        let second = parse(&printed).unwrap();
        assert_eq!(second.len(), 1, "{}", source);
        assert_eq!(second[0].render().replace("(group ", "").matches('(').count(), printed.matches('(').count());
    }
    let (printed, _, again) = twice("a = -b");
    assert_eq!(printed, "a = (- b)");
    assert_eq!(again, "a = (group (- b))");
}

#[test]
fn if_and_while_parse_back_alike() {
    for source in [
        "if (a) b;",
        "if (a) { b; c = 1; } else f(2);",
        "if (a) {} else {}",
        "while (a) { if (b) c; d; }",
        "while (f(1)) x = g(x, 2);",
        "if (a) if (b) c; else d;",
    ] {
        let (printed, second, again) = twice(source);
        assert_eq!(second.len(), 1, "{}", source);
        assert_eq!(again, printed, "{}", source);
    }
}

#[test]
fn branches_parse_back_as_blocks() {
    let (printed, second, _) = twice("if (a) b; else c;");
    assert_eq!(printed, "if (a) {\nb\n} else {\nc}\n");
    match &second[0] {
        Stmt::If { then_branch, else_branch, .. } => {
            assert!(matches!(&**then_branch, Stmt::Block(list) if list.len() == 1));
            assert!(matches!(else_branch.as_deref(), Some(Stmt::Block(list)) if list.len() == 1));
        }
        other => panic!("unexpected statement {:?}", other),
    }
}

#[test]
fn tokens_of_a_rendering_are_on_the_lines_of_the_rendering() {
    let first = parse("while (a) { b; c; }").unwrap();
    let printed = first[0].render();
    assert_eq!(printed, "while (a) {\nb\nc\n}\n");
    let (tokens, errors) = Scanner::new(printed).scan_tokens();
    assert!(errors.is_empty());
    let lines: Vec<usize> = tokens.iter().map(|token| token.line).collect();
    assert_eq!(lines, vec![1, 1, 1, 1, 1, 2, 3, 4, 5]);
}

#[test]
fn a_statement_that_starts_with_a_parenthesis_joins_the_expression_before_it() {
    let (printed, second, _) = twice("if (a) { b; -c; }");
    assert_eq!(printed, "if (a) {\nb\n(- c)\n}\n");
    match &second[0] {
        Stmt::If { then_branch, .. } => match &**then_branch {
            Stmt::Block(list) => {
                assert_eq!(list.len(), 1);
                assert_eq!(list[0].render(), "b((- c))");
            }
            other => panic!("unexpected branch {:?}", other),
        },
        other => panic!("unexpected statement {:?}", other),
    }
}

#[test]
fn a_for_loop_prints_as_a_while_loop() {
    let (printed, second, again) = twice("for (; a;) b;");
    assert_eq!(printed, "while (a) {\nb\n}\n");
    assert_eq!(second.len(), 1);
    assert_eq!(again, printed);
}

#[test]
fn print_and_var_statements_do_not_parse_back() {
    let first = parse("print 1 + 2;").unwrap();
    assert_eq!(first[0].render(), "(+ 1.0 2.0)");
    assert!(parse(&first[0].render()).is_err());
    let first = parse("var a = 1;").unwrap();
    assert_eq!(first[0].render(), "a = 1.0");
    assert!(matches!(&parse(&first[0].render()).unwrap()[0], Stmt::Expression(_)));
}

#[test]
fn a_function_without_parameters_parses_back_alike() {
    let (printed, second, again) = twice("fun f() { g(); }");
    assert_eq!(printed, "fun f() {\ng()}");
    assert_eq!(second.len(), 1);
    assert_eq!(again, printed);
    match &second[0] {
        Stmt::Function { name, params, body } => {
            assert_eq!(name.lexeme, "f");
            assert!(params.is_empty());
            assert!(matches!(&**body, Stmt::Block(list) if list.len() == 1));
        }
        other => panic!("unexpected statement {:?}", other),
    }
}

#[test]
fn function_bodies_of_the_fragment_parse_back_alike() {
    for source in [
        "fun f() {}",
        "fun f() { a; b = 1; }",
        "fun f() { if (a) b; else { c; } while (d) e(); }",
        "fun f() { fun g() { h(); } g(); }",
        "if (a) { fun f() { b; } f(); }",
        "while (a) { fun f() {} }",
    ] {
        let (printed, second, again) = twice(source);
        assert_eq!(second.len(), 1, "{}", source);
        assert_eq!(again, printed, "{}", source);
    }
    let (printed, _, _) = twice("fun f() {}");
    assert_eq!(printed, "fun f() {\n}");
}

#[test]
fn a_function_with_parameters_does_not_parse_back() {
    let first = parse("fun f(a) { a; }").unwrap();
    let printed = first[0].render();
    assert_ne!(parse(&printed), Ok(first));
}

#[test]
fn loops_written_as_for_parse_back_alike() {
    let (printed, second, again) = twice("for (;;) a;");
    assert_eq!(printed, "while (true) {\na\n}\n");
    assert_eq!(second.len(), 1);
    assert_eq!(again, printed);
    let (printed, second, again) = twice("for (; a; b = c) { d; }");
    assert_eq!(printed, "while (a) {\nd\nb = c\n}\n");
    assert_eq!(second.len(), 1);
    assert_eq!(again, printed);
    let (printed, second, again) = twice("if (a) for (i = 0; i; i = f(i)) g(i);");
    assert_eq!(printed, "if (a) {\ni = 0.0\nwhile (i) {\ng(i)\ni = f(i)\n}\n\n}\n");
    assert_eq!(second.len(), 1);
    assert_eq!(again, printed);
}

#[test]
fn statements_beside_a_for_loop_parse_back_alike() {
    let first = parse("for (var i = 0; i; i = i) print i; if (a) b; while (c) d;").unwrap();
    assert_eq!(first.len(), 3);
    for index in [1, 2] {
        let printed = first[index].render();
        let second = parse(&printed).unwrap();
        assert_eq!(second.len(), 1);
        assert_eq!(second[0].render(), printed);
    }
}

#[test]
fn braces_around_one_statement_are_lost_in_printing() {
    let (printed, second, again) = twice("{ f(); }");
    assert_eq!(printed, "f()");
    assert_eq!(second.len(), 1);
    assert!(matches!(&second[0], Stmt::Expression(_)));
    assert_eq!(again, printed);
    let (printed, second, again) = twice("if (a) { { b; } c; }");
    assert_eq!(printed, "if (a) {\nb\nc\n}\n");
    assert_eq!(second.len(), 1);
    assert_eq!(again, printed);
    let (printed, second, again) = twice("{ { while (a) b; } }");
    assert_eq!(printed, "while (a) {\nb\n}\n");
    assert_eq!(second.len(), 1);
    assert_eq!(again, printed);
}

#[test]
fn a_block_of_several_statements_prints_as_several_statements() {
    let first = parse("{ a; b; }").unwrap();
    assert_eq!(first.len(), 1);
    assert_eq!(first[0].render(), "a\nb");
    assert_eq!(parse(&first[0].render()).unwrap().len(), 2);
    let first = parse("{}").unwrap();
    assert_eq!(first[0].render(), "");
    assert_eq!(parse(&first[0].render()).unwrap().len(), 0);
}
