use my_ast_interpreter::{Expr, ParseError, Parser, Scanner, Stmt, Token, TokenType};

fn tokens_of(source: &str) -> Vec<Token> {
    let (tokens, errors) = Scanner::new(source.to_string()).scan_tokens();
    assert!(errors.is_empty());
    tokens
}

fn parse(source: &str) -> Result<Vec<Stmt>, ParseError> {
    Parser::new(tokens_of(source)).parse()
}

fn rendered(source: &str) -> Vec<String> {
    parse(source).unwrap().iter().map(|statement| statement.render()).collect()
}

fn message(source: &str) -> String {
    match parse(source) {
        Ok(_) => panic!("the source was accepted"),
        Err(ParseError(message)) => message,
    }
}

#[test]
fn factor_binds_tighter_than_term() {
    assert_eq!(rendered("1 + 2 * 3"), vec!["(+ 1.0 (* 2.0 3.0))"]);
    assert_eq!(rendered("1 * 2 + 3"), vec!["(+ (* 1.0 2.0) 3.0)"]);
}

#[test]
fn grouping_overrides_precedence() {
    assert_eq!(rendered("(1 + 2) * 3"), vec!["(* (group (+ 1.0 2.0)) 3.0)"]);
}

#[test]
fn binary_operators_associate_to_the_left() {
    assert_eq!(rendered("1 - 2 - 3"), vec!["(- (- 1.0 2.0) 3.0)"]);
    assert_eq!(rendered("8 / 4 / 2"), vec!["(/ (/ 8.0 4.0) 2.0)"]);
    assert_eq!(rendered("1 < 2 == true"), vec!["(== (< 1.0 2.0) true)"]);
}

#[test]
fn comparison_binds_tighter_than_equality() {
    assert_eq!(rendered("1 == 2 < 3"), vec!["(== 1.0 (< 2.0 3.0))"]);
    assert_eq!(rendered("1 != 2 >= 3"), vec!["(!= 1.0 (>= 2.0 3.0))"]);
}

#[test]
fn unary_operators_nest() {
    assert_eq!(rendered("!!true"), vec!["(! (! true))"]);
    assert_eq!(rendered("-1 - -2"), vec!["(- (- 1.0) (- 2.0))"]);
}

#[test]
fn assignment_associates_to_the_right() {
    let statements = parse("a = b = 1;").unwrap();
    match &statements[0] {
        Stmt::Expression(Expr::Assign(_, name, value)) => {
            assert_eq!(name.lexeme, "a");
            match &**value {
                Expr::Assign(_, inner, number) => {
                    assert_eq!(inner.lexeme, "b");
                    assert_eq!(**number, Expr::Number("1.0".to_string()));
                }
                other => panic!("unexpected value {:?}", other),
            }
        }
        other => panic!("unexpected statement {:?}", other),
    }
    assert_eq!(rendered("a = b = 1;"), vec!["a = b = 1.0"]);
}

#[test]
fn assignment_target_must_be_a_variable() {
    assert_eq!(message("1 = 2;"), "[line 1] Invalid assignment target 2.0");
    assert_eq!(message("\n\n(a) = 3;"), "[line 3] Invalid assignment target 3.0");
    assert_eq!(message("a + b = c;"), "[line 1] Invalid assignment target c");
}

#[test]
fn logical_operators_or_below_and() {
    let statements = parse("a or b and c;").unwrap();
    match &statements[0] {
        Stmt::Expression(Expr::Logical { operator, right, .. }) => {
            assert_eq!(operator.token_type, TokenType::OR);
            match &**right {
                Expr::Logical { operator, .. } => assert_eq!(operator.token_type, TokenType::AND),
                other => panic!("unexpected operand {:?}", other),
            }
        }
        other => panic!("unexpected statement {:?}", other),
    }
    assert_eq!(rendered("a or b"), vec!["a OR or null b"]);
}

#[test]
fn variable_sites_are_numbered_by_their_token() {
    let statements = parse("a; a; b = a;").unwrap();
    let ids: Vec<usize> = statements
        .iter()
        .map(|statement| match statement {
            Stmt::Expression(Expr::Variable(id, _)) => *id,
            Stmt::Expression(Expr::Assign(id, _, _)) => *id,
            other => panic!("unexpected statement {:?}", other),
        })
        .collect();
    assert_eq!(ids, vec![0, 2, 4]);
    match &statements[2] {
        Stmt::Expression(Expr::Assign(_, _, value)) => match &**value {
            Expr::Variable(id, name) => {
                assert_eq!(*id, 6);
                assert_eq!(name.lexeme, "a");
            }
            other => panic!("unexpected value {:?}", other),
        },
        other => panic!("unexpected statement {:?}", other),
    }
}

#[test]
fn calls_chain() {
    assert_eq!(rendered("f(1)(2, 3)();"), vec!["f(1.0)(2.0, 3.0)()"]);
    let statements = parse("f(a)(b);").unwrap();
    match &statements[0] {
        Stmt::Expression(Expr::Call { callee, paren, arguments }) => {
            assert_eq!(arguments.len(), 1);
            assert_eq!(paren.token_type, TokenType::RIGHTPAREN);
            assert!(matches!(&**callee, Expr::Call { .. }));
        }
        other => panic!("unexpected statement {:?}", other),
    }
}

fn call_with_arguments(count: usize) -> String {
    let mut source = "f(".to_string();
    for i in 0..count {
        if i > 0 {
            source.push_str(", ");
        }
        source.push('1');
    }
    source.push_str(");");
    source
}

#[test]
fn a_call_takes_at_most_255_arguments() {
    let statements = parse(&call_with_arguments(255)).unwrap();
    match &statements[0] {
        Stmt::Expression(Expr::Call { arguments, .. }) => assert_eq!(arguments.len(), 255),
        other => panic!("unexpected statement {:?}", other),
    }
    assert_eq!(message(&call_with_arguments(256)), "Can't have more than 255 arguments");
}

#[test]
fn a_function_takes_at_most_255_parameters() {
    let declaration = |count: usize| {
        let names: Vec<String> = (0..count).map(|i| format!("p{}", i)).collect();
        format!("fun f({}) {{}}", names.join(", "))
    };
    match &parse(&declaration(255)).unwrap()[0] {
        Stmt::Function { params, .. } => assert_eq!(params.len(), 255),
        other => panic!("unexpected statement {:?}", other),
    }
    assert_eq!(message(&declaration(256)), "Can't have more than 255 parameters.");
}

#[test]
fn missing_semicolon_after_expression_or_print_is_tolerated() {
    assert_eq!(rendered("1 + 2"), vec!["(+ 1.0 2.0)"]);
    assert_eq!(rendered("print 1 print 2"), vec!["1.0", "2.0"]);
    assert_eq!(parse("print \"a\"").unwrap().len(), 1);
}

#[test]
fn missing_semicolon_after_declaration_is_an_error() {
    assert_eq!(message("var a = 1"), "Expect ';' after variable declaration.");
    assert_eq!(message("var = 1;"), "Expect variable name.");
    assert_eq!(message("fun f() { return 1 }"), "Expect ';' after return value.");
}

#[test]
fn primary_expression_is_required() {
    assert_eq!(
        message("1 + ;"),
        "[line 1] Parse Error: Expected valid primary expression. Received ';'."
    );
    assert_eq!(
        message("print\n*"),
        "[line 2] Parse Error: Expected valid primary expression. Received '*'."
    );
    assert_eq!(message("(1 + 2"), "Expect ')' after expression.");
}

#[test]
fn statement_errors() {
    assert_eq!(message("if 1) print 1;"), "Expect '(' after 'if'.");
    assert_eq!(message("if (1 print 1;"), "Expect ')' after 'if' condition.");
    assert_eq!(message("while 1) print 1;"), "Expect '(' after 'while'.");
    assert_eq!(message("while (1 print 1;"), "Expect ')' after 'while' condition.");
    assert_eq!(message("for var i = 0;;) {}"), "Expect '(' after 'for'.");
    assert_eq!(message("for (;1 {}"), "Expect ';' after 'for' loop condition.");
    assert_eq!(message("for (;;1 {}"), "Expect ')' after 'for' clauses.");
    assert_eq!(message("{ print 1;"), "Expect '}' after block.");
    assert_eq!(message("fun (a) {}"), "Expect function name.");
    assert_eq!(message("fun f a) {}"), "Expect '(' after function name.");
    assert_eq!(message("fun f(1) {}"), "Expect parameter name.");
    assert_eq!(message("fun f(a {}"), "Expect ')' after parameters.");
    assert_eq!(message("fun f(a) print a;"), "Expect '{' before function body.");
    assert_eq!(message("f(1;"), "Expect ')' after function arguments.");
}

#[test]
fn only_the_first_error_is_reported() {
    assert_eq!(message("var a = ; var = 2;"), "[line 1] Parse Error: Expected valid primary expression. Received ';'.");
}

#[test]
fn after_an_error_the_parser_stands_at_a_statement_boundary() {
    let mut parser = Parser::new(tokens_of("var a = + 1; print 2;"));
    assert!(parser.parse().is_err());
    assert_eq!(parser.tokens[parser.current].token_type, TokenType::PRINT);
    let rest = parser.parse().unwrap();
    assert_eq!(rest.len(), 1);
    assert_eq!(rest[0].render(), "2.0");

    let mut parser = Parser::new(tokens_of("(1 + 2 x var b;"));
    assert!(parser.parse().is_err());
    assert_eq!(parser.tokens[parser.current].token_type, TokenType::VAR);
}

#[test]
fn variable_declaration_defaults_to_nil() {
    match &parse("var a;").unwrap()[0] {
        Stmt::Var(name, initializer) => {
            assert_eq!(name.lexeme, "a");
            assert_eq!(*initializer, Expr::Nil);
        }
        other => panic!("unexpected statement {:?}", other),
    }
}

#[test]
fn if_with_and_without_else() {
    match &parse("if (a) print 1; else print 2;").unwrap()[0] {
        Stmt::If { else_branch, .. } => assert!(else_branch.is_some()),
        other => panic!("unexpected statement {:?}", other),
    }
    match &parse("if (a) print 1;").unwrap()[0] {
        Stmt::If { else_branch, .. } => assert!(else_branch.is_none()),
        other => panic!("unexpected statement {:?}", other),
    }
    assert_eq!(rendered("if (a) print 1; else print 2;"), vec!["if (a) {\n1.0\n} else {\n2.0}\n"]);
}

#[test]
fn else_belongs_to_the_nearest_if() {
    match &parse("if (a) if (b) print 1; else print 2;").unwrap()[0] {
        Stmt::If { then_branch, else_branch, .. } => {
            assert!(else_branch.is_none());
            assert!(matches!(&**then_branch, Stmt::If { else_branch: Some(_), .. }));
        }
        other => panic!("unexpected statement {:?}", other),
    }
}

#[test]
fn for_loop_becomes_a_while_loop_in_a_block() {
    let statements = parse("for (var i = 0; i < 3; i = i + 1) print i;").unwrap();
    assert_eq!(statements.len(), 1);
    match &statements[0] {
        Stmt::Block(outer) => {
            assert_eq!(outer.len(), 2);
            assert!(matches!(&outer[0], Stmt::Var(name, Expr::Number(text)) if name.lexeme == "i" && text == "0.0"));
            match &outer[1] {
                Stmt::While { condition, body } => {
                    assert_eq!(condition.render(), "(< i 3.0)");
                    match &**body {
                        Stmt::Block(inner) => {
                            assert_eq!(inner.len(), 2);
                            assert!(matches!(&inner[0], Stmt::Print(_)));
                            assert!(matches!(&inner[1], Stmt::Expression(Expr::Assign(..))));
                            assert_eq!(inner[1].render(), "i = (+ i 1.0)");
                        }
                        other => panic!("unexpected body {:?}", other),
                    }
                }
                other => panic!("unexpected statement {:?}", other),
            }
        }
        other => panic!("unexpected statement {:?}", other),
    }
}

#[test]
fn for_loop_with_a_block_body_appends_the_increment_to_it() {
    match &parse("for (; a; a = b) { print 1; print 2; }").unwrap()[0] {
        Stmt::While { body, .. } => match &**body {
            Stmt::Block(inner) => {
                assert_eq!(inner.len(), 3);
                assert!(matches!(&inner[2], Stmt::Expression(Expr::Assign(..))));
            }
            other => panic!("unexpected body {:?}", other),
        },
        other => panic!("unexpected statement {:?}", other),
    }
}

#[test]
fn for_loop_without_clauses_loops_on_true() {
    match &parse("for (;;) print 1;").unwrap()[0] {
        Stmt::While { condition, body } => {
            assert_eq!(*condition, Expr::Bool(true));
            match &**body {
                Stmt::Block(inner) => assert_eq!(inner.len(), 1),
                other => panic!("unexpected body {:?}", other),
            }
        }
        other => panic!("unexpected statement {:?}", other),
    }
}

#[test]
fn for_loop_initializer_may_be_an_expression() {
    match &parse("for (i = 0; i < 1;) {}").unwrap()[0] {
        Stmt::Block(outer) => {
            assert!(matches!(&outer[0], Stmt::Expression(Expr::Assign(..))));
            assert!(matches!(&outer[1], Stmt::While { .. }));
        }
        other => panic!("unexpected statement {:?}", other),
    }
}

#[test]
fn function_declaration_holds_name_parameters_and_body() {
    match &parse("fun add(a, b) { return a + b; }").unwrap()[0] {
        Stmt::Function { name, params, body } => {
            assert_eq!(name.lexeme, "add");
            assert_eq!(params.len(), 2);
            assert_eq!(params[1].lexeme, "b");
            match &**body {
                Stmt::Block(inner) => {
                    assert_eq!(inner.len(), 1);
                    assert!(matches!(&inner[0], Stmt::Return(keyword, Some(_)) if keyword.token_type == TokenType::RETURN));
                }
                other => panic!("unexpected body {:?}", other),
            }
        }
        other => panic!("unexpected statement {:?}", other),
    }
    assert_eq!(
        rendered("fun add(a, b) { return a + b; }"),
        vec!["fun add(IDENTIFIER a null, IDENTIFIER b null) {\n(+ a b)}"]
    );
}

#[test]
fn return_without_value() {
    match &parse("fun f() { return; }").unwrap()[0] {
        Stmt::Function { body, .. } => match &**body {
            Stmt::Block(inner) => assert!(matches!(&inner[0], Stmt::Return(_, None))),
            other => panic!("unexpected body {:?}", other),
        },
        other => panic!("unexpected statement {:?}", other),
    }
}

#[test]
fn statements_render_canonically() {
    assert_eq!(rendered("var a = 1;"), vec!["a = 1.0"]);
    assert_eq!(rendered("print \"hi\";"), vec!["hi"]);
    assert_eq!(rendered("{ 1; 2; }"), vec!["1.0\n2.0"]);
    assert_eq!(rendered("while (a) b;"), vec!["while (a) {\nb\n}\n"]);
    assert_eq!(rendered("nil; true; false;"), vec!["nil", "true", "false"]);
    assert_eq!(rendered("-a;"), vec!["(- a)"]);
}

#[test]
fn literal_token_without_payload_is_passed_over() {
    let tokens = vec![
        Token::new(TokenType::NUMBER, "1".to_string(), None, 1),
        Token::new(TokenType::IDENTIFIER, "a".to_string(), None, 1),
        Token::new(TokenType::EOF, String::new(), None, 1),
    ];
    let statements = Parser::new(tokens).parse().unwrap();
    assert_eq!(statements.len(), 1);
    assert!(matches!(&statements[0], Stmt::Expression(Expr::Variable(1, _))));
}

#[test]
fn empty_program() {
    assert_eq!(parse("").unwrap().len(), 0);
    assert_eq!(parse("// nothing").unwrap().len(), 0);
}
