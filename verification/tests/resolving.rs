use my_ast_interpreter::{BindingError, Expr, FunctionType, Interpreter, Parser, Resolver, Scanner, Stmt};

fn parse(source: &str) -> Vec<Stmt> {
    let (tokens, errors) = Scanner::new(source.to_string()).scan_tokens();
    assert!(errors.is_empty());
    Parser::new(tokens).parse().unwrap()
}

/// The binding table after resolving the source, as pairs of site and
/// distance in ascending order of the site.
fn distances(source: &str) -> Vec<(usize, usize)> {
    let statements = parse(source);
    let mut interpreter = Interpreter::new();
    {
        let mut resolver = Resolver::new(&mut interpreter);
        assert_eq!(resolver.resolve(&statements), Ok(()));
        assert!(resolver.scopes.is_empty());
        assert_eq!(resolver.current_function, FunctionType::TopLevel);
    }
    let mut pairs: Vec<(usize, usize)> = interpreter.locals.iter().map(|(id, depth)| (*id, *depth)).collect();
    pairs.sort();
    pairs
}

fn error(source: &str) -> BindingError {
    let statements = parse(source);
    let mut interpreter = Interpreter::new();
    let mut resolver = Resolver::new(&mut interpreter);
    match resolver.resolve(&statements) {
        Ok(()) => panic!("the source was accepted"),
        Err(error) => error,
    }
}

#[test]
fn reading_a_local_in_its_own_initializer_is_an_error() {
    let found = error("{ var a = a; }");
    assert_eq!(
        found,
        BindingError {
            token: "a".to_string(),
            message: "Can't read local variable in its own initializer",
            line: 1,
        }
    );
    assert_eq!(found.describe(), "[line 1] Binding Error: Can't read local variable in its own initializer : a");
}

#[test]
fn a_global_may_be_read_in_its_own_initializer() {
    assert_eq!(distances("var a = a;"), vec![]);
}

#[test]
fn shadowing_initializer_cannot_read_the_outer_variable() {
    assert_eq!(
        error("var a = 1;\n{\n  var a = a + 1;\n}").line,
        3
    );
}

#[test]
fn a_scope_declares_a_name_once() {
    assert_eq!(
        error("{ var a = 1;\n var a = 2; }"),
        BindingError {
            token: "a".to_string(),
            message: "Already a variable with this name in the current scope",
            line: 2,
        }
    );
    assert_eq!(error("fun f(a, a) {}").token, "a");
    assert_eq!(error("{ fun f() {} var f; }").token, "f");
    assert_eq!(distances("var a = 1; var a = 2;"), vec![]);
    assert_eq!(distances("{ var a = 1; { var a = 2; } }"), vec![]);
}

#[test]
fn return_outside_a_function_is_an_error() {
    assert_eq!(
        error("print 1;\nreturn 2;"),
        BindingError { token: String::new(), message: "Can't return from top-level code.", line: 2 }
    );
    assert_eq!(error("{ return; }").message, "Can't return from top-level code.");
    assert_eq!(error("fun f() {} if (true) return 1;").message, "Can't return from top-level code.");
    assert_eq!(distances("fun f() { return 1; }"), vec![]);
    assert_eq!(distances("fun f() { fun g() { return; } return g; }").len(), 1);
}

#[test]
fn globals_get_no_entry() {
    assert_eq!(distances("var a = 1; print a; a = 2; fun f() { print a; }"), vec![]);
}

#[test]
fn distance_counts_the_scopes_in_between() {
    // { var a = 1 ; print a ; { print a ; { a = 2 ; } } }
    // 0 1   2 3 4 5 6     7 8 9 10    11 12 13 14 ...
    assert_eq!(distances("{ var a = 1; print a; { print a; { a = 2; } } }"), vec![(7, 0), (11, 1), (14, 2)]);
}

#[test]
fn the_nearest_declaration_wins() {
    // { var a ; { var a ; a ; } a ; }
    // 0 1   2 3 4 5   6 7 8 9 10 11
    assert_eq!(distances("{ var a; { var a; a; } a; }"), vec![(8, 0), (11, 0)]);
}

#[test]
fn parameters_live_one_scope_outside_the_body() {
    // fun f ( a ) { print a ; }
    // 0   1 2 3 4 5 6     7
    assert_eq!(distances("fun f(a) { print a; }"), vec![(7, 1)]);
    // { var x ; fun f ( ) { x = 1 ; } }
    // 0 1   2 3 4   5 6 7 8 9
    assert_eq!(distances("{ var x; fun f() { x = 1; } }"), vec![(9, 2)]);
}

#[test]
fn a_function_may_call_itself() {
    // { fun f ( ) { f ( ) ; } }
    // 0 1   2 3 4 5 6
    assert_eq!(distances("{ fun f() { f(); } }"), vec![(6, 2)]);
}

#[test]
fn every_part_of_an_expression_is_resolved() {
    // { var a ; print - a + a * ( a ) ; a and a ; a ( a , a ) ; }
    let statements = parse("{ var a; print -a + a * (a); a and a; a(a, a); }");
    let mut interpreter = Interpreter::new();
    {
        let mut resolver = Resolver::new(&mut interpreter);
        assert_eq!(resolver.resolve(&statements), Ok(()));
    }
    assert_eq!(interpreter.locals.len(), 8);
    assert!(interpreter.locals.values().all(|depth| *depth == 0));
}

#[test]
fn the_first_error_ends_the_pass() {
    let statements = parse("{ var a; print a; var a; { var b = b; } }");
    let mut interpreter = Interpreter::new();
    {
        let mut resolver = Resolver::new(&mut interpreter);
        let found = resolver.resolve(&statements).unwrap_err();
        assert_eq!(found.message, "Already a variable with this name in the current scope");
        assert_eq!(resolver.scopes.len(), 1);
    }
    assert_eq!(interpreter.locals.len(), 1);
}

#[test]
fn the_resolver_writes_into_the_binding_table_only() {
    let statements = parse("{ var a; a; }");
    let mut interpreter = Interpreter::new();
    interpreter.resolve(99, 4);
    {
        let mut resolver = Resolver::new(&mut interpreter);
        resolver.resolve(&statements).unwrap();
    }
    assert_eq!(interpreter.locals.get(&99), Some(&4));
    assert_eq!(interpreter.locals.len(), 2);
    assert!(interpreter.tasks.is_empty());
    assert_eq!(interpreter.frames.len(), 1);
    match &statements[0] {
        Stmt::Block(inner) => match &inner[1] {
            Stmt::Expression(Expr::Variable(id, _)) => assert_eq!(interpreter.locals.get(id), Some(&0)),
            other => panic!("unexpected statement {:?}", other),
        },
        other => panic!("unexpected statement {:?}", other),
    }
}

#[test]
fn a_pass_that_succeeds_leaves_no_scope_open() {
    let statements = parse("fun f(a) { { var b = a; fun g() { return b; } } if (a) { var c = 1; } } { { f(1); } }");
    let mut interpreter = Interpreter::new();
    let mut resolver = Resolver::new(&mut interpreter);
    assert_eq!(resolver.resolve(&statements), Ok(()));
    assert!(resolver.scopes.is_empty());
    assert_eq!(resolver.current_function, FunctionType::TopLevel);
}

#[test]
fn a_pass_that_fails_stops_where_it_is() {
    let statements = parse("fun f() { { var a = a; } }");
    let mut interpreter = Interpreter::new();
    let mut resolver = Resolver::new(&mut interpreter);
    assert!(resolver.resolve(&statements).is_err());
    assert_eq!(resolver.scopes.len(), 3);
    assert_eq!(resolver.current_function, FunctionType::Function);
}
