use my_ast_interpreter::{Environment, ExprValue, RuntimeError, Token, TokenType};

fn name(text: &str, line: usize) -> Token {
    Token::new(TokenType::IDENTIFIER, text.to_string(), None, line)
}

fn text(value: &str) -> ExprValue<'static> {
    ExprValue::String(value.to_string())
}

#[test]
fn a_new_arena_holds_the_empty_global_frame() {
    let environment = Environment::new();
    assert_eq!(environment.len(), 1);
    assert!(environment.get(0, &name("a", 1)).is_err());
}

#[test]
fn define_then_get() {
    let mut environment = Environment::new();
    environment.define(0, "a".to_string(), ExprValue::Number(7));
    assert_eq!(environment.get(0, &name("a", 1)), Ok(ExprValue::Number(7)));
}

#[test]
fn define_overwrites_within_the_frame() {
    let mut environment = Environment::new();
    environment.define(0, "a".to_string(), text("first"));
    environment.define(0, "a".to_string(), text("second"));
    assert_eq!(environment.get(0, &name("a", 1)), Ok(text("second")));
    assert_eq!(environment.frames[0].table.names.len(), 1);
}

#[test]
fn get_walks_the_enclosing_frames() {
    let mut environment = Environment::new();
    environment.define(0, "a".to_string(), text("global"));
    let inner = environment.with_enclosing(0);
    let innermost = environment.with_enclosing(inner);
    assert_eq!(inner, 1);
    assert_eq!(innermost, 2);
    assert_eq!(environment.get(innermost, &name("a", 1)), Ok(text("global")));
}

#[test]
fn inner_declaration_shadows_and_leaves_the_outer_binding() {
    let mut environment = Environment::new();
    environment.define(0, "a".to_string(), text("global"));
    let inner = environment.with_enclosing(0);
    environment.define(inner, "a".to_string(), text("local"));
    assert_eq!(environment.get(inner, &name("a", 1)), Ok(text("local")));
    assert_eq!(environment.get(0, &name("a", 1)), Ok(text("global")));
}

#[test]
fn undefined_variable_is_reported_with_name_and_line() {
    let environment = Environment::new();
    assert_eq!(
        environment.get(0, &name("missing", 12)),
        Err(RuntimeError::RTE {
            token: "missing".to_string(),
            message: "Undefined variable 'missing'.".to_string(),
            line: 12,
        })
    );
}

#[test]
fn a_frame_does_not_see_its_children() {
    let mut environment = Environment::new();
    let inner = environment.with_enclosing(0);
    environment.define(inner, "a".to_string(), ExprValue::Nil);
    assert!(environment.get(0, &name("a", 1)).is_err());
    assert_eq!(environment.get(inner, &name("a", 1)), Ok(ExprValue::Nil));
}

#[test]
fn assign_changes_the_nearest_binding() {
    let mut environment = Environment::new();
    environment.define(0, "a".to_string(), ExprValue::Number(1));
    let inner = environment.with_enclosing(0);
    assert_eq!(environment.assign(inner, &name("a", 1), ExprValue::Number(2)), Ok(()));
    assert_eq!(environment.get(0, &name("a", 1)), Ok(ExprValue::Number(2)));
    assert!(environment.frames[inner].table.names.is_empty());

    environment.define(inner, "a".to_string(), ExprValue::Number(3));
    assert_eq!(environment.assign(inner, &name("a", 1), ExprValue::Number(4)), Ok(()));
    assert_eq!(environment.get(inner, &name("a", 1)), Ok(ExprValue::Number(4)));
    assert_eq!(environment.get(0, &name("a", 1)), Ok(ExprValue::Number(2)));
}

#[test]
fn assign_never_creates_a_binding() {
    let mut environment = Environment::new();
    let inner = environment.with_enclosing(0);
    assert_eq!(
        environment.assign(inner, &name("a", 3), ExprValue::Nil),
        Err(RuntimeError::RTE {
            token: "a".to_string(),
            message: "Undefined variable 'a'".to_string(),
            line: 3,
        })
    );
    assert!(environment.get(inner, &name("a", 3)).is_err());
    assert!(environment.frames[0].table.names.is_empty());
}

#[test]
fn ancestor_counts_links() {
    let mut environment = Environment::new();
    let a = environment.with_enclosing(0);
    let b = environment.with_enclosing(a);
    let c = environment.with_enclosing(0);
    assert_eq!(environment.ancestor(b, 0), Some(b));
    assert_eq!(environment.ancestor(b, 1), Some(a));
    assert_eq!(environment.ancestor(b, 2), Some(0));
    assert_eq!(environment.ancestor(b, 3), None);
    assert_eq!(environment.ancestor(c, 1), Some(0));
    assert_eq!(environment.ancestor(9, 0), None);
}

#[test]
fn get_at_reads_exactly_one_frame() {
    let mut environment = Environment::new();
    environment.define(0, "a".to_string(), text("global"));
    let inner = environment.with_enclosing(0);
    environment.define(inner, "b".to_string(), text("local"));
    assert_eq!(environment.get_at(inner, 0, &name("b", 1)), Some(text("local")));
    assert_eq!(environment.get_at(inner, 1, &name("a", 1)), Some(text("global")));
    assert_eq!(environment.get_at(inner, 0, &name("a", 1)), None);
    assert_eq!(environment.get_at(inner, 1, &name("b", 1)), None);
    assert_eq!(environment.get_at(inner, 2, &name("a", 1)), None);
}

#[test]
fn assign_at_writes_exactly_one_frame() {
    let mut environment = Environment::new();
    environment.define(0, "a".to_string(), ExprValue::Number(1));
    let inner = environment.with_enclosing(0);
    environment.define(inner, "a".to_string(), ExprValue::Number(2));
    assert!(environment.assign_at(inner, 1, &name("a", 1), ExprValue::Number(10)));
    assert_eq!(environment.get_at(inner, 1, &name("a", 1)), Some(ExprValue::Number(10)));
    assert_eq!(environment.get_at(inner, 0, &name("a", 1)), Some(ExprValue::Number(2)));
    assert!(!environment.assign_at(inner, 2, &name("a", 1), ExprValue::Nil));
    assert_eq!(environment.get_at(inner, 1, &name("a", 1)), Some(ExprValue::Number(10)));
}

#[test]
fn holder_names_the_binding_frame() {
    let mut environment = Environment::new();
    environment.define(0, "a".to_string(), ExprValue::Nil);
    let inner = environment.with_enclosing(0);
    environment.define(inner, "b".to_string(), ExprValue::Nil);
    assert_eq!(environment.holder(inner, &"a".to_string()), Some(0));
    assert_eq!(environment.holder(inner, &"b".to_string()), Some(inner));
    assert_eq!(environment.holder(0, &"b".to_string()), None);
}
