use my_ast_interpreter::{Scanner, Token, TokenLiteral, TokenType};

fn scan(source: &str) -> (Vec<Token>, Vec<String>) {
    Scanner::new(source.to_string()).scan_tokens()
}

fn kinds(source: &str) -> Vec<TokenType> {
    scan(source).0.iter().map(|token| token.token_type).collect()
}

fn lexemes(source: &str) -> Vec<String> {
    scan(source).0.iter().map(|token| token.lexeme.clone()).collect()
}

#[test]
fn empty_source_yields_only_the_end_token() {
    let (tokens, errors) = scan("");
    assert!(errors.is_empty());
    assert_eq!(tokens, vec![Token::new(TokenType::EOF, String::new(), None, 1)]);
}

#[test]
fn punctuation_is_scanned_one_by_one() {
    assert_eq!(
        kinds("(){},.-+;*/"),
        vec![
            TokenType::LEFTPAREN,
            TokenType::RIGHTPAREN,
            TokenType::LEFTBRACE,
            TokenType::RIGHTBRACE,
            TokenType::COMMA,
            TokenType::DOT,
            TokenType::MINUS,
            TokenType::PLUS,
            TokenType::SEMICOLON,
            TokenType::STAR,
            TokenType::SLASH,
            TokenType::EOF,
        ]
    );
}

#[test]
fn two_character_operators_win_over_their_prefixes() {
    assert_eq!(
        kinds("! != = == < <= > >="),
        vec![
            TokenType::BANG,
            TokenType::NOTEQUAL,
            TokenType::ASSIGN,
            TokenType::EQUAL,
            TokenType::LESS,
            TokenType::LESSEQUAL,
            TokenType::GREATER,
            TokenType::GREATEREQUAL,
            TokenType::EOF,
        ]
    );
    assert_eq!(lexemes("<=>"), vec!["<=", ">", ""]);
    assert_eq!(kinds("==="), vec![TokenType::EQUAL, TokenType::ASSIGN, TokenType::EOF]);
}

#[test]
fn comments_run_to_the_end_of_the_line() {
    let (tokens, errors) = scan("1 // two three\n4");
    assert!(errors.is_empty());
    assert_eq!(tokens.len(), 3);
    assert_eq!(tokens[0].lexeme, "1");
    assert_eq!(tokens[1].lexeme, "4");
    assert_eq!(tokens[1].line, 2);
    assert_eq!(kinds("// only a comment"), vec![TokenType::EOF]);
}

#[test]
fn lines_are_counted() {
    let (tokens, _) = scan("a\nb\n\nc");
    assert_eq!(tokens[0].line, 1);
    assert_eq!(tokens[1].line, 2);
    assert_eq!(tokens[2].line, 4);
    assert_eq!(tokens[3].token_type, TokenType::EOF);
    assert_eq!(tokens[3].line, 4);
}

#[test]
fn string_literal_holds_the_text_between_the_quotes() {
    let (tokens, errors) = scan("\"hello world\"");
    assert!(errors.is_empty());
    assert_eq!(
        tokens[0],
        Token::new(
            TokenType::STRING,
            "\"hello world\"".to_string(),
            Some(TokenLiteral::String("hello world".to_string())),
            1
        )
    );
}

#[test]
fn string_may_span_lines() {
    let (tokens, errors) = scan("\"a\nb\" c");
    assert!(errors.is_empty());
    assert_eq!(tokens[0].literal, Some(TokenLiteral::String("a\nb".to_string())));
    assert_eq!(tokens[0].line, 2);
    assert_eq!(tokens[1].line, 2);
}

#[test]
fn unterminated_string_is_an_error_and_no_token() {
    let (tokens, errors) = scan("1 \"abc");
    assert_eq!(errors, vec!["[line 1] Error: Unterminated string.".to_string()]);
    assert_eq!(kinds("1 \"abc"), vec![TokenType::NUMBER, TokenType::EOF]);
    assert_eq!(tokens.len(), 2);
}

#[test]
fn unterminated_string_reports_the_last_line() {
    let (_, errors) = scan("\"abc\n\ndef");
    assert_eq!(errors, vec!["[line 3] Error: Unterminated string.".to_string()]);
}

#[test]
fn unexpected_characters_accumulate_and_scanning_goes_on() {
    let (tokens, errors) = scan("@ 1 #\n$ 2");
    assert_eq!(
        errors,
        vec![
            "[line 1] Error: Unexpected character: @".to_string(),
            "[line 1] Error: Unexpected character: #".to_string(),
            "[line 2] Error: Unexpected character: $".to_string(),
        ]
    );
    assert_eq!(tokens.len(), 3);
    assert_eq!(tokens[0].lexeme, "1");
    assert_eq!(tokens[1].lexeme, "2");
}

#[test]
fn integer_literal_displays_with_a_fraction_digit() {
    let (tokens, _) = scan("10");
    assert_eq!(tokens[0].token_type, TokenType::NUMBER);
    assert_eq!(tokens[0].lexeme, "10");
    assert_eq!(tokens[0].literal, Some(TokenLiteral::Number("10.0".to_string())));
    assert_eq!(tokens[0].render(), "NUMBER 10 10.0");
}

#[test]
fn number_literal_drops_redundant_zeros() {
    let literal = |source: &str| scan(source).0[0].literal.clone();
    assert_eq!(literal("10.50"), Some(TokenLiteral::Number("10.5".to_string())));
    assert_eq!(literal("42.00"), Some(TokenLiteral::Number("42.0".to_string())));
    assert_eq!(literal("007"), Some(TokenLiteral::Number("7.0".to_string())));
    assert_eq!(literal("0"), Some(TokenLiteral::Number("0.0".to_string())));
    assert_eq!(literal("000.250"), Some(TokenLiteral::Number("0.25".to_string())));
    assert_eq!(literal("3.14159"), Some(TokenLiteral::Number("3.14159".to_string())));
    assert_eq!(literal("100"), Some(TokenLiteral::Number("100.0".to_string())));
}

#[test]
fn a_point_needs_a_digit_on_both_sides() {
    assert_eq!(kinds("1."), vec![TokenType::NUMBER, TokenType::DOT, TokenType::EOF]);
    assert_eq!(kinds(".5"), vec![TokenType::DOT, TokenType::NUMBER, TokenType::EOF]);
    assert_eq!(lexemes("1.2.3"), vec!["1.2", ".", "3", ""]);
    assert_eq!(lexemes("12.x"), vec!["12", ".", "x", ""]);
}

#[test]
fn keywords_are_reclassified() {
    assert_eq!(
        kinds("and class else false for fun if nil or print return super this true var while"),
        vec![
            TokenType::AND,
            TokenType::CLASS,
            TokenType::ELSE,
            TokenType::FALSE,
            TokenType::FOR,
            TokenType::FUN,
            TokenType::IF,
            TokenType::NIL,
            TokenType::OR,
            TokenType::PRINT,
            TokenType::RETURN,
            TokenType::SUPER,
            TokenType::THIS,
            TokenType::TRUE,
            TokenType::VAR,
            TokenType::WHILE,
            TokenType::EOF,
        ]
    );
}

#[test]
fn identifiers_take_letters_digits_and_underscores() {
    assert_eq!(
        kinds("_a a1 format And orchid"),
        vec![
            TokenType::IDENTIFIER,
            TokenType::IDENTIFIER,
            TokenType::IDENTIFIER,
            TokenType::IDENTIFIER,
            TokenType::IDENTIFIER,
            TokenType::EOF,
        ]
    );
    assert_eq!(lexemes("foo_bar2 baz"), vec!["foo_bar2", "baz", ""]);
    assert_eq!(lexemes("1abc"), vec!["1", "abc", ""]);
}

#[test]
fn letters_beyond_ascii_make_identifiers() {
    let (tokens, errors) = scan("été = 1;");
    assert!(errors.is_empty());
    assert_eq!(tokens[0].token_type, TokenType::IDENTIFIER);
    assert_eq!(tokens[0].lexeme, "été");
    assert_eq!(tokens[1].token_type, TokenType::ASSIGN);
}

#[test]
fn whitespace_is_skipped() {
    assert_eq!(lexemes(" \t\r\n a \t b "), vec!["a", "b", ""]);
}

#[test]
fn token_display_vocabulary() {
    assert_eq!(TokenType::ASSIGN.name(), "EQUAL");
    assert_eq!(TokenType::EQUAL.name(), "EQUAL_EQUAL");
    assert_eq!(TokenType::NOTEQUAL.name(), "BANG_EQUAL");
    assert_eq!(TokenType::LEFTPAREN.name(), "LEFT_PAREN");
    assert_eq!(TokenType::GREATEREQUAL.name(), "GREATER_EQUAL");
    assert_eq!(TokenType::EOF.name(), "EOF");
}

#[test]
fn tokens_display_as_kind_lexeme_literal() {
    let rendered: Vec<String> = scan("var s = \"hi\";").0.iter().map(|t| t.render()).collect();
    assert_eq!(
        rendered,
        vec!["VAR var null", "IDENTIFIER s null", "EQUAL = null", "STRING \"hi\" hi", "SEMICOLON ; null", "EOF  null"]
    );
}

#[test]
fn scan_token_takes_one_lexeme() {
    let mut scanner = Scanner::new("<= x".to_string());
    assert!(!scanner.is_at_end());
    scanner.scan_token();
    assert_eq!(scanner.tokens.len(), 1);
    assert_eq!(scanner.tokens[0].token_type, TokenType::LESSEQUAL);
    assert_eq!(scanner.current, 2);
    assert!(!scanner.is_at_end());
}

#[test]
fn slash_alone_is_a_token() {
    assert_eq!(kinds("1 / 2"), vec![TokenType::NUMBER, TokenType::SLASH, TokenType::NUMBER, TokenType::EOF]);
}

#[test]
fn a_numeral_of_another_script_continues_a_word_but_starts_none() {
    let (tokens, errors) = scan("a² ²");
    assert_eq!(tokens[0].token_type, TokenType::IDENTIFIER);
    assert_eq!(tokens[0].lexeme, "a²");
    assert_eq!(errors, vec!["[line 1] Error: Unexpected character: ²".to_string()]);
    assert_eq!(tokens.len(), 2);
}

#[test]
fn a_symbol_that_is_no_letter_is_unexpected() {
    let (tokens, errors) = scan("€ a€b");
    assert_eq!(
        errors,
        vec![
            "[line 1] Error: Unexpected character: €".to_string(),
            "[line 1] Error: Unexpected character: €".to_string(),
        ]
    );
    assert_eq!(lexemes("€ a€b"), vec!["a", "b", ""]);
    assert_eq!(tokens.len(), 3);
}

#[test]
fn line_counter_counts_many_lines() {
    let source = "\n".repeat(1000) + "x";
    let (tokens, _) = scan(&source);
    assert_eq!(tokens[0].line, 1001);
    assert_eq!(tokens[1].line, 1001);
}

#[test]
fn a_long_source_is_scanned_in_one_pass() {
    let source = "var abc = 12.5; // note\n".repeat(20_000);
    let (tokens, errors) = scan(&source);
    assert!(errors.is_empty());
    assert_eq!(tokens.len(), 20_000 * 5 + 1);
    assert_eq!(tokens[tokens.len() - 1].line, 20_001);
}

#[test]
fn a_numeral_of_more_digits_than_a_float_holds_keeps_its_digits() {
    let (tokens, errors) = scan("9007199254740993");
    assert!(errors.is_empty());
    assert_eq!(tokens[0].literal, Some(TokenLiteral::Number("9007199254740993.0".to_string())));
}

#[test]
fn ascii_punctuation_never_continues_a_name() {
    assert_eq!(lexemes("ab@cd"), vec!["ab", "cd", ""]);
    assert_eq!(lexemes("a_1.b2"), vec!["a_1", ".", "b2", ""]);
    assert_eq!(kinds("while_ whilex while"), vec![
        TokenType::IDENTIFIER,
        TokenType::IDENTIFIER,
        TokenType::WHILE,
        TokenType::EOF,
    ]);
}
