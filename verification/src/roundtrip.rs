//! Printing and parsing back. The canonical rendering of a statement
//! parses back to a statement like it where the statement is made of
//! numerals, names, `true`, `false` and `nil` by unary operations, calls
//! and assignments, by `if` and `while` over such statements, by
//! functions without parameters over them, and by braces around one of
//! them; the loops that the parser makes of `for` are among them. The
//! proofs follow the text through the scanner and the tokens through the
//! parser. Other statements do not parse back: the rendering of a binary
//! operation, a grouping, a string, `print`, `var`, `return`, a block of
//! several statements or of none, or a function with parameters is no
//! text of the language, or one of other statements. Along the way: what
//! the scanner makes of a word, of a keyword and of a stray character by
//! itself.
use vstd::prelude::*;
use crate::expr::ExprView;
use crate::grammar::{
    OR, assignment, binary, binary_rest, call, call_rest, declaration, done, expression,
    expression_statement, kind_at, named_or_grouped, number_payload, primary, program, program_rest,
    statement, unary,
};
use crate::number::{canonical_number, fraction_digits, shown_fraction, trim_leading_zeros, trim_trailing_zeros};
use crate::scanner::{CharClass, ScanState, in_class, lemma_run_end_bounds, run_end, scan, word_kind};
use crate::stmt::{StmtView, stmt_text};
use crate::text::{is_digit, is_identifier_part, is_identifier_start};
use crate::token::{LiteralView, TokenType, TokenView};

verus! {

/// A token that is an expression by itself: a name, a numeral that holds
/// its number, or one of `true`, `false` and `nil`.
pub open spec fn stands_alone(token: TokenView) -> bool {
    match token.token_type {
        TokenType::IDENTIFIER | TokenType::TRUE | TokenType::FALSE | TokenType::NIL => true,
        TokenType::NUMBER => number_payload(token) is Some,
        _ => false,
    }
}

/// The expression that a token is by itself, as a name at the site `at`.
pub open spec fn expression_of(token: TokenView, at: nat) -> ExprView {
    match token.token_type {
        TokenType::TRUE => ExprView::Bool(true),
        TokenType::FALSE => ExprView::Bool(false),
        TokenType::NIL => ExprView::Nil,
        TokenType::NUMBER => ExprView::Number(number_payload(token)->0),
        _ => ExprView::Variable(at as usize, token),
    }
}

/// A token that stands alone, in front of the end of input.
pub open spec fn alone_at(tokens: Seq<TokenView>, at: nat) -> bool {
    &&& at + 1 < tokens.len()
    &&& stands_alone(tokens[at as int])
    &&& tokens[at as int + 1].token_type == TokenType::EOF
}

proof fn lemma_primary_alone(tokens: Seq<TokenView>, at: nat)
    requires
        alone_at(tokens, at),
    ensures
        primary(tokens, at) == done(expression_of(tokens[at as int], at), 1),
{
    reveal_with_fuel(primary, 1);
    reveal_with_fuel(named_or_grouped, 1);
}

proof fn lemma_call_rest_at_end(tokens: Seq<TokenView>, at: nat, callee: ExprView)
    requires
        kind_at(tokens, at) == TokenType::EOF,
    ensures
        call_rest(tokens, at, callee) == done(callee, 0),
{
    reveal_with_fuel(call_rest, 1);
}

proof fn lemma_call_alone(tokens: Seq<TokenView>, at: nat)
    requires
        alone_at(tokens, at),
    ensures
        call(tokens, at) == done(expression_of(tokens[at as int], at), 1),
{
    reveal_with_fuel(call, 1);
    reveal_with_fuel(call_rest, 1);
    reveal_with_fuel(primary, 1);
    lemma_primary_alone(tokens, at);
    lemma_call_rest_at_end(tokens, at + 1, expression_of(tokens[at as int], at));
}

proof fn lemma_unary_alone(tokens: Seq<TokenView>, at: nat)
    requires
        alone_at(tokens, at),
    ensures
        unary(tokens, at) == done(expression_of(tokens[at as int], at), 1),
{
    reveal_with_fuel(unary, 1);
    reveal_with_fuel(call, 1);
    lemma_call_alone(tokens, at);
}

proof fn lemma_binary_rest_at_end(tokens: Seq<TokenView>, at: nat, level: nat, left: ExprView)
    requires
        kind_at(tokens, at) == TokenType::EOF,
    ensures
        binary_rest(tokens, at, level, left) == done(left, 0),
{
    reveal_with_fuel(binary_rest, 1);
}

proof fn lemma_binary_alone(tokens: Seq<TokenView>, at: nat, level: nat)
    requires
        alone_at(tokens, at),
    ensures
        binary(tokens, at, level) == done(expression_of(tokens[at as int], at), 1),
    decreases level,
{
    reveal_with_fuel(binary, 1);
    reveal_with_fuel(binary_rest, 1);
    reveal_with_fuel(unary, 1);
    lemma_binary_rest_at_end(tokens, at + 1, level, expression_of(tokens[at as int], at));
    if level > 0 {
        lemma_binary_alone(tokens, at, (level - 1) as nat);
    } else {
        lemma_unary_alone(tokens, at);
    }
}

proof fn lemma_expression_alone(tokens: Seq<TokenView>, at: nat)
    requires
        alone_at(tokens, at),
    ensures
        expression(tokens, at) == done(expression_of(tokens[at as int], at), 1),
{
    reveal_with_fuel(expression, 1);
    reveal_with_fuel(assignment, 1);
    reveal_with_fuel(binary, 1);
    lemma_binary_alone(tokens, at, OR as nat);
}

/// A token list that is one token that stands alone, and the end of input,
/// is the program of one expression statement.
pub proof fn lemma_program_alone(tokens: Seq<TokenView>)
    requires
        alone_at(tokens, 0),
    ensures
        program(tokens) == Ok::<Seq<StmtView>, Seq<char>>(
            seq![StmtView::Expression(expression_of(tokens[0], 0))],
        ),
{
    reveal_with_fuel(program_rest, 2);
    reveal_with_fuel(declaration, 1);
    reveal_with_fuel(statement, 1);
    reveal_with_fuel(expression_statement, 1);
    reveal_with_fuel(expression, 1);
    lemma_expression_alone(tokens, 0);
    let first = declaration(tokens, 0);
    assert(first == done(StmtView::Expression(expression_of(tokens[0], 0)), 1));
    assert(Seq::<StmtView>::empty().push(StmtView::Expression(expression_of(tokens[0], 0))) =~= seq![
        StmtView::Expression(expression_of(tokens[0], 0)),
    ]);
}

/// A character that the scanner takes for the start of a word: a letter
/// or an underscore.
pub open spec fn starts_word(c: char) -> bool {
    is_identifier_start(c)
}

/// A text that the scanner reads as one word: a keyword or an identifier.
pub open spec fn is_word(text: Seq<char>) -> bool {
    &&& text.len() > 0
    &&& starts_word(text[0])
    &&& forall|i: int| 1 <= i < text.len() ==> is_identifier_part(#[trigger] text[i])
}

pub open spec fn all_digits(text: Seq<char>) -> bool {
    forall|i: int| 0 <= i < text.len() ==> is_digit(#[trigger] text[i])
}

/// Digits before and behind a point, without redundant zeros.
pub open spec fn is_numeral_of(text: Seq<char>, whole: Seq<char>, fraction: Seq<char>) -> bool {
    &&& text == whole + seq!['.'] + fraction
    &&& whole.len() > 0
    &&& fraction.len() > 0
    &&& all_digits(whole)
    &&& all_digits(fraction)
    &&& trim_leading_zeros(whole) == whole
    &&& trim_trailing_zeros(fraction) == fraction
}

/// A text that is the canonical decimal text of a number.
pub open spec fn is_numeral(text: Seq<char>) -> bool {
    exists|whole: Seq<char>, fraction: Seq<char>| is_numeral_of(text, whole, fraction)
}

/// What the scanner guarantees of the tokens of the fragment: a word is
/// spelled as a word and is of the kind of its spelling, a numeral holds
/// the canonical text of its number, a string holds its text, and `!`,
/// `-` and `)` are spelled so.
pub open spec fn well_made(token: TokenView) -> bool {
    match token.token_type {
        TokenType::IDENTIFIER | TokenType::TRUE | TokenType::FALSE | TokenType::NIL | TokenType::IF
        | TokenType::ELSE | TokenType::WHILE => token.literal is None && is_word(token.lexeme)
            && token.token_type == word_kind(token.lexeme),
        TokenType::NUMBER => token.literal matches Some(LiteralView::Number(text)) && is_numeral(text),
        TokenType::STRING => token.literal matches Some(LiteralView::String(_)),
        TokenType::BANG => token.literal is None && token.lexeme == seq!['!'],
        TokenType::MINUS => token.literal is None && token.lexeme == seq!['-'],
        TokenType::RIGHTPAREN => token.literal is None && token.lexeme == seq![')'],
        _ => true,
    }
}

pub open spec fn all_well_made(tokens: Seq<TokenView>) -> bool {
    forall|i: int| 0 <= i < tokens.len() ==> well_made(#[trigger] tokens[i])
}

/// A run of characters of a class ends where the class ends.
pub proof fn lemma_run_to(source: Seq<char>, from: int, to: int, class: CharClass)
    requires
        0 <= from <= to <= source.len(),
        forall|i: int| from <= i < to ==> in_class(class, #[trigger] source[i]),
        to == source.len() || !in_class(class, source[to]),
    ensures
        run_end(source, from, class) == to,
    decreases to - from,
{
    if from < to {
        lemma_run_to(source, from + 1, to, class);
    }
}

proof fn lemma_trim_leading(digits: Seq<char>)
    requires
        digits.len() > 0,
        all_digits(digits),
    ensures
        trim_leading_zeros(digits).len() > 0,
        all_digits(trim_leading_zeros(digits)),
        trim_leading_zeros(trim_leading_zeros(digits)) == trim_leading_zeros(digits),
    decreases digits.len(),
{
    if digits.len() > 1 && digits[0] == '0' {
        let rest = digits.drop_first();
        assert forall|i: int| 0 <= i < rest.len() implies is_digit(#[trigger] rest[i]) by {
            assert(rest[i] == digits[i + 1]);
        }
        lemma_trim_leading(rest);
    }
}

proof fn lemma_trim_trailing(digits: Seq<char>)
    requires
        digits.len() > 0,
        all_digits(digits),
    ensures
        trim_trailing_zeros(digits).len() > 0,
        all_digits(trim_trailing_zeros(digits)),
        trim_trailing_zeros(trim_trailing_zeros(digits)) == trim_trailing_zeros(digits),
    decreases digits.len(),
{
    if digits.len() > 1 && digits.last() == '0' {
        let rest = digits.drop_last();
        assert forall|i: int| 0 <= i < rest.len() implies is_digit(#[trigger] rest[i]) by {
            assert(rest[i] == digits[i]);
        }
        lemma_trim_trailing(rest);
    }
}

/// The canonical text of a numeral is a numeral.
proof fn lemma_canonical_is_numeral(whole: Seq<char>, fraction: Seq<char>)
    requires
        whole.len() > 0,
        all_digits(whole),
        all_digits(fraction),
    ensures
        is_numeral(canonical_number(whole, fraction)),
{
    lemma_trim_leading(whole);
    if fraction.len() > 0 {
        lemma_trim_trailing(fraction);
    }
    let w = trim_leading_zeros(whole);
    let f = shown_fraction(fraction);
    assert(trim_trailing_zeros(seq!['0']) == seq!['0']);
    assert(is_numeral_of(canonical_number(whole, fraction), w, f));
}

/// A step of the scanner makes tokens that are well made.
proof fn lemma_step_well_made(state: ScanState, source: Seq<char>)
    requires
        0 <= state.current < source.len(),
        state.start == state.current,
        all_well_made(state.tokens),
    ensures
        all_well_made(state.step(source).tokens),
{
    let next = state.current + 1;
    let after = state.step(source);
    let c = source[state.current];
    lemma_run_end_bounds(source, next, CharClass::Digit);
    lemma_run_end_bounds(source, next, CharClass::IdentifierPart);
    lemma_run_end_bounds(source, next, CharClass::InString);
    let point = run_end(source, next, CharClass::Digit);
    if point + 1 < source.len() {
        lemma_run_end_bounds(source, point + 1, CharClass::Digit);
    }
    assert(source.subrange(state.current, next) =~= seq![c]);
    if after.tokens.len() == state.tokens.len() + 1 {
        let token = after.tokens.last();
        assert(after.tokens.drop_last() =~= state.tokens);
        if token.token_type == TokenType::NUMBER && is_digit(c) {
            let end = ScanState::number_end(source, point);
            let whole = source.subrange(state.start, point);
            let fraction = fraction_digits(source, point, end);
            assert forall|i: int| 0 <= i < whole.len() implies is_digit(#[trigger] whole[i]) by {
                assert(whole[i] == source[state.start + i]);
                if i > 0 {
                    assert(in_class(CharClass::Digit, source[state.start + i]));
                }
            }
            assert forall|i: int| 0 <= i < fraction.len() implies is_digit(#[trigger] fraction[i]) by {
                assert(fraction[i] == source[point + 1 + i]);
                assert(in_class(CharClass::Digit, source[point + 1 + i]));
            }
            lemma_canonical_is_numeral(whole, fraction);
        } else if starts_word(c) {
            let end = run_end(source, next, CharClass::IdentifierPart);
            let lexeme = source.subrange(state.start, end);
            assert forall|i: int| 1 <= i < lexeme.len() implies is_identifier_part(
                #[trigger] lexeme[i],
            ) by {
                assert(lexeme[i] == source[state.start + i]);
                assert(in_class(CharClass::IdentifierPart, source[state.start + i]));
            }
            assert(lexeme[0] == c);
        }
        assert forall|i: int| 0 <= i < after.tokens.len() implies well_made(
            #[trigger] after.tokens[i],
        ) by {
            if i < state.tokens.len() {
                assert(after.tokens[i] == state.tokens[i]);
            }
        }
    } else {
        assert(after.tokens =~= state.tokens);
    }
}

/// Every token that the scanner makes is well made.
pub proof fn lemma_run_well_made(state: ScanState, source: Seq<char>)
    requires
        0 <= state.current,
        all_well_made(state.tokens),
    ensures
        all_well_made(state.run(source).tokens),
    decreases source.len() - state.current,
{
    if state.current < source.len() {
        let from = ScanState { start: state.current, ..state };
        crate::scanner::lemma_step_advances(from, source);
        lemma_step_well_made(from, source);
        lemma_run_well_made(from.step(source), source);
    }
}

/// A word, scanned by itself, is one token of its kind on line 1.
proof fn lemma_scan_word(text: Seq<char>)
    requires
        is_word(text),
    ensures
        scan(text).0 == seq![
            TokenView { token_type: word_kind(text), lexeme: text, literal: None, line: 1 },
            TokenView { token_type: TokenType::EOF, lexeme: Seq::empty(), literal: None, line: 1 },
        ],
        scan(text).1.len() == 0,
{
    let fresh = ScanState::fresh();
    lemma_run_to(text, 1, text.len() as int, CharClass::IdentifierPart);
    let after = fresh.step(text);
    assert(text.subrange(0, text.len() as int) =~= text);
    assert(after == fresh.identifier(text));
    assert(after.run(text) == after);
    assert(fresh.run(text) == after);
    assert(scan(text).0 =~= seq![
        TokenView { token_type: word_kind(text), lexeme: text, literal: None, line: 1 },
        TokenView { token_type: TokenType::EOF, lexeme: Seq::empty(), literal: None, line: 1 },
    ]);
}

/// Every keyword, scanned by itself, is one token of the keyword's kind:
/// its letters are letters to the scanner.
pub proof fn law_keywords_scan_as_keywords(text: Seq<char>)
    requires
        crate::scanner::keyword(text) is Some,
    ensures
        scan(text).0 == seq![
            TokenView {
                token_type: crate::scanner::keyword(text)->0,
                lexeme: text,
                literal: None,
                line: 1,
            },
            TokenView { token_type: TokenType::EOF, lexeme: Seq::empty(), literal: None, line: 1 },
        ],
        scan(text).1.len() == 0,
{
    reveal_strlit("and");
    reveal_strlit("class");
    reveal_strlit("else");
    reveal_strlit("false");
    reveal_strlit("for");
    reveal_strlit("fun");
    reveal_strlit("if");
    reveal_strlit("nil");
    reveal_strlit("or");
    reveal_strlit("print");
    reveal_strlit("return");
    reveal_strlit("super");
    reveal_strlit("this");
    reveal_strlit("true");
    reveal_strlit("var");
    reveal_strlit("while");
    assert(is_word(text));
    lemma_scan_word(text);
}

/// An ASCII character that is no letter, no digit, no underscore and has
/// no meaning of its own is reported, and gives no token.
pub proof fn law_stray_character_is_reported(c: char)
    requires
        crate::text::is_ascii(c),
        !crate::text::is_letter(c),
        !is_digit(c),
        c != '_',
        !crate::text::is_mark(c),
    ensures
        scan(seq![c]).0 == seq![
            TokenView { token_type: TokenType::EOF, lexeme: Seq::empty(), literal: None, line: 1 },
        ],
        scan(seq![c]).1 == seq![crate::scanner::unexpected_character(1, c)],
{
    let source = seq![c];
    let fresh = ScanState::fresh();
    let after = fresh.step(source);
    assert(after == fresh.skip(1).report(crate::scanner::unexpected_character(1, c)));
    assert(after.run(source) == after);
    assert(fresh.run(source) == after);
    assert(scan(source).0 =~= seq![
        TokenView { token_type: TokenType::EOF, lexeme: Seq::empty(), literal: None, line: 1 },
    ]);
    assert(scan(source).1 =~= seq![crate::scanner::unexpected_character(1, c)]);
}

/// A canonical numeral, scanned by itself, is one token that holds it, on
/// line 1.
proof fn lemma_scan_numeral(text: Seq<char>)
    requires
        is_numeral(text),
    ensures
        scan(text).0 == seq![
            TokenView {
                token_type: TokenType::NUMBER,
                lexeme: text,
                literal: Some(LiteralView::Number(text)),
                line: 1,
            },
            TokenView { token_type: TokenType::EOF, lexeme: Seq::empty(), literal: None, line: 1 },
        ],
{
    let (whole, fraction) = choose|whole: Seq<char>, fraction: Seq<char>|
        is_numeral_of(text, whole, fraction);
    let point = whole.len() as int;
    let fresh = ScanState::fresh();
    assert forall|i: int| 0 <= i < point implies in_class(CharClass::Digit, #[trigger] text[i]) by {
        assert(text[i] == whole[i]);
    }
    assert(text[point] == '.');
    assert forall|i: int| point + 1 <= i < text.len() implies in_class(
        CharClass::Digit,
        #[trigger] text[i],
    ) by {
        assert(text[i] == fraction[i - point - 1]);
    }
    lemma_run_to(text, 1, point, CharClass::Digit);
    lemma_run_to(text, point + 1, text.len() as int, CharClass::Digit);
    assert(text[0] == whole[0]);
    assert(text[point + 1] == fraction[0]);
    assert(text.subrange(0, point) =~= whole);
    assert(text.subrange(point + 1, text.len() as int) =~= fraction);
    assert(text.subrange(0, text.len() as int) =~= text);
    let after = fresh.step(text);
    assert(after == fresh.number(text));
    assert(canonical_number(whole, fraction) =~= text);
    assert(after.run(text) == after);
    assert(fresh.run(text) == after);
    assert(scan(text).0 =~= seq![
        TokenView {
            token_type: TokenType::NUMBER,
            lexeme: text,
            literal: Some(LiteralView::Number(text)),
            line: 1,
        },
        TokenView { token_type: TokenType::EOF, lexeme: Seq::empty(), literal: None, line: 1 },
    ]);
}

/// A statement that consists of one name, one numeral or one of `true`,
/// `false` and `nil` is printed as a text that parses back to it: for
/// every text whose tokens are one such token, on the first line, and the
/// end of input, the statement parsed from the text and the statement
/// parsed from that statement's canonical rendering are the same.
pub proof fn law_single_token_round_trip(source: Seq<char>)
    requires
        scan(source).0.len() == 2,
        stands_alone(scan(source).0[0]),
        scan(source).0[0].line == 1,
    ensures
        program(scan(source).0) == Ok::<Seq<StmtView>, Seq<char>>(
            seq![StmtView::Expression(expression_of(scan(source).0[0], 0))],
        ),
        program(
            scan(stmt_text(StmtView::Expression(expression_of(scan(source).0[0], 0)))).0,
        ) == program(scan(source).0),
{
    let tokens = scan(source).0;
    let token = tokens[0];
    let end = ScanState::fresh().run(source);
    lemma_run_well_made(ScanState::fresh(), source);
    assert(end.tokens.len() == 1);
    assert(end.tokens[0] == token);
    assert(well_made(end.tokens[0]));
    lemma_program_alone(tokens);
    let statement = StmtView::Expression(expression_of(token, 0));
    let text = stmt_text(statement);
    if token.token_type == TokenType::NUMBER {
        lemma_scan_numeral(text);
    } else {
        assert(text == token.lexeme) by {
            reveal_strlit("true");
            reveal_strlit("false");
            reveal_strlit("nil");
        }
        lemma_scan_word(text);
    }
    lemma_program_alone(scan(text).0);
}

/// The tokens of every text are well made.
pub proof fn lemma_scanned_are_well_made(source: Seq<char>)
    ensures
        all_well_made(scan(source).0),
{
    let tokens = scan(source).0;
    lemma_run_well_made(ScanState::fresh(), source);
    let end = ScanState::fresh().run(source);
    assert forall|i: int| 0 <= i < tokens.len() implies well_made(#[trigger] tokens[i]) by {
        if i < end.tokens.len() {
            assert(tokens[i] == end.tokens[i]);
        }
    }
}

/// A token list that is one declaration and the end of input is the
/// program of that statement.
pub proof fn lemma_program_of_declaration(tokens: Seq<TokenView>, x: StmtView, used: nat)
    requires
        declaration(tokens, 0) == done(x, used),
        used >= 1,
        kind_at(tokens, 0) != TokenType::EOF,
        kind_at(tokens, used) == TokenType::EOF,
    ensures
        program(tokens) == Ok::<Seq<StmtView>, Seq<char>>(seq![x]),
{
    assert(program_rest(tokens, used, seq![x]) == done(seq![x], 0)) by {
        reveal_with_fuel(program_rest, 1);
    }
    assert(Seq::<StmtView>::empty().push(x) =~= seq![x]);
    assert(program_rest(tokens, 0, Seq::empty()).result == Ok::<Seq<StmtView>, Seq<char>>(seq![x])) by {
        reveal_with_fuel(program_rest, 1);
        reveal_with_fuel(declaration, 1);
    }
}

/// The rendering of a statement of the fragment scans without an error
/// and parses to one statement that is like it.
pub proof fn lemma_statement_rendering_parses_back(s: StmtView)
    requires
        crate::fragment::made(s),
    ensures
        scan(stmt_text(s)).1.len() == 0,
        program(scan(stmt_text(s)).0) matches Ok(w) && w.len() == 1 && crate::fragment::alike(w[0], s),
{
    let source = stmt_text(s);
    let fresh = ScanState::fresh();
    let toks = crate::fragment::statement_tokens(s, 1);
    let last = crate::fragment::end_line(s, 1);
    crate::rescan::lemma_scan_statement(source, fresh, s);
    let after = crate::rescan::moved(fresh, toks, source.len() as int, last);
    assert(after.run(source) == after);
    assert(fresh.tokens + toks =~= toks);
    let tokens = scan(source).0;
    assert(tokens == toks.push(
        TokenView { token_type: TokenType::EOF, lexeme: Seq::empty(), literal: None, line: last },
    ));
    assert(crate::fragment::placed(tokens, 0, toks));
    let x = crate::reparse::lemma_parse_statement(tokens, 0, s, 1);
    lemma_program_of_declaration(tokens, x, toks.len());
}

/// Printing and parsing back. Take a text that scans
/// without an error and parses, and any statement of it that is an
/// expression statement of the fragment, an `if` or a `while` (written as
/// such, or as a `for`) whose conditions are of the fragment and whose
/// branches are such statements or blocks of them, a function without
/// parameters whose body consists of them, or a block of one of them
/// that is no function; in a list of statements, none that starts with a
/// parenthesis follows an expression statement. Then the canonical
/// rendering of the statement scans without an error too, and parses to
/// one statement that is like it.
pub proof fn law_round_trip(source: Seq<char>, statements: Seq<StmtView>, index: int)
    requires
        scan(source).1.len() == 0,
        program(scan(source).0) == Ok::<Seq<StmtView>, Seq<char>>(statements),
        0 <= index < statements.len(),
        crate::fragment::statement_parses_back(statements[index]),
    ensures
        scan(stmt_text(statements[index])).1.len() == 0,
        program(scan(stmt_text(statements[index])).0) matches Ok(w) && w.len() == 1
            && crate::fragment::alike(w[0], statements[index]),
{
    let tokens = scan(source).0;
    lemma_scanned_are_well_made(source);
    crate::parsed::lemma_program_statements_are_made(tokens, 0, Seq::empty());
    let list = program_rest(tokens, 0, Seq::empty()).result->Ok_0;
    assert(list == statements);
    assert(crate::fragment::statement_parses_back(list[index]) ==> crate::fragment::made(list[index]));
    lemma_statement_rendering_parses_back(statements[index]);
}

} // verus!
