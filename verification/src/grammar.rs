//! The grammar as a function of the token list: for every position, what
//! each rule yields there and how many tokens it consumes. Precedence, low
//! to high: assignment, `or`, `and`, equality, comparison, term, factor,
//! unary, call, primary.
use vstd::prelude::*;
use crate::expr::{ExprView, expr_text};
use crate::stmt::StmtView;
use crate::text::decimal;
use crate::token::{LiteralView, TokenType, TokenView};

verus! {

/// What a rule yields at a position: the tree or the error message, and the
/// number of tokens consumed on the way.
pub struct Parsed<T> {
    pub result: Result<T, Seq<char>>,
    pub used: nat,
}

impl<T> Parsed<T> {
    /// The same outcome, reached after `count` more tokens in front of it.
    pub open spec fn after(self, count: nat) -> Parsed<T> {
        Parsed { result: self.result, used: self.used + count }
    }
}

/// A rule that is accepted.
pub open spec fn done<T>(value: T, used: nat) -> Parsed<T> {
    Parsed { result: Ok(value), used }
}

/// A rule that is refused, with the message of the error.
pub open spec fn failed<T>(message: Seq<char>, used: nat) -> Parsed<T> {
    Parsed { result: Err(message), used }
}

/// The largest number of arguments of a call, and of parameters of a
/// function.
pub const MAX_ARGUMENTS: usize = 255;

/// A token list that a parser can read: it ends with the end-of-input token.
pub open spec fn well_formed(tokens: Seq<TokenView>) -> bool {
    tokens.len() > 0 && tokens.last().token_type == TokenType::EOF
}

/// The kind of the token at `at`; behind the list, the end-of-input kind.
pub open spec fn kind_at(tokens: Seq<TokenView>, at: nat) -> TokenType {
    if at < tokens.len() {
        tokens[at as int].token_type
    } else {
        TokenType::EOF
    }
}

/// The token at `at`; behind the list, an empty end-of-input token.
pub open spec fn token_at(tokens: Seq<TokenView>, at: nat) -> TokenView {
    if at < tokens.len() {
        tokens[at as int]
    } else {
        TokenView { token_type: TokenType::EOF, lexeme: Seq::empty(), literal: None, line: 0 }
    }
}

/// The number of tokens from `at` to the end of the list.
pub open spec fn remaining(tokens: Seq<TokenView>, at: nat) -> nat {
    if at < tokens.len() {
        (tokens.len() - at) as nat
    } else {
        0
    }
}

/// The token at `at` is of the given kind and not the end of input.
pub open spec fn check(tokens: Seq<TokenView>, at: nat, kind: TokenType) -> bool {
    kind_at(tokens, at) != TokenType::EOF && kind_at(tokens, at) == kind
}

/// The token at `at` if it is of the given kind, else the message.
pub open spec fn consume(tokens: Seq<TokenView>, at: nat, kind: TokenType, message: Seq<char>) -> Parsed<
    TokenView,
> {
    if check(tokens, at, kind) {
        done(token_at(tokens, at), 1)
    } else {
        failed(message, 0)
    }
}

/// One for a token of the given kind at `at`, which is then consumed, else
/// zero.
pub open spec fn optional(tokens: Seq<TokenView>, at: nat, kind: TokenType) -> nat {
    if check(tokens, at, kind) {
        1
    } else {
        0
    }
}

/// The levels of left-associative binary operation, from the tightest.
pub const FACTOR: u8 = 0;

pub const TERM: u8 = 1;

pub const COMPARISON: u8 = 2;

pub const EQUALITY: u8 = 3;

pub const AND: u8 = 4;

pub const OR: u8 = 5;

/// The operators of each level. A level above `AND` has those of `OR`.
pub open spec fn level_operator(level: nat, kind: TokenType) -> bool {
    if level == FACTOR {
        kind == TokenType::SLASH || kind == TokenType::STAR
    } else if level == TERM {
        kind == TokenType::MINUS || kind == TokenType::PLUS
    } else if level == COMPARISON {
        kind == TokenType::GREATER || kind == TokenType::GREATEREQUAL || kind == TokenType::LESS
            || kind == TokenType::LESSEQUAL
    } else if level == EQUALITY {
        kind == TokenType::NOTEQUAL || kind == TokenType::EQUAL
    } else if level == AND {
        kind == TokenType::AND
    } else {
        kind == TokenType::OR
    }
}

/// The node of one operation of a level: a logical node for `and` and `or`,
/// a binary node below.
pub open spec fn combine(level: nat, operator: TokenView, left: ExprView, right: ExprView) -> ExprView {
    if level >= AND {
        ExprView::Logical { operator, left: Box::new(left), right: Box::new(right) }
    } else {
        ExprView::Binary { operator, left: Box::new(left), right: Box::new(right) }
    }
}

pub open spec fn invalid_target(line: usize, value: ExprView) -> Seq<char> {
    "[line "@ + decimal(line as nat) + "] Invalid assignment target "@ + expr_text(value)
}

pub open spec fn invalid_primary(token: TokenView) -> Seq<char> {
    "[line "@ + decimal(token.line as nat)
        + "] Parse Error: Expected valid primary expression. Received '"@ + token.lexeme + "'."@
}

/// An expression: the rule of the lowest precedence.
#[verifier::opaque]
pub open spec fn expression(tokens: Seq<TokenView>, at: nat) -> Parsed<ExprView>
    decreases remaining(tokens, at), 21nat,
{
    assignment(tokens, at)
}

/// An assignment, which associates to the right, or what binds tighter.
/// Only a bare variable can be assigned to.
#[verifier::opaque]
pub open spec fn assignment(tokens: Seq<TokenView>, at: nat) -> Parsed<ExprView>
    decreases remaining(tokens, at), 20nat,
{
    let target = binary(tokens, at, OR as nat);
    match target.result {
        Err(_) => target,
        Ok(expr) => if check(tokens, at + target.used, TokenType::ASSIGN) {
            let equals = token_at(tokens, at + target.used);
            let value = assignment(tokens, at + target.used + 1);
            let used = target.used + 1 + value.used;
            match value.result {
                Err(_) => value.after(target.used + 1),
                Ok(v) => match expr {
                    ExprView::Variable(id, name) => done(ExprView::Assign(id, name, Box::new(v)), used),
                    _ => failed(invalid_target(equals.line, v), used),
                },
            }
        } else {
            target
        },
    }
}

/// The operations of one level and of those that bind tighter.
#[verifier::opaque]
pub open spec fn binary(tokens: Seq<TokenView>, at: nat, level: nat) -> Parsed<ExprView>
    decreases remaining(tokens, at), 5 + 2 * level,
{
    let first = if level == FACTOR {
        unary(tokens, at)
    } else {
        binary(tokens, at, (level - 1) as nat)
    };
    match first.result {
        Err(_) => first,
        Ok(left) => binary_rest(tokens, at + first.used, level, left).after(first.used),
    }
}

/// The operations of one level that follow the operand `left`, which they
/// take as their leftmost operand.
#[verifier::opaque]
pub open spec fn binary_rest(tokens: Seq<TokenView>, at: nat, level: nat, left: ExprView) -> Parsed<
    ExprView,
>
    decreases remaining(tokens, at), 4 + 2 * level,
{
    if kind_at(tokens, at) != TokenType::EOF && level_operator(level, kind_at(tokens, at)) {
        let right = if level == FACTOR {
            unary(tokens, at + 1)
        } else {
            binary(tokens, at + 1, (level - 1) as nat)
        };
        match right.result {
            Err(_) => right.after(1),
            Ok(r) => binary_rest(
                tokens,
                at + 1 + right.used,
                level,
                combine(level, token_at(tokens, at), left, r),
            ).after(1 + right.used),
        }
    } else {
        done(left, 0)
    }
}

/// A chain of `!` and `-` in front of a call expression.
#[verifier::opaque]
pub open spec fn unary(tokens: Seq<TokenView>, at: nat) -> Parsed<ExprView>
    decreases remaining(tokens, at), 3nat,
{
    if check(tokens, at, TokenType::BANG) || check(tokens, at, TokenType::MINUS) {
        let right = unary(tokens, at + 1);
        match right.result {
            Err(_) => right.after(1),
            Ok(r) => done(
                ExprView::Unary { operator: token_at(tokens, at), right: Box::new(r) },
                1 + right.used,
            ),
        }
    } else {
        call(tokens, at)
    }
}

/// A primary expression and the invocations that follow it.
#[verifier::opaque]
pub open spec fn call(tokens: Seq<TokenView>, at: nat) -> Parsed<ExprView>
    decreases remaining(tokens, at), 2nat,
{
    let callee = primary(tokens, at);
    match callee.result {
        Err(_) => callee,
        Ok(expr) => call_rest(tokens, at + callee.used, expr).after(callee.used),
    }
}

/// The chain of invocations that follows `callee`.
#[verifier::opaque]
pub open spec fn call_rest(tokens: Seq<TokenView>, at: nat, callee: ExprView) -> Parsed<ExprView>
    decreases remaining(tokens, at), 1nat,
{
    if check(tokens, at, TokenType::LEFTPAREN) {
        let invoked = finish_call(tokens, at + 1, callee);
        match invoked.result {
            Err(_) => invoked.after(1),
            Ok(expr) => call_rest(tokens, at + 1 + invoked.used, expr).after(1 + invoked.used),
        }
    } else {
        done(callee, 0)
    }
}

/// The argument list and closing parenthesis of a call of `callee`.
#[verifier::opaque]
pub open spec fn finish_call(tokens: Seq<TokenView>, at: nat, callee: ExprView) -> Parsed<ExprView>
    decreases remaining(tokens, at), 23nat,
{
    let list = if check(tokens, at, TokenType::RIGHTPAREN) {
        done(Seq::empty(), 0)
    } else {
        arguments(tokens, at, Seq::empty())
    };
    match list.result {
        Err(e) => failed(e, list.used),
        Ok(args) => {
            let paren = consume(
                tokens,
                at + list.used,
                TokenType::RIGHTPAREN,
                "Expect ')' after function arguments."@,
            );
            match paren.result {
                Err(e) => failed(e, list.used),
                Ok(p) => done(
                    ExprView::Call { callee: Box::new(callee), paren: p, arguments: args },
                    list.used + 1,
                ),
            }
        },
    }
}

/// The arguments from `at` on, behind those of `earlier`. No call takes
/// more than 255.
#[verifier::opaque]
pub open spec fn arguments(tokens: Seq<TokenView>, at: nat, earlier: Seq<ExprView>) -> Parsed<
    Seq<ExprView>,
>
    decreases remaining(tokens, at), 22nat,
{
    if earlier.len() >= MAX_ARGUMENTS {
        failed("Can't have more than 255 arguments"@, 0)
    } else {
        let argument = expression(tokens, at);
        match argument.result {
            Err(e) => failed(e, argument.used),
            Ok(expr) => if check(tokens, at + argument.used, TokenType::COMMA) {
                arguments(tokens, at + argument.used + 1, earlier.push(expr)).after(argument.used + 1)
            } else {
                done(earlier.push(expr), argument.used)
            },
        }
    }
}

/// The number that a token carries, if it carries one.
pub open spec fn number_payload(token: TokenView) -> Option<Seq<char>> {
    match token.literal {
        Some(LiteralView::Number(text)) => Some(text),
        _ => None,
    }
}

/// The string that a token carries, if it carries one.
pub open spec fn string_payload(token: TokenView) -> Option<Seq<char>> {
    match token.literal {
        Some(LiteralView::String(text)) => Some(text),
        _ => None,
    }
}

/// The number of literal tokens without their payload that a primary
/// expression at `at` passes over: a number token that holds no number,
/// then a string token that holds no string.
pub open spec fn hollow(tokens: Seq<TokenView>, at: nat) -> nat {
    let first: nat = if check(tokens, at, TokenType::NUMBER) {
        1
    } else {
        0
    };
    if check(tokens, at + first, TokenType::STRING) {
        first + 1
    } else {
        first
    }
}

/// A literal, or a name or an expression in parentheses. A literal token
/// that lacks its payload is passed over.
#[verifier::opaque]
pub open spec fn primary(tokens: Seq<TokenView>, at: nat) -> Parsed<ExprView>
    decreases remaining(tokens, at), 1nat,
{
    let token = token_at(tokens, at);
    if check(tokens, at, TokenType::TRUE) {
        done(ExprView::Bool(true), 1)
    } else if check(tokens, at, TokenType::FALSE) {
        done(ExprView::Bool(false), 1)
    } else if check(tokens, at, TokenType::NIL) {
        done(ExprView::Nil, 1)
    } else if check(tokens, at, TokenType::NUMBER) && number_payload(token) is Some {
        done(ExprView::Number(number_payload(token)->0), 1)
    } else if check(tokens, at, TokenType::STRING) && string_payload(token) is Some {
        done(ExprView::String(string_payload(token)->0), 1)
    } else if check(tokens, at, TokenType::NUMBER) && check(tokens, at + 1, TokenType::STRING)
        && string_payload(token_at(tokens, at + 1)) is Some {
        done(ExprView::String(string_payload(token_at(tokens, at + 1))->0), 2)
    } else {
        named_or_grouped(tokens, at + hollow(tokens, at)).after(hollow(tokens, at))
    }
}

/// A variable reference, whose site is numbered by the position of its
/// token, or an expression in parentheses.
#[verifier::opaque]
pub open spec fn named_or_grouped(tokens: Seq<TokenView>, at: nat) -> Parsed<ExprView>
    decreases remaining(tokens, at), 0nat,
{
    if check(tokens, at, TokenType::IDENTIFIER) {
        done(ExprView::Variable(at as usize, token_at(tokens, at)), 1)
    } else if check(tokens, at, TokenType::LEFTPAREN) {
        let inner = expression(tokens, at + 1);
        match inner.result {
            Err(_) => inner.after(1),
            Ok(expr) => if check(tokens, at + 1 + inner.used, TokenType::RIGHTPAREN) {
                done(ExprView::Grouping(Box::new(expr)), inner.used + 2)
            } else {
                failed("Expect ')' after expression."@, inner.used + 1)
            },
        }
    } else {
        failed(invalid_primary(token_at(tokens, at)), 0)
    }
}

/// A kind that starts a declaration or a statement.
pub open spec fn starts_statement(kind: TokenType) -> bool {
    kind == TokenType::CLASS || kind == TokenType::FUN || kind == TokenType::VAR || kind
        == TokenType::FOR || kind == TokenType::IF || kind == TokenType::WHILE || kind
        == TokenType::PRINT || kind == TokenType::RETURN
}

/// The number of tokens discarded from `at` on until a statement boundary:
/// behind a semicolon, or in front of a keyword that starts a statement.
#[verifier::opaque]
pub open spec fn boundary(tokens: Seq<TokenView>, at: nat) -> nat
    decreases remaining(tokens, at),
{
    if kind_at(tokens, at) == TokenType::EOF {
        0
    } else if at > 0 && kind_at(tokens, (at - 1) as nat) == TokenType::SEMICOLON {
        0
    } else if starts_statement(kind_at(tokens, at)) {
        0
    } else {
        1 + boundary(tokens, at + 1)
    }
}

/// The number of tokens discarded after an error at `at`: one, then up to
/// the next statement boundary.
pub open spec fn synchronize(tokens: Seq<TokenView>, at: nat) -> nat {
    if kind_at(tokens, at) == TokenType::EOF {
        0
    } else {
        1 + boundary(tokens, at + 1)
    }
}

/// The outcome of a declaration: after an error the parser moves on to the
/// next statement boundary.
pub open spec fn recovered<T>(tokens: Seq<TokenView>, at: nat, outcome: Parsed<T>) -> Parsed<T> {
    match outcome.result {
        Err(_) => outcome.after(synchronize(tokens, at + outcome.used)),
        Ok(_) => outcome,
    }
}

/// A variable declaration, a function declaration or a statement. After
/// an error the tokens up to the next statement boundary are discarded.
#[verifier::opaque]
pub open spec fn declaration(tokens: Seq<TokenView>, at: nat) -> Parsed<StmtView>
    decreases remaining(tokens, at), 32nat,
{
    recovered(
        tokens,
        at,
        if check(tokens, at, TokenType::VAR) {
            var_declaration(tokens, at + 1).after(1)
        } else if check(tokens, at, TokenType::FUN) {
            function(tokens, at + 1, "function"@).after(1)
        } else {
            statement(tokens, at)
        },
    )
}

/// A variable declaration behind its keyword. Without an initializer the
/// variable starts as nil.
#[verifier::opaque]
pub open spec fn var_declaration(tokens: Seq<TokenView>, at: nat) -> Parsed<StmtView>
    decreases remaining(tokens, at), 30nat,
{
    if !check(tokens, at, TokenType::IDENTIFIER) {
        failed("Expect variable name."@, 0)
    } else {
        let name = token_at(tokens, at);
        let initializer = if check(tokens, at + 1, TokenType::ASSIGN) {
            expression(tokens, at + 2).after(2)
        } else {
            done(ExprView::Nil, 1)
        };
        match initializer.result {
            Err(e) => failed(e, initializer.used),
            Ok(expr) => if check(tokens, at + initializer.used, TokenType::SEMICOLON) {
                done(StmtView::Var(name, expr), initializer.used + 1)
            } else {
                failed("Expect ';' after variable declaration."@, initializer.used)
            },
        }
    }
}

/// A statement: the keyword in front decides which.
#[verifier::opaque]
pub open spec fn statement(tokens: Seq<TokenView>, at: nat) -> Parsed<StmtView>
    decreases remaining(tokens, at), 31nat,
{
    if check(tokens, at, TokenType::PRINT) {
        print_statement(tokens, at + 1).after(1)
    } else if check(tokens, at, TokenType::RETURN) {
        return_statement(tokens, at + 1, token_at(tokens, at)).after(1)
    } else if check(tokens, at, TokenType::WHILE) {
        while_statement(tokens, at + 1).after(1)
    } else if check(tokens, at, TokenType::FOR) {
        for_statement(tokens, at + 1).after(1)
    } else if check(tokens, at, TokenType::IF) {
        if_statement(tokens, at + 1).after(1)
    } else if check(tokens, at, TokenType::LEFTBRACE) {
        block(tokens, at + 1).after(1)
    } else {
        expression_statement(tokens, at)
    }
}

/// A printed expression; the semicolon behind it may be missing.
#[verifier::opaque]
pub open spec fn print_statement(tokens: Seq<TokenView>, at: nat) -> Parsed<StmtView>
    decreases remaining(tokens, at), 30nat,
{
    let value = expression(tokens, at);
    match value.result {
        Err(e) => failed(e, value.used),
        Ok(expr) => done(
            StmtView::Print(expr),
            value.used + optional(tokens, at + value.used, TokenType::SEMICOLON),
        ),
    }
}

/// A bare expression; the semicolon behind it may be missing.
#[verifier::opaque]
pub open spec fn expression_statement(tokens: Seq<TokenView>, at: nat) -> Parsed<StmtView>
    decreases remaining(tokens, at), 30nat,
{
    let value = expression(tokens, at);
    match value.result {
        Err(e) => failed(e, value.used),
        Ok(expr) => done(
            StmtView::Expression(expr),
            value.used + optional(tokens, at + value.used, TokenType::SEMICOLON),
        ),
    }
}

/// A `return` behind its keyword, with or without a value.
#[verifier::opaque]
pub open spec fn return_statement(tokens: Seq<TokenView>, at: nat, keyword: TokenView) -> Parsed<
    StmtView,
>
    decreases remaining(tokens, at), 30nat,
{
    if check(tokens, at, TokenType::SEMICOLON) {
        done(StmtView::Return(keyword, None), 1)
    } else {
        let value = expression(tokens, at);
        match value.result {
            Err(e) => failed(e, value.used),
            Ok(expr) => if check(tokens, at + value.used, TokenType::SEMICOLON) {
                done(StmtView::Return(keyword, Some(expr)), value.used + 1)
            } else {
                failed("Expect ';' after return value."@, value.used)
            },
        }
    }
}

/// A condition in parentheses, behind the keyword named in the messages.
pub open spec fn condition(tokens: Seq<TokenView>, at: nat, before: Seq<char>, behind: Seq<char>) -> Parsed<
    ExprView,
>
    decreases remaining(tokens, at), 25nat,
{
    if !check(tokens, at, TokenType::LEFTPAREN) {
        failed(before, 0)
    } else {
        let value = expression(tokens, at + 1);
        match value.result {
            Err(_) => value.after(1),
            Ok(expr) => if check(tokens, at + 1 + value.used, TokenType::RIGHTPAREN) {
                done(expr, value.used + 2)
            } else {
                failed(behind, value.used + 1)
            },
        }
    }
}

/// A `while` loop behind its keyword.
#[verifier::opaque]
pub open spec fn while_statement(tokens: Seq<TokenView>, at: nat) -> Parsed<StmtView>
    decreases remaining(tokens, at), 30nat,
{
    let head = condition(
        tokens,
        at,
        "Expect '(' after 'while'."@,
        "Expect ')' after 'while' condition."@,
    );
    match head.result {
        Err(e) => failed(e, head.used),
        Ok(expr) => {
            let body = statement(tokens, at + head.used);
            match body.result {
                Err(e) => failed(e, head.used + body.used),
                Ok(stmt) => done(
                    StmtView::While { condition: expr, body: Box::new(stmt) },
                    head.used + body.used,
                ),
            }
        },
    }
}

/// An `if` behind its keyword. An `else` belongs to the nearest `if`.
#[verifier::opaque]
pub open spec fn if_statement(tokens: Seq<TokenView>, at: nat) -> Parsed<StmtView>
    decreases remaining(tokens, at), 30nat,
{
    let head = condition(tokens, at, "Expect '(' after 'if'."@, "Expect ')' after 'if' condition."@);
    match head.result {
        Err(e) => failed(e, head.used),
        Ok(expr) => {
            let then_branch = statement(tokens, at + head.used);
            match then_branch.result {
                Err(e) => failed(e, head.used + then_branch.used),
                Ok(first) => {
                    let used = head.used + then_branch.used;
                    if check(tokens, at + used, TokenType::ELSE) {
                        let else_branch = statement(tokens, at + used + 1);
                        match else_branch.result {
                            Err(e) => failed(e, used + 1 + else_branch.used),
                            Ok(second) => done(
                                StmtView::If {
                                    condition: expr,
                                    then_branch: Box::new(first),
                                    else_branch: Some(Box::new(second)),
                                },
                                used + 1 + else_branch.used,
                            ),
                        }
                    } else {
                        done(
                            StmtView::If {
                                condition: expr,
                                then_branch: Box::new(first),
                                else_branch: None,
                            },
                            used,
                        )
                    }
                },
            }
        },
    }
}

/// The initializer clause of a `for` loop: nothing but a semicolon, a
/// variable declaration, or an expression statement.
#[verifier::opaque]
pub open spec fn for_initializer(tokens: Seq<TokenView>, at: nat) -> Parsed<Option<StmtView>>
    decreases remaining(tokens, at), 31nat,
{
    if check(tokens, at, TokenType::SEMICOLON) {
        done(None, 1)
    } else {
        let clause = if check(tokens, at, TokenType::VAR) {
            var_declaration(tokens, at + 1).after(1)
        } else {
            expression_statement(tokens, at)
        };
        match clause.result {
            Err(e) => failed(e, clause.used),
            Ok(stmt) => done(Some(stmt), clause.used),
        }
    }
}

/// An optional expression in front of a token of kind `closing`, which is
/// consumed too.
#[verifier::opaque]
pub open spec fn for_clause(tokens: Seq<TokenView>, at: nat, closing: TokenType, message: Seq<char>) -> Parsed<
    Option<ExprView>,
>
    decreases remaining(tokens, at), 25nat,
{
    if check(tokens, at, closing) {
        done(None, 1)
    } else {
        let value = expression(tokens, at);
        match value.result {
            Err(e) => failed(e, value.used),
            Ok(expr) => if check(tokens, at + value.used, closing) {
                done(Some(expr), value.used + 1)
            } else {
                failed(message, value.used)
            },
        }
    }
}

/// The statements of a loop body: those of a block, or the one statement.
pub open spec fn body_statements(body: StmtView) -> Seq<StmtView> {
    match body {
        StmtView::Block(list) => list,
        _ => seq![body],
    }
}

/// The `while` loop that a `for` loop stands for: the condition, true where
/// it is omitted; the body with the increment behind it; and, where there is
/// an initializer, a block around both.
pub open spec fn desugar(
    initializer: Option<StmtView>,
    test: Option<ExprView>,
    increment: Option<ExprView>,
    body: StmtView,
) -> StmtView {
    let statements = match increment {
        Some(expr) => body_statements(body).push(StmtView::Expression(expr)),
        None => body_statements(body),
    };
    let looping = StmtView::While {
        condition: match test {
            Some(expr) => expr,
            None => ExprView::Bool(true),
        },
        body: Box::new(StmtView::Block(statements)),
    };
    match initializer {
        Some(first) => StmtView::Block(seq![first, looping]),
        None => looping,
    }
}

/// A `for` loop behind its keyword, as the `while` loop it stands for.
#[verifier::opaque]
pub open spec fn for_statement(tokens: Seq<TokenView>, at: nat) -> Parsed<StmtView>
    decreases remaining(tokens, at), 32nat,
{
    if !check(tokens, at, TokenType::LEFTPAREN) {
        failed("Expect '(' after 'for'."@, 0)
    } else {
        let first = for_initializer(tokens, at + 1).after(1);
        match first.result {
            Err(e) => failed(e, first.used),
            Ok(initializer) => {
                let second = for_clause(
                    tokens,
                    at + first.used,
                    TokenType::SEMICOLON,
                    "Expect ';' after 'for' loop condition."@,
                ).after(first.used);
                match second.result {
                    Err(e) => failed(e, second.used),
                    Ok(test) => {
                        let third = for_clause(
                            tokens,
                            at + second.used,
                            TokenType::RIGHTPAREN,
                            "Expect ')' after 'for' clauses."@,
                        ).after(second.used);
                        match third.result {
                            Err(e) => failed(e, third.used),
                            Ok(increment) => {
                                let body = statement(tokens, at + third.used).after(third.used);
                                match body.result {
                                    Err(e) => failed(e, body.used),
                                    Ok(stmt) => done(
                                        desugar(initializer, test, increment, stmt),
                                        body.used,
                                    ),
                                }
                            },
                        }
                    },
                }
            },
        }
    }
}

pub open spec fn expect_name(kind: Seq<char>) -> Seq<char> {
    "Expect "@ + kind + " name."@
}

pub open spec fn expect_paren(kind: Seq<char>) -> Seq<char> {
    "Expect '(' after "@ + kind + " name."@
}

pub open spec fn expect_body(kind: Seq<char>) -> Seq<char> {
    "Expect '{' before "@ + kind + " body."@
}

/// The parameters from `at` on, behind those of `earlier`. No function has
/// more than 255.
#[verifier::opaque]
pub open spec fn parameters(tokens: Seq<TokenView>, at: nat, earlier: Seq<TokenView>) -> Parsed<
    Seq<TokenView>,
>
    decreases remaining(tokens, at),
{
    if earlier.len() >= MAX_ARGUMENTS {
        failed("Can't have more than 255 parameters."@, 0)
    } else if !check(tokens, at, TokenType::IDENTIFIER) {
        failed("Expect parameter name."@, 0)
    } else if check(tokens, at + 1, TokenType::COMMA) {
        parameters(tokens, at + 2, earlier.push(token_at(tokens, at))).after(2)
    } else {
        done(earlier.push(token_at(tokens, at)), 1)
    }
}

/// A function declaration behind its keyword; `kind` names what is declared
/// in the messages.
#[verifier::opaque]
pub open spec fn function(tokens: Seq<TokenView>, at: nat, kind: Seq<char>) -> Parsed<StmtView>
    decreases remaining(tokens, at), 35nat,
{
    if !check(tokens, at, TokenType::IDENTIFIER) {
        failed(expect_name(kind), 0)
    } else if !check(tokens, at + 1, TokenType::LEFTPAREN) {
        failed(expect_paren(kind), 1)
    } else {
        let list = if check(tokens, at + 2, TokenType::RIGHTPAREN) {
            done(Seq::empty(), 2)
        } else {
            parameters(tokens, at + 2, Seq::empty()).after(2)
        };
        match list.result {
            Err(e) => failed(e, list.used),
            Ok(params) => if !check(tokens, at + list.used, TokenType::RIGHTPAREN) {
                failed("Expect ')' after parameters."@, list.used)
            } else if !check(tokens, at + list.used + 1, TokenType::LEFTBRACE) {
                failed(expect_body(kind), list.used + 1)
            } else {
                let body = block(tokens, at + list.used + 2).after(list.used + 2);
                match body.result {
                    Err(e) => failed(e, body.used),
                    Ok(stmt) => done(
                        StmtView::Function {
                            name: token_at(tokens, at),
                            params,
                            body: Box::new(stmt),
                        },
                        body.used,
                    ),
                }
            },
        }
    }
}

/// A block behind its opening brace.
#[verifier::opaque]
pub open spec fn block(tokens: Seq<TokenView>, at: nat) -> Parsed<StmtView>
    decreases remaining(tokens, at), 34nat,
{
    let list = block_rest(tokens, at, Seq::empty());
    match list.result {
        Err(e) => failed(e, list.used),
        Ok(statements) => if check(tokens, at + list.used, TokenType::RIGHTBRACE) {
            done(StmtView::Block(statements), list.used + 1)
        } else {
            failed("Expect '}' after block."@, list.used)
        },
    }
}

/// The number of tokens that a rule is taken to have consumed where another
/// one follows it in a list: at least one.
pub open spec fn progress(used: nat) -> nat {
    if used == 0 {
        1
    } else {
        used
    }
}

/// The declarations from `at` up to the closing brace or the end of input,
/// behind those of `earlier`.
#[verifier::opaque]
pub open spec fn block_rest(tokens: Seq<TokenView>, at: nat, earlier: Seq<StmtView>) -> Parsed<
    Seq<StmtView>,
>
    decreases remaining(tokens, at), 33nat,
{
    if check(tokens, at, TokenType::RIGHTBRACE) || kind_at(tokens, at) == TokenType::EOF {
        done(earlier, 0)
    } else {
        let first = declaration(tokens, at);
        match first.result {
            Err(e) => failed(e, first.used),
            Ok(stmt) => block_rest(tokens, at + progress(first.used), earlier.push(stmt)).after(
                progress(first.used),
            ),
        }
    }
}

/// The declarations from `at` up to the end of input, behind those of
/// `earlier`, or the first error.
#[verifier::opaque]
pub open spec fn program_rest(tokens: Seq<TokenView>, at: nat, earlier: Seq<StmtView>) -> Parsed<
    Seq<StmtView>,
>
    decreases remaining(tokens, at), 36nat,
{
    if kind_at(tokens, at) == TokenType::EOF {
        done(earlier, 0)
    } else {
        let first = declaration(tokens, at);
        match first.result {
            Err(e) => failed(e, first.used),
            Ok(stmt) => program_rest(tokens, at + progress(first.used), earlier.push(stmt)).after(
                progress(first.used),
            ),
        }
    }
}

/// The statements of a whole token list, or the first error.
pub open spec fn program(tokens: Seq<TokenView>) -> Result<Seq<StmtView>, Seq<char>> {
    program_rest(tokens, 0, Seq::empty()).result
}

/// A primary expression that is accepted consumes a token.
pub proof fn lemma_primary_consumes(tokens: Seq<TokenView>, at: nat)
    ensures
        primary(tokens, at).result is Ok ==> primary(tokens, at).used >= 1,
{
    reveal_with_fuel(primary, 1);
    reveal_with_fuel(named_or_grouped, 1);
}

/// A call expression that is accepted consumes a token.
pub proof fn lemma_call_consumes(tokens: Seq<TokenView>, at: nat)
    ensures
        call(tokens, at).result is Ok ==> call(tokens, at).used >= 1,
{
    reveal_with_fuel(call, 1);
    reveal_with_fuel(primary, 1);
    lemma_primary_consumes(tokens, at);
}

/// A unary expression that is accepted consumes a token.
pub proof fn lemma_unary_consumes(tokens: Seq<TokenView>, at: nat)
    ensures
        unary(tokens, at).result is Ok ==> unary(tokens, at).used >= 1,
{
    reveal_with_fuel(unary, 1);
    reveal_with_fuel(call, 1);
    lemma_call_consumes(tokens, at);
}

/// A chain of binary operations that is accepted consumes a token.
pub proof fn lemma_binary_consumes(tokens: Seq<TokenView>, at: nat, level: nat)
    ensures
        binary(tokens, at, level).result is Ok ==> binary(tokens, at, level).used >= 1,
    decreases level,
{
    reveal_with_fuel(binary, 1);
    reveal_with_fuel(unary, 1);
    if level > 0 {
        lemma_binary_consumes(tokens, at, (level - 1) as nat);
    } else {
        lemma_unary_consumes(tokens, at);
    }
}

/// An expression that is accepted consumes a token.
pub proof fn lemma_expression_consumes(tokens: Seq<TokenView>, at: nat)
    ensures
        expression(tokens, at).result is Ok ==> expression(tokens, at).used >= 1,
{
    reveal_with_fuel(expression, 1);
    reveal_with_fuel(assignment, 1);
    reveal_with_fuel(binary, 1);
    lemma_binary_consumes(tokens, at, OR as nat);
}

/// Every declaration that is accepted consumes a token. So where lists of
/// declarations are parsed, in a block and at the top level, `progress`
/// changes nothing: each declaration starts where the one before it ends.
pub proof fn law_declaration_consumes(tokens: Seq<TokenView>, at: nat)
    ensures
        declaration(tokens, at).result is Ok ==> declaration(tokens, at).used >= 1 && progress(
            declaration(tokens, at).used,
        ) == declaration(tokens, at).used,
{
    reveal_with_fuel(declaration, 1);
    reveal_with_fuel(statement, 1);
    reveal_with_fuel(expression_statement, 1);
    lemma_expression_consumes(tokens, at);
}

/// No call has more than 255 arguments: an argument list that is accepted
/// behind at most 255 earlier arguments holds at most 255.
pub proof fn law_arguments_are_capped(tokens: Seq<TokenView>, at: nat, earlier: Seq<ExprView>)
    requires
        earlier.len() <= MAX_ARGUMENTS,
    ensures
        arguments(tokens, at, earlier).result matches Ok(list) ==> list.len() <= MAX_ARGUMENTS,
    decreases remaining(tokens, at),
{
    reveal_with_fuel(arguments, 1);
    reveal_with_fuel(expression, 1);
    if earlier.len() < MAX_ARGUMENTS {
        let argument = expression(tokens, at);
        match argument.result {
            Ok(expr) => {
                if check(tokens, at + argument.used, TokenType::COMMA) {
                    law_arguments_are_capped(tokens, at + argument.used + 1, earlier.push(expr));
                }
            },
            Err(_) => {},
        }
    }
}

/// No function has more than 255 parameters.
pub proof fn law_parameters_are_capped(tokens: Seq<TokenView>, at: nat, earlier: Seq<TokenView>)
    requires
        earlier.len() <= MAX_ARGUMENTS,
    ensures
        parameters(tokens, at, earlier).result matches Ok(list) ==> list.len() <= MAX_ARGUMENTS,
    decreases remaining(tokens, at),
{
    reveal_with_fuel(parameters, 1);
    if earlier.len() < MAX_ARGUMENTS && check(tokens, at, TokenType::IDENTIFIER) && check(
        tokens,
        at + 1,
        TokenType::COMMA,
    ) {
        law_parameters_are_capped(tokens, at + 2, earlier.push(token_at(tokens, at)));
    }
}

} // verus!
