//! The recursive-descent parser: it builds the statements that the grammar
//! assigns to a token list, or reports the first error.
use vstd::prelude::*;
use crate::expr::{Expr, ExprView, expr_views};
use crate::grammar;
use crate::grammar::{Parsed, MAX_ARGUMENTS};
use crate::stmt::{Stmt, StmtView, stmt_views};
use crate::text::push_decimal;
use crate::token::{Token, TokenLiteral, TokenType, TokenView, token_views};

verus! {

/// A syntax error, as its message.
#[derive(Debug, PartialEq, Eq)]
pub struct ParseError(pub String);

impl View for ParseError {
    type V = Seq<char>;

    open spec fn view(&self) -> Seq<char> {
        self.0@
    }
}

pub type ParseResult = Result<Expr, ParseError>;

pub type ParseStmtResult = Result<Stmt, ParseError>;

/// The content of the outcome of parsing an expression.
pub open spec fn expr_outcome(r: Result<Expr, ParseError>) -> Result<ExprView, Seq<char>> {
    match r {
        Ok(expr) => Ok(expr@),
        Err(e) => Err(e@),
    }
}

/// The content of the outcome of parsing a list of expressions.
pub open spec fn exprs_outcome(r: Result<Vec<Expr>, ParseError>) -> Result<Seq<ExprView>, Seq<char>> {
    match r {
        Ok(list) => Ok(expr_views(list@)),
        Err(e) => Err(e@),
    }
}

/// The content of the outcome of parsing a statement.
pub open spec fn stmt_outcome(r: Result<Stmt, ParseError>) -> Result<StmtView, Seq<char>> {
    match r {
        Ok(stmt) => Ok(stmt@),
        Err(e) => Err(e@),
    }
}

/// The content of the outcome of parsing a list of statements.
pub open spec fn stmts_outcome(r: Result<Vec<Stmt>, ParseError>) -> Result<Seq<StmtView>, Seq<char>> {
    match r {
        Ok(list) => Ok(stmt_views(list@)),
        Err(e) => Err(e@),
    }
}

/// The content of the outcome of consuming a token.
pub open spec fn token_outcome(r: Result<Token, ParseError>) -> Result<TokenView, Seq<char>> {
    match r {
        Ok(token) => Ok(token@),
        Err(e) => Err(e@),
    }
}

fn error(message: &str) -> (r: ParseError)
    ensures
        r@ == message@,
{
    ParseError(String::from_str(message))
}

fn is_level_operator(level: u8, kind: TokenType) -> (r: bool)
    ensures
        r == grammar::level_operator(level as nat, kind),
{
    if level == grammar::FACTOR {
        kind == TokenType::SLASH || kind == TokenType::STAR
    } else if level == grammar::TERM {
        kind == TokenType::MINUS || kind == TokenType::PLUS
    } else if level == grammar::COMPARISON {
        kind == TokenType::GREATER || kind == TokenType::GREATEREQUAL || kind == TokenType::LESS
            || kind == TokenType::LESSEQUAL
    } else if level == grammar::EQUALITY {
        kind == TokenType::NOTEQUAL || kind == TokenType::EQUAL
    } else if level == grammar::AND {
        kind == TokenType::AND
    } else {
        kind == TokenType::OR
    }
}

fn starts_statement(kind: TokenType) -> (r: bool)
    ensures
        r == grammar::starts_statement(kind),
{
    kind == TokenType::CLASS || kind == TokenType::FUN || kind == TokenType::VAR || kind
        == TokenType::FOR || kind == TokenType::IF || kind == TokenType::WHILE || kind
        == TokenType::PRINT || kind == TokenType::RETURN
}

/// The content of an optional expression.
pub open spec fn optional_expr_view(e: Option<Expr>) -> Option<ExprView> {
    match e {
        Some(expr) => Some(expr@),
        None => None,
    }
}

/// The content of an optional statement.
pub open spec fn optional_stmt_view(s: Option<Stmt>) -> Option<StmtView> {
    match s {
        Some(stmt) => Some(stmt@),
        None => None,
    }
}

pub open spec fn optional_expr_outcome(r: Result<Option<Expr>, ParseError>) -> Result<
    Option<ExprView>,
    Seq<char>,
> {
    match r {
        Ok(e) => Ok(optional_expr_view(e)),
        Err(e) => Err(e@),
    }
}

pub open spec fn optional_stmt_outcome(r: Result<Option<Stmt>, ParseError>) -> Result<
    Option<StmtView>,
    Seq<char>,
> {
    match r {
        Ok(s) => Ok(optional_stmt_view(s)),
        Err(e) => Err(e@),
    }
}

/// The content of the outcome of parsing a list of tokens.
pub open spec fn tokens_outcome(r: Result<Vec<Token>, ParseError>) -> Result<Seq<TokenView>, Seq<char>> {
    match r {
        Ok(list) => Ok(token_views(list@)),
        Err(e) => Err(e@),
    }
}

/// The `while` loop that a `for` loop with these parts stands for.
fn desugar(initializer: Option<Stmt>, test: Option<Expr>, increment: Option<Expr>, body: Stmt) -> (r: Stmt)
    ensures
        r@ == grammar::desugar(
            optional_stmt_view(initializer),
            optional_expr_view(test),
            optional_expr_view(increment),
            body@,
        ),
{
    let ghost parts = grammar::body_statements(body@);
    let mut statements = match body {
        Stmt::Block(list) => list,
        other => {
            let mut list: Vec<Stmt> = Vec::new();
            list.push(other);
            list
        },
    };
    assert(stmt_views(statements@) =~= parts);
    if let Some(expr) = increment {
        statements.push(Stmt::Expression(expr));
        assert(stmt_views(statements@) =~= parts.push(StmtView::Expression(expr@)));
    }
    let condition = match test {
        Some(expr) => expr,
        None => Expr::Bool(true),
    };
    let ghost inner = stmt_views(statements@);
    let block = Stmt::Block(statements);
    assert(block@->Block_0 =~= inner);
    let looping = Stmt::While { condition, body: Box::new(block) };
    match initializer {
        Some(first) => {
            let mut list: Vec<Stmt> = Vec::new();
            list.push(first);
            list.push(looping);
            let r = Stmt::Block(list);
            assert(r@->Block_0 =~= seq![first@, looping@]);
            r
        },
        None => looping,
    }
}

/// The parser over one token list.
pub struct Parser {
    pub tokens: Vec<Token>,
    /// The next token to read.
    pub current: usize,
}

impl Parser {
    /// The token list as the grammar reads it.
    pub open spec fn input(&self) -> Seq<TokenView> {
        token_views(self.tokens@)
    }

    /// The token list ends with the end-of-input token, and the parser
    /// stands within it.
    pub open spec fn wf(&self) -> bool {
        grammar::well_formed(self.input()) && self.current < self.tokens.len()
    }

    /// This parser has read `outcome.used` tokens more than `before`.
    pub open spec fn reached<T>(&self, before: &Parser, outcome: Parsed<T>) -> bool {
        self.wf() && self.tokens == before.tokens && self.current == before.current + outcome.used
    }

    pub fn new(tokens: Vec<Token>) -> (r: Self)
        requires
            grammar::well_formed(token_views(tokens@)),
        ensures
            r.wf(),
            r.tokens == tokens,
            r.current == 0,
    {
        Self { tokens, current: 0 }
    }

    /// The statements of the rest of the token list, or the first error.
    /// From the start of a list that is `program` of the grammar.
    #[verifier::loop_isolation(false)]
    pub fn parse(&mut self) -> (r: Result<Vec<Stmt>, ParseError>)
        requires
            old(self).wf(),
        ensures
            final(self).reached(
                old(self),
                grammar::program_rest(old(self).input(), old(self).current as nat, Seq::empty()),
            ),
            stmts_outcome(r) == grammar::program_rest(
                old(self).input(),
                old(self).current as nat,
                Seq::empty(),
            ).result,
            old(self).current == 0 ==> stmts_outcome(r) == grammar::program(old(self).input()),
    {
        proof {
            reveal_with_fuel(grammar::program_rest, 1);
            reveal_with_fuel(grammar::declaration, 1);
        }
        let ghost input = self.input();
        let ghost start = self.current as nat;
        let ghost goal = grammar::program_rest(input, start, Seq::empty());
        let mut statements: Vec<Stmt> = Vec::new();
        assert(stmt_views(statements@) =~= Seq::empty());
        while !self.is_at_end()
            invariant
                self.wf(),
                self.tokens == old(self).tokens,
                input == self.input(),
                start == old(self).current,
                start <= self.current,
                goal == grammar::program_rest(input, start, Seq::empty()),
                goal == grammar::program_rest(input, self.current as nat, stmt_views(statements@)).after(
                    (self.current - start) as nat,
                ),
            decreases self.tokens.len() - self.current,
        {
            proof {
                reveal_with_fuel(grammar::program_rest, 1);
                reveal_with_fuel(grammar::declaration, 1);
            }
            let ghost earlier = stmt_views(statements@);
            let statement = self.declaration()?;
            statements.push(statement);
            assert(stmt_views(statements@) =~= earlier.push(statement@));
        }
        Ok(statements)
    }

    fn declaration(&mut self) -> (r: ParseStmtResult)
        requires
            old(self).wf(),
            !old(self).at_end(),
        ensures
            final(self).reached(old(self), grammar::declaration(old(self).input(), old(self).current as nat)),
            stmt_outcome(r) == grammar::declaration(old(self).input(), old(self).current as nat).result,
            r is Ok ==> final(self).current > old(self).current,
        decreases old(self).tokens.len() - old(self).current, 32nat,
    {
        proof {
            reveal_with_fuel(grammar::declaration, 1);
            reveal_with_fuel(grammar::statement, 1);
            reveal_with_fuel(grammar::function, 1);
        }
        let outcome = if self.match_type(TokenType::VAR) {
            self.var_declaration()
        } else if self.match_type(TokenType::FUN) {
            self.function("function")
        } else {
            self.statement()
        };
        match outcome {
            Ok(statement) => Ok(statement),
            Err(e) => {
                self.synchronize();
                Err(e)
            },
        }
    }

    fn var_declaration(&mut self) -> (r: ParseStmtResult)
        requires
            old(self).wf(),
        ensures
            final(self).reached(
                old(self),
                grammar::var_declaration(old(self).input(), old(self).current as nat),
            ),
            stmt_outcome(r) == grammar::var_declaration(old(self).input(), old(self).current as nat).result,
            r is Ok ==> final(self).current > old(self).current,
        decreases old(self).tokens.len() - old(self).current, 30nat,
    {
        proof {
            reveal_with_fuel(grammar::var_declaration, 1);
        }
        let name = self.consume(TokenType::IDENTIFIER, "Expect variable name.")?;
        let initializer = if self.match_type(TokenType::ASSIGN) {
            self.expression()?
        } else {
            Expr::Nil
        };
        self.consume(TokenType::SEMICOLON, "Expect ';' after variable declaration.")?;
        Ok(Stmt::Var(name, initializer))
    }

    fn statement(&mut self) -> (r: ParseStmtResult)
        requires
            old(self).wf(),
        ensures
            final(self).reached(old(self), grammar::statement(old(self).input(), old(self).current as nat)),
            stmt_outcome(r) == grammar::statement(old(self).input(), old(self).current as nat).result,
            r is Ok ==> final(self).current > old(self).current,
        decreases old(self).tokens.len() - old(self).current, 31nat,
    {
        proof {
            reveal_with_fuel(grammar::statement, 1);
            reveal_with_fuel(grammar::while_statement, 1);
            reveal_with_fuel(grammar::for_statement, 1);
            reveal_with_fuel(grammar::if_statement, 1);
            reveal_with_fuel(grammar::block, 1);
        }
        if self.match_type(TokenType::PRINT) {
            self.print_statement()
        } else if self.match_type(TokenType::RETURN) {
            self.return_statement()
        } else if self.match_type(TokenType::WHILE) {
            self.while_statement()
        } else if self.match_type(TokenType::FOR) {
            self.for_statement()
        } else if self.match_type(TokenType::IF) {
            self.if_statement()
        } else if self.match_type(TokenType::LEFTBRACE) {
            self.block()
        } else {
            self.expression_statement()
        }
    }

    fn for_statement(&mut self) -> (r: ParseStmtResult)
        requires
            old(self).wf(),
        ensures
            final(self).reached(
                old(self),
                grammar::for_statement(old(self).input(), old(self).current as nat),
            ),
            stmt_outcome(r) == grammar::for_statement(old(self).input(), old(self).current as nat).result,
            r is Ok ==> final(self).current > old(self).current,
        decreases old(self).tokens.len() - old(self).current, 32nat,
    {
        proof {
            reveal_with_fuel(grammar::for_statement, 1);
            reveal_with_fuel(grammar::statement, 1);
        }
        self.consume(TokenType::LEFTPAREN, "Expect '(' after 'for'.")?;
        let initializer = self.for_initializer()?;
        let test = self.for_clause(TokenType::SEMICOLON, "Expect ';' after 'for' loop condition.")?;
        let increment = self.for_clause(TokenType::RIGHTPAREN, "Expect ')' after 'for' clauses.")?;
        let body = self.statement()?;
        Ok(desugar(initializer, test, increment, body))
    }

    fn for_initializer(&mut self) -> (r: Result<Option<Stmt>, ParseError>)
        requires
            old(self).wf(),
        ensures
            final(self).reached(
                old(self),
                grammar::for_initializer(old(self).input(), old(self).current as nat),
            ),
            optional_stmt_outcome(r) == grammar::for_initializer(
                old(self).input(),
                old(self).current as nat,
            ).result,
            r is Ok ==> final(self).current > old(self).current,
        decreases old(self).tokens.len() - old(self).current, 31nat,
    {
        proof {
            reveal_with_fuel(grammar::for_initializer, 1);
        }
        if self.match_type(TokenType::SEMICOLON) {
            Ok(None)
        } else if self.match_type(TokenType::VAR) {
            Ok(Some(self.var_declaration()?))
        } else {
            Ok(Some(self.expression_statement()?))
        }
    }

    /// An optional expression and the token of kind `closing` behind it.
    fn for_clause(&mut self, closing: TokenType, message: &str) -> (r: Result<Option<Expr>, ParseError>)
        requires
            old(self).wf(),
        ensures
            final(self).reached(
                old(self),
                grammar::for_clause(old(self).input(), old(self).current as nat, closing, message@),
            ),
            optional_expr_outcome(r) == grammar::for_clause(
                old(self).input(),
                old(self).current as nat,
                closing,
                message@,
            ).result,
            r is Ok ==> final(self).current > old(self).current,
        decreases old(self).tokens.len() - old(self).current, 25nat,
    {
        proof {
            reveal_with_fuel(grammar::for_clause, 1);
        }
        let clause = if !self.check(closing) {
            Some(self.expression()?)
        } else {
            None
        };
        self.consume(closing, message)?;
        Ok(clause)
    }

    /// A condition in parentheses; the messages name what it belongs to.
    fn condition(&mut self, before: &str, behind: &str) -> (r: ParseResult)
        requires
            old(self).wf(),
        ensures
            final(self).reached(
                old(self),
                grammar::condition(old(self).input(), old(self).current as nat, before@, behind@),
            ),
            expr_outcome(r) == grammar::condition(
                old(self).input(),
                old(self).current as nat,
                before@,
                behind@,
            ).result,
            r is Ok ==> final(self).current > old(self).current,
        decreases old(self).tokens.len() - old(self).current, 25nat,
    {
        self.consume(TokenType::LEFTPAREN, before)?;
        let condition = self.expression()?;
        self.consume(TokenType::RIGHTPAREN, behind)?;
        Ok(condition)
    }

    fn while_statement(&mut self) -> (r: ParseStmtResult)
        requires
            old(self).wf(),
        ensures
            final(self).reached(
                old(self),
                grammar::while_statement(old(self).input(), old(self).current as nat),
            ),
            stmt_outcome(r) == grammar::while_statement(old(self).input(), old(self).current as nat).result,
            r is Ok ==> final(self).current > old(self).current,
        decreases old(self).tokens.len() - old(self).current, 30nat,
    {
        proof {
            reveal_with_fuel(grammar::while_statement, 1);
            reveal_with_fuel(grammar::statement, 1);
        }
        let condition = self.condition("Expect '(' after 'while'.", "Expect ')' after 'while' condition.")?;
        let body = Box::new(self.statement()?);
        Ok(Stmt::While { condition, body })
    }

    fn if_statement(&mut self) -> (r: ParseStmtResult)
        requires
            old(self).wf(),
        ensures
            final(self).reached(
                old(self),
                grammar::if_statement(old(self).input(), old(self).current as nat),
            ),
            stmt_outcome(r) == grammar::if_statement(old(self).input(), old(self).current as nat).result,
            r is Ok ==> final(self).current > old(self).current,
        decreases old(self).tokens.len() - old(self).current, 30nat,
    {
        proof {
            reveal_with_fuel(grammar::if_statement, 1);
            reveal_with_fuel(grammar::statement, 1);
        }
        let condition = self.condition("Expect '(' after 'if'.", "Expect ')' after 'if' condition.")?;
        let then_branch = Box::new(self.statement()?);
        let mut else_branch = None;
        if self.match_type(TokenType::ELSE) {
            else_branch = Some(Box::new(self.statement()?));
        }
        Ok(Stmt::If { condition, then_branch, else_branch })
    }

    fn print_statement(&mut self) -> (r: ParseStmtResult)
        requires
            old(self).wf(),
        ensures
            final(self).reached(
                old(self),
                grammar::print_statement(old(self).input(), old(self).current as nat),
            ),
            stmt_outcome(r) == grammar::print_statement(old(self).input(), old(self).current as nat).result,
            r is Ok ==> final(self).current > old(self).current,
        decreases old(self).tokens.len() - old(self).current, 30nat,
    {
        proof {
            reveal_with_fuel(grammar::print_statement, 1);
        }
        let value = self.expression()?;
        self.match_type(TokenType::SEMICOLON);
        Ok(Stmt::Print(value))
    }

    fn return_statement(&mut self) -> (r: ParseStmtResult)
        requires
            old(self).wf(),
            old(self).current > 0,
        ensures
            final(self).reached(
                old(self),
                grammar::return_statement(
                    old(self).input(),
                    old(self).current as nat,
                    grammar::token_at(old(self).input(), (old(self).current - 1) as nat),
                ),
            ),
            stmt_outcome(r) == grammar::return_statement(
                old(self).input(),
                old(self).current as nat,
                grammar::token_at(old(self).input(), (old(self).current - 1) as nat),
            ).result,
            r is Ok ==> final(self).current > old(self).current,
        decreases old(self).tokens.len() - old(self).current, 30nat,
    {
        proof {
            reveal_with_fuel(grammar::return_statement, 1);
        }
        let keyword = self.previous().clone();
        let value = if !self.check(TokenType::SEMICOLON) {
            Some(self.expression()?)
        } else {
            None
        };
        self.consume(TokenType::SEMICOLON, "Expect ';' after return value.")?;
        Ok(Stmt::Return(keyword, value))
    }

    fn expression_statement(&mut self) -> (r: ParseStmtResult)
        requires
            old(self).wf(),
        ensures
            final(self).reached(
                old(self),
                grammar::expression_statement(old(self).input(), old(self).current as nat),
            ),
            stmt_outcome(r) == grammar::expression_statement(
                old(self).input(),
                old(self).current as nat,
            ).result,
            r is Ok ==> final(self).current > old(self).current,
        decreases old(self).tokens.len() - old(self).current, 30nat,
    {
        proof {
            reveal_with_fuel(grammar::expression_statement, 1);
        }
        let expr = self.expression()?;
        self.match_type(TokenType::SEMICOLON);
        Ok(Stmt::Expression(expr))
    }

    fn function(&mut self, kind: &str) -> (r: ParseStmtResult)
        requires
            old(self).wf(),
        ensures
            final(self).reached(
                old(self),
                grammar::function(old(self).input(), old(self).current as nat, kind@),
            ),
            stmt_outcome(r) == grammar::function(old(self).input(), old(self).current as nat, kind@).result,
            r is Ok ==> final(self).current > old(self).current,
        decreases old(self).tokens.len() - old(self).current, 35nat,
    {
        proof {
            reveal_with_fuel(grammar::function, 1);
            reveal_with_fuel(grammar::block, 1);
        }
        let mut expect_name = String::from_str("Expect ");
        expect_name.append(kind);
        expect_name.append(" name.");
        let name = self.consume(TokenType::IDENTIFIER, expect_name.as_str())?;
        let mut expect_paren = String::from_str("Expect '(' after ");
        expect_paren.append(kind);
        expect_paren.append(" name.");
        self.consume(TokenType::LEFTPAREN, expect_paren.as_str())?;
        let params = if self.check(TokenType::RIGHTPAREN) {
            let list: Vec<Token> = Vec::new();
            assert(token_views(list@) =~= Seq::empty());
            list
        } else {
            self.parameters()?
        };
        self.consume(TokenType::RIGHTPAREN, "Expect ')' after parameters.")?;
        let mut expect_body = String::from_str("Expect '{' before ");
        expect_body.append(kind);
        expect_body.append(" body.");
        self.consume(TokenType::LEFTBRACE, expect_body.as_str())?;
        let body = Box::new(self.block()?);
        Ok(Stmt::Function { name, params, body })
    }

    /// The parameters of a function, up to the closing parenthesis.
    fn parameters(&mut self) -> (r: Result<Vec<Token>, ParseError>)
        requires
            old(self).wf(),
        ensures
            final(self).reached(
                old(self),
                grammar::parameters(old(self).input(), old(self).current as nat, Seq::empty()),
            ),
            tokens_outcome(r) == grammar::parameters(
                old(self).input(),
                old(self).current as nat,
                Seq::empty(),
            ).result,
    {
        proof {
            reveal_with_fuel(grammar::parameters, 1);
        }
        let ghost input = self.input();
        let ghost start = self.current as nat;
        let ghost goal = grammar::parameters(input, start, Seq::empty());
        let mut params: Vec<Token> = Vec::new();
        assert(token_views(params@) =~= Seq::empty());
        loop
            invariant_except_break
                goal == grammar::parameters(input, self.current as nat, token_views(params@)).after(
                    (self.current - start) as nat,
                ),
            invariant
                self.wf(),
                self.tokens == old(self).tokens,
                input == self.input(),
                start == old(self).current,
                start <= self.current,
                goal == grammar::parameters(input, start, Seq::empty()),
            ensures
                goal == grammar::done(token_views(params@), (self.current - start) as nat),
            decreases self.tokens.len() - self.current,
        {
            proof {
                reveal_with_fuel(grammar::parameters, 1);
            }
            if params.len() >= MAX_ARGUMENTS {
                return Err(error("Can't have more than 255 parameters."));
            }
            let ghost earlier = token_views(params@);
            let param = self.consume(TokenType::IDENTIFIER, "Expect parameter name.")?;
            params.push(param);
            assert(token_views(params@) =~= earlier.push(param@));
            if !self.match_type(TokenType::COMMA) {
                break ;
            }
        }
        Ok(params)
    }

    #[verifier::loop_isolation(false)]
    fn block(&mut self) -> (r: ParseStmtResult)
        requires
            old(self).wf(),
        ensures
            final(self).reached(old(self), grammar::block(old(self).input(), old(self).current as nat)),
            stmt_outcome(r) == grammar::block(old(self).input(), old(self).current as nat).result,
            r is Ok ==> final(self).current > old(self).current,
        decreases old(self).tokens.len() - old(self).current, 34nat,
    {
        proof {
            reveal_with_fuel(grammar::block, 1);
            reveal_with_fuel(grammar::declaration, 1);
            reveal_with_fuel(grammar::block_rest, 1);
        }
        let ghost input = self.input();
        let ghost start = self.current as nat;
        let ghost goal = grammar::block_rest(input, start, Seq::empty());
        let mut statements: Vec<Stmt> = Vec::new();
        assert(stmt_views(statements@) =~= Seq::empty());
        while !self.check(TokenType::RIGHTBRACE) && !self.is_at_end()
            invariant
                self.wf(),
                self.tokens == old(self).tokens,
                input == self.input(),
                start == old(self).current,
                start <= self.current,
                goal == grammar::block_rest(input, start, Seq::empty()),
                goal == grammar::block_rest(input, self.current as nat, stmt_views(statements@)).after(
                    (self.current - start) as nat,
                ),
            decreases self.tokens.len() - self.current,
        {
            proof {
                reveal_with_fuel(grammar::block_rest, 1);
                reveal_with_fuel(grammar::declaration, 1);
            }
            let ghost earlier = stmt_views(statements@);
            let statement = self.declaration()?;
            statements.push(statement);
            assert(stmt_views(statements@) =~= earlier.push(statement@));
        }
        self.consume(TokenType::RIGHTBRACE, "Expect '}' after block.")?;
        let r = Stmt::Block(statements);
        assert(r@->Block_0 =~= stmt_views(statements@));
        Ok(r)
    }

    fn expression(&mut self) -> (r: ParseResult)
        requires
            old(self).wf(),
        ensures
            final(self).reached(old(self), grammar::expression(old(self).input(), old(self).current as nat)),
            expr_outcome(r) == grammar::expression(old(self).input(), old(self).current as nat).result,
            r is Ok ==> final(self).current > old(self).current,
        decreases old(self).tokens.len() - old(self).current, 21nat,
    {
        proof {
            reveal_with_fuel(grammar::expression, 1);
            reveal_with_fuel(grammar::assignment, 1);
        }
        self.assignment()
    }

    fn assignment(&mut self) -> (r: ParseResult)
        requires
            old(self).wf(),
        ensures
            final(self).reached(old(self), grammar::assignment(old(self).input(), old(self).current as nat)),
            expr_outcome(r) == grammar::assignment(old(self).input(), old(self).current as nat).result,
            r is Ok ==> final(self).current > old(self).current,
        decreases old(self).tokens.len() - old(self).current, 20nat,
    {
        proof {
            reveal_with_fuel(grammar::assignment, 1);
            reveal_with_fuel(grammar::binary, 1);
        }
        let expr = self.binary(grammar::OR)?;
        if self.match_type(TokenType::ASSIGN) {
            let line = self.previous().line;
            let value = self.assignment()?;
            if let Expr::Variable(id, name) = expr {
                return Ok(Expr::Assign(id, name, Box::new(value)));
            }
            let mut message = String::from_str("[line ");
            push_decimal(&mut message, line);
            message.append("] Invalid assignment target ");
            value.render_into(&mut message);
            assert(message@ =~= grammar::invalid_target(line, value@));
            return Err(ParseError(message));
        }
        Ok(expr)
    }

    /// The operand of an operation of the given level: the next tighter
    /// level, or a unary expression below the tightest.
    fn operand(&mut self, level: u8) -> (r: ParseResult)
        requires
            old(self).wf(),
            level <= grammar::OR,
        ensures
            final(self).reached(
                old(self),
                if level == grammar::FACTOR {
                    grammar::unary(old(self).input(), old(self).current as nat)
                } else {
                    grammar::binary(old(self).input(), old(self).current as nat, (level - 1) as nat)
                },
            ),
            expr_outcome(r) == (if level == grammar::FACTOR {
                grammar::unary(old(self).input(), old(self).current as nat)
            } else {
                grammar::binary(old(self).input(), old(self).current as nat, (level - 1) as nat)
            }).result,
            r is Ok ==> final(self).current > old(self).current,
        decreases old(self).tokens.len() - old(self).current, 4 + 2 * level,
    {
        if level == grammar::FACTOR {
            self.unary()
        } else {
            self.binary(level - 1)
        }
    }

    /// A chain of left-associative operations of the given level.
    #[verifier::loop_isolation(false)]
    fn binary(&mut self, level: u8) -> (r: ParseResult)
        requires
            old(self).wf(),
            level <= grammar::OR,
        ensures
            final(self).reached(
                old(self),
                grammar::binary(old(self).input(), old(self).current as nat, level as nat),
            ),
            expr_outcome(r) == grammar::binary(
                old(self).input(),
                old(self).current as nat,
                level as nat,
            ).result,
            r is Ok ==> final(self).current > old(self).current,
        decreases old(self).tokens.len() - old(self).current, 5 + 2 * level,
    {
        proof {
            reveal_with_fuel(grammar::binary, 1);
            reveal_with_fuel(grammar::unary, 1);
            reveal_with_fuel(grammar::binary_rest, 1);
        }
        let ghost input = self.input();
        let ghost start = self.current as nat;
        let ghost goal = grammar::binary(input, start, level as nat);
        let mut expr = self.operand(level)?;
        while self.match_level(level)
            invariant
                self.wf(),
                self.tokens == old(self).tokens,
                input == self.input(),
                level <= grammar::OR,
                start == old(self).current,
                start < self.current,
                goal == grammar::binary(input, start, level as nat),
                goal == grammar::binary_rest(input, self.current as nat, level as nat, expr@).after(
                    (self.current - start) as nat,
                ),
            decreases self.tokens.len() - self.current,
        {
            proof {
                reveal_with_fuel(grammar::binary_rest, 1);
                reveal_with_fuel(grammar::unary, 1);
                reveal_with_fuel(grammar::binary, 1);
            }
            let operator = self.previous().clone();
            let right = self.operand(level)?;
            expr = if level >= grammar::AND {
                Expr::Logical { operator, left: Box::new(expr), right: Box::new(right) }
            } else {
                Expr::Binary { operator, left: Box::new(expr), right: Box::new(right) }
            };
        }
        Ok(expr)
    }

    fn unary(&mut self) -> (r: ParseResult)
        requires
            old(self).wf(),
        ensures
            final(self).reached(old(self), grammar::unary(old(self).input(), old(self).current as nat)),
            expr_outcome(r) == grammar::unary(old(self).input(), old(self).current as nat).result,
            r is Ok ==> final(self).current > old(self).current,
        decreases old(self).tokens.len() - old(self).current, 3nat,
    {
        proof {
            reveal_with_fuel(grammar::unary, 1);
            reveal_with_fuel(grammar::call, 1);
        }
        if self.match_type(TokenType::BANG) || self.match_type(TokenType::MINUS) {
            let operator = self.previous().clone();
            let right = self.unary()?;
            return Ok(Expr::Unary { operator, right: Box::new(right) });
        }
        self.call()
    }

    fn call(&mut self) -> (r: ParseResult)
        requires
            old(self).wf(),
        ensures
            final(self).reached(old(self), grammar::call(old(self).input(), old(self).current as nat)),
            expr_outcome(r) == grammar::call(old(self).input(), old(self).current as nat).result,
            r is Ok ==> final(self).current > old(self).current,
        decreases old(self).tokens.len() - old(self).current, 2nat,
    {
        proof {
            reveal_with_fuel(grammar::call, 1);
            reveal_with_fuel(grammar::primary, 1);
            reveal_with_fuel(grammar::call_rest, 1);
            reveal_with_fuel(grammar::finish_call, 1);
        }
        let ghost input = self.input();
        let ghost start = self.current as nat;
        let ghost goal = grammar::call(input, start);
        let mut expr = self.primary()?;
        loop
            invariant_except_break
                goal == grammar::call_rest(input, self.current as nat, expr@).after(
                    (self.current - start) as nat,
                ),
            invariant
                self.wf(),
                self.tokens == old(self).tokens,
                input == self.input(),
                start == old(self).current,
                start < self.current,
                goal == grammar::call(input, start),
            ensures
                goal == grammar::done(expr@, (self.current - start) as nat),
            decreases self.tokens.len() - self.current,
        {
            proof {
                reveal_with_fuel(grammar::call_rest, 1);
                reveal_with_fuel(grammar::primary, 1);
                reveal_with_fuel(grammar::finish_call, 1);
            }
            if self.match_type(TokenType::LEFTPAREN) {
                expr = self.finish_call(expr)?;
            } else {
                break ;
            }
        }
        Ok(expr)
    }

    fn finish_call(&mut self, callee: Expr) -> (r: ParseResult)
        requires
            old(self).wf(),
        ensures
            final(self).reached(
                old(self),
                grammar::finish_call(old(self).input(), old(self).current as nat, callee@),
            ),
            expr_outcome(r) == grammar::finish_call(
                old(self).input(),
                old(self).current as nat,
                callee@,
            ).result,
            r is Ok ==> final(self).current > old(self).current,
        decreases old(self).tokens.len() - old(self).current, 23nat,
    {
        proof {
            reveal_with_fuel(grammar::finish_call, 1);
            reveal_with_fuel(grammar::arguments, 1);
        }
        let arguments = if self.check(TokenType::RIGHTPAREN) {
            let list: Vec<Expr> = Vec::new();
            assert(expr_views(list@) =~= Seq::empty());
            list
        } else {
            self.arguments()?
        };
        let paren = self.consume(TokenType::RIGHTPAREN, "Expect ')' after function arguments.")?;
        let r = Expr::Call { callee: Box::new(callee), paren, arguments };
        assert(r@->Call_arguments =~= expr_views(arguments@));
        Ok(r)
    }

    /// The arguments of a call, up to the closing parenthesis.
    #[verifier::rlimit(80)]
    fn arguments(&mut self) -> (r: Result<Vec<Expr>, ParseError>)
        requires
            old(self).wf(),
        ensures
            final(self).reached(
                old(self),
                grammar::arguments(old(self).input(), old(self).current as nat, Seq::empty()),
            ),
            exprs_outcome(r) == grammar::arguments(
                old(self).input(),
                old(self).current as nat,
                Seq::empty(),
            ).result,
        decreases old(self).tokens.len() - old(self).current, 22nat,
    {
        proof {
            reveal_with_fuel(grammar::arguments, 1);
            reveal_with_fuel(grammar::expression, 1);
        }
        let ghost input = self.input();
        let ghost start = self.current as nat;
        let ghost goal = grammar::arguments(input, start, Seq::empty());
        let mut arguments: Vec<Expr> = Vec::new();
        assert(expr_views(arguments@) =~= Seq::empty());
        loop
            invariant_except_break
                goal == grammar::arguments(input, self.current as nat, expr_views(arguments@)).after(
                    (self.current - start) as nat,
                ),
            invariant
                self.wf(),
                self.tokens == old(self).tokens,
                input == self.input(),
                start == old(self).current,
                start <= self.current,
                goal == grammar::arguments(input, start, Seq::empty()),
            ensures
                goal == grammar::done(expr_views(arguments@), (self.current - start) as nat),
            decreases self.tokens.len() - self.current,
        {
            proof {
                reveal_with_fuel(grammar::arguments, 1);
                reveal_with_fuel(grammar::expression, 1);
            }
            if arguments.len() >= MAX_ARGUMENTS {
                return Err(error("Can't have more than 255 arguments"));
            }
            let ghost earlier = expr_views(arguments@);
            let argument = self.expression()?;
            arguments.push(argument);
            assert(expr_views(arguments@) =~= earlier.push(argument@));
            if !self.match_type(TokenType::COMMA) {
                break ;
            }
        }
        Ok(arguments)
    }

    fn primary(&mut self) -> (r: ParseResult)
        requires
            old(self).wf(),
        ensures
            final(self).reached(old(self), grammar::primary(old(self).input(), old(self).current as nat)),
            expr_outcome(r) == grammar::primary(old(self).input(), old(self).current as nat).result,
            r is Ok ==> final(self).current > old(self).current,
        decreases old(self).tokens.len() - old(self).current, 1nat,
    {
        proof {
            reveal_with_fuel(grammar::primary, 1);
            reveal_with_fuel(grammar::named_or_grouped, 1);
        }
        if self.match_type(TokenType::TRUE) {
            return Ok(Expr::Bool(true));
        } else if self.match_type(TokenType::FALSE) {
            return Ok(Expr::Bool(false));
        } else if self.match_type(TokenType::NIL) {
            return Ok(Expr::Nil);
        }
        if self.match_type(TokenType::NUMBER) {
            if let Some(TokenLiteral::Number(text)) = &self.previous().literal {
                return Ok(Expr::Number(text.clone()));
            }
        }
        if self.match_type(TokenType::STRING) {
            if let Some(TokenLiteral::String(text)) = &self.previous().literal {
                return Ok(Expr::String(text.clone()));
            }
        }
        self.named_or_grouped()
    }

    #[verifier::rlimit(80)]
    fn named_or_grouped(&mut self) -> (r: ParseResult)
        requires
            old(self).wf(),
        ensures
            final(self).reached(
                old(self),
                grammar::named_or_grouped(old(self).input(), old(self).current as nat),
            ),
            expr_outcome(r) == grammar::named_or_grouped(
                old(self).input(),
                old(self).current as nat,
            ).result,
            r is Ok ==> final(self).current > old(self).current,
        decreases old(self).tokens.len() - old(self).current, 0nat,
    {
        proof {
            reveal_with_fuel(grammar::named_or_grouped, 1);
            reveal_with_fuel(grammar::expression, 1);
        }
        if self.match_type(TokenType::IDENTIFIER) {
            return Ok(Expr::Variable(self.current - 1, self.previous().clone()));
        }
        if self.match_type(TokenType::LEFTPAREN) {
            let expr = self.expression()?;
            self.consume(TokenType::RIGHTPAREN, "Expect ')' after expression.")?;
            return Ok(Expr::Grouping(Box::new(expr)));
        }
        let peeked = self.peek();
        let mut message = String::from_str("[line ");
        push_decimal(&mut message, peeked.line);
        message.append("] Parse Error: Expected valid primary expression. Received '");
        message.append(peeked.lexeme.as_str());
        message.append("'.");
        assert(message@ =~= grammar::invalid_primary(peeked@));
        Err(ParseError(message))
    }

    /// Discards tokens up to the next statement boundary.
    #[verifier::loop_isolation(false)]
    fn synchronize(&mut self)
        requires
            old(self).wf(),
            old(self).current > 0 || !old(self).at_end(),
        ensures
            final(self).wf(),
            final(self).tokens == old(self).tokens,
            final(self).current == old(self).current + grammar::synchronize(
                old(self).input(),
                old(self).current as nat,
            ),
    {
        proof {
            reveal_with_fuel(grammar::boundary, 2);
        }
        let ghost input = self.input();
        let ghost goal = self.current + grammar::synchronize(input, self.current as nat);
        self.advance();
        while !self.is_at_end()
            invariant
                self.wf(),
                self.tokens == old(self).tokens,
                input == self.input(),
                self.current > 0 || self.at_end(),
                goal == old(self).current + grammar::synchronize(input, old(self).current as nat),
                goal == self.current + if self.at_end() {
                    0
                } else {
                    grammar::boundary(input, self.current as nat)
                },
            decreases self.tokens.len() - self.current,
        {
            proof {
                reveal_with_fuel(grammar::boundary, 2);
            }
            if self.previous().token_type == TokenType::SEMICOLON {
                return ;
            }
            if starts_statement(self.peek().token_type) {
                return ;
            }
            self.advance();
        }
    }

    /// Consumes the current token if it is an operator of the given level.
    fn match_level(&mut self, level: u8) -> (r: bool)
        requires
            old(self).wf(),
        ensures
            final(self).wf(),
            final(self).tokens == old(self).tokens,
            r == (grammar::kind_at(old(self).input(), old(self).current as nat) != TokenType::EOF
                && grammar::level_operator(
                level as nat,
                grammar::kind_at(old(self).input(), old(self).current as nat),
            )),
            final(self).current == old(self).current + if r {
                1nat
            } else {
                0nat
            },
    {
        if self.is_at_end() {
            return false;
        }
        if is_level_operator(level, self.peek().token_type) {
            self.advance();
            return true;
        }
        false
    }

    /// Consumes the current token if it is of the given kind.
    fn match_type(&mut self, kind: TokenType) -> (r: bool)
        requires
            old(self).wf(),
        ensures
            final(self).wf(),
            final(self).tokens == old(self).tokens,
            r == grammar::check(old(self).input(), old(self).current as nat, kind),
            final(self).current == old(self).current + grammar::optional(
                old(self).input(),
                old(self).current as nat,
                kind,
            ),
    {
        if self.check(kind) {
            self.advance();
            return true;
        }
        false
    }

    /// The current token, consumed, if it is of the given kind; else the
    /// error with the given message.
    fn consume(&mut self, kind: TokenType, message: &str) -> (r: Result<Token, ParseError>)
        requires
            old(self).wf(),
        ensures
            final(self).reached(
                old(self),
                grammar::consume(old(self).input(), old(self).current as nat, kind, message@),
            ),
            token_outcome(r) == grammar::consume(
                old(self).input(),
                old(self).current as nat,
                kind,
                message@,
            ).result,
    {
        if self.check(kind) {
            let token = self.advance().clone();
            Ok(token)
        } else {
            Err(error(message))
        }
    }

    fn check(&self, kind: TokenType) -> (r: bool)
        requires
            self.wf(),
        ensures
            r == grammar::check(self.input(), self.current as nat, kind),
    {
        if self.is_at_end() {
            return false;
        }
        self.peek().token_type == kind
    }

    /// Moves past the current token, unless it is the end of input, and
    /// returns the token now behind the parser.
    fn advance(&mut self) -> (r: &Token)
        requires
            old(self).wf(),
            old(self).current > 0 || !old(self).is_at_end(),
        ensures
            final(self).wf(),
            final(self).tokens == old(self).tokens,
            final(self).current == old(self).current + if old(self).is_at_end() {
                0nat
            } else {
                1nat
            },
            *r == final(self).tokens@[final(self).current - 1],
    {
        if !self.is_at_end() {
            self.current = self.current + 1;
        }
        self.previous()
    }

    #[verifier::when_used_as_spec(at_end)]
    fn is_at_end(&self) -> (r: bool)
        requires
            self.wf(),
        ensures
            r == self.at_end(),
    {
        self.peek().token_type == TokenType::EOF
    }

    /// The parser stands at the end-of-input token.
    pub open spec fn at_end(&self) -> bool {
        grammar::kind_at(self.input(), self.current as nat) == TokenType::EOF
    }

    fn peek(&self) -> (r: &Token)
        requires
            self.wf(),
        ensures
            *r == self.tokens@[self.current as int],
            r@ == grammar::token_at(self.input(), self.current as nat),
    {
        &self.tokens[self.current]
    }

    fn previous(&self) -> (r: &Token)
        requires
            self.wf(),
            self.current > 0,
        ensures
            *r == self.tokens@[self.current - 1],
            r@ == grammar::token_at(self.input(), (self.current - 1) as nat),
    {
        &self.tokens[self.current - 1]
    }
}

} // verus!
