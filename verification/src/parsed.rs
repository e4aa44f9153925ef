//! What the parser makes of scanned tokens: an expression that consists
//! of numerals, names, `true`, `false` and `nil` and of unary operations,
//! calls and assignments is made in the shape of the fragment, with
//! tokens as the scanner makes them, and so is a statement over such
//! expressions, whether it was written as it is or as a `for` loop.
use vstd::prelude::*;
use crate::expr::ExprView;
use crate::fragment::{
    atom, branch_made, branch_parses_back, is_name, is_sign, loose, made, parses_back,
    statement_parses_back, tight,
};
use crate::grammar::{
    MAX_ARGUMENTS, OR, arguments, assignment, binary, binary_rest, block, block_rest, call, call_rest,
    check,
    declaration, expression, expression_statement, finish_call, for_statement, function, hollow,
    if_statement, kind_at, named_or_grouped, primary, print_statement, program, program_rest, remaining,
    return_statement, statement, token_at, unary, var_declaration, while_statement,
};
use crate::roundtrip::{all_well_made, well_made};
use crate::stmt::StmtView;
use crate::token::{TokenType, TokenView};

verus! {

/// The parser made the expression in the shape of the fragment, if it is
/// of the fragment at all.
pub open spec fn shaped(result: Result<ExprView, Seq<char>>, tightly: bool) -> bool {
    result matches Ok(e) ==> (parses_back(e) ==> if tightly {
        tight(e)
    } else {
        loose(e)
    })
}

proof fn lemma_made_token(tokens: Seq<TokenView>, at: nat)
    requires
        all_well_made(tokens),
    ensures
        kind_at(tokens, at) != TokenType::EOF ==> well_made(token_at(tokens, at)),
{
    if at < tokens.len() {
        assert(well_made(tokens[at as int]));
    }
}

proof fn lemma_made_named(tokens: Seq<TokenView>, at: nat)
    requires
        all_well_made(tokens),
    ensures
        shaped(named_or_grouped(tokens, at).result, true),
{
    reveal_with_fuel(named_or_grouped, 1);
    lemma_made_token(tokens, at);
}

proof fn lemma_made_primary(tokens: Seq<TokenView>, at: nat)
    requires
        all_well_made(tokens),
    ensures
        shaped(primary(tokens, at).result, true),
{
    reveal_with_fuel(primary, 1);
    reveal_with_fuel(named_or_grouped, 1);
    lemma_made_token(tokens, at);
    lemma_made_named(tokens, at + hollow(tokens, at));
}

/// What finishing a call makes: a call of the callee, with a closing
/// parenthesis as the scanner makes it and arguments in the shape of the
/// fragment.
pub open spec fn finished(result: Result<ExprView, Seq<char>>, callee: ExprView) -> bool {
    result matches Ok(e) ==> (e matches ExprView::Call { callee: c, paren, arguments: list } && *c
        == callee && is_sign(paren, TokenType::RIGHTPAREN, ')') && list.len() <= MAX_ARGUMENTS
        && forall|i: int| 0 <= i < list.len() ==> (parses_back(#[trigger] list[i]) ==> loose(list[i])))
}

/// What parsing arguments makes: the earlier ones and more, each in the
/// shape of the fragment.
pub open spec fn listed(result: Result<Seq<ExprView>, Seq<char>>, earlier: Seq<ExprView>) -> bool {
    result matches Ok(list) ==> (list.len() <= MAX_ARGUMENTS && forall|i: int|
        0 <= i < list.len() ==> (parses_back(#[trigger] list[i]) ==> loose(list[i])))
}

proof fn lemma_made_expression(tokens: Seq<TokenView>, at: nat)
    requires
        all_well_made(tokens),
    ensures
        shaped(expression(tokens, at).result, false),
    decreases remaining(tokens, at), 21nat,
{
    reveal_with_fuel(expression, 1);
    reveal_with_fuel(assignment, 1);
    lemma_made_assignment(tokens, at);
}

proof fn lemma_made_assignment(tokens: Seq<TokenView>, at: nat)
    requires
        all_well_made(tokens),
    ensures
        shaped(assignment(tokens, at).result, false),
    decreases remaining(tokens, at), 20nat,
{
    reveal_with_fuel(assignment, 1);
    reveal_with_fuel(binary, 1);
    lemma_made_binary(tokens, at, OR as nat);
    let target = binary(tokens, at, OR as nat);
    if target.result is Ok && check(tokens, at + target.used, TokenType::ASSIGN) {
        lemma_made_assignment(tokens, at + target.used + 1);
    }
}

proof fn lemma_made_binary(tokens: Seq<TokenView>, at: nat, level: nat)
    requires
        all_well_made(tokens),
    ensures
        shaped(binary(tokens, at, level).result, true),
    decreases remaining(tokens, at), 5 + 2 * level,
{
    reveal_with_fuel(binary, 1);
    reveal_with_fuel(binary_rest, 1);
    reveal_with_fuel(unary, 1);
    if level == 0 {
        lemma_made_unary(tokens, at);
    } else {
        lemma_made_binary(tokens, at, (level - 1) as nat);
    }
    let first = if level == 0 {
        unary(tokens, at)
    } else {
        binary(tokens, at, (level - 1) as nat)
    };
    match first.result {
        Ok(left) => {
            lemma_made_binary_rest(tokens, at + first.used, level, left);
        },
        Err(_) => {},
    }
}

/// A chain of binary operations that is of the fragment is its first
/// operand alone.
proof fn lemma_made_binary_rest(tokens: Seq<TokenView>, at: nat, level: nat, left: ExprView)
    ensures
        binary_rest(tokens, at, level, left).result matches Ok(e) ==> (parses_back(e) ==> e == left),
    decreases remaining(tokens, at), 4 + 2 * level,
{
    reveal_with_fuel(binary_rest, 1);
    reveal_with_fuel(binary, 1);
    reveal_with_fuel(unary, 1);
    if kind_at(tokens, at) != TokenType::EOF && crate::grammar::level_operator(
        level,
        kind_at(tokens, at),
    ) {
        let right = if level == 0 {
            unary(tokens, at + 1)
        } else {
            binary(tokens, at + 1, (level - 1) as nat)
        };
        match right.result {
            Ok(r) => {
                lemma_made_binary_rest(
                    tokens,
                    at + 1 + right.used,
                    level,
                    crate::grammar::combine(level, token_at(tokens, at), left, r),
                );
            },
            Err(_) => {},
        }
    }
}

proof fn lemma_made_unary(tokens: Seq<TokenView>, at: nat)
    requires
        all_well_made(tokens),
    ensures
        shaped(unary(tokens, at).result, true),
    decreases remaining(tokens, at), 3nat,
{
    reveal_with_fuel(unary, 1);
    reveal_with_fuel(call, 1);
    lemma_made_token(tokens, at);
    if check(tokens, at, TokenType::BANG) || check(tokens, at, TokenType::MINUS) {
        lemma_made_unary(tokens, at + 1);
    } else {
        lemma_made_call(tokens, at);
    }
}

proof fn lemma_made_call(tokens: Seq<TokenView>, at: nat)
    requires
        all_well_made(tokens),
    ensures
        shaped(call(tokens, at).result, true),
    decreases remaining(tokens, at), 2nat,
{
    reveal_with_fuel(call, 1);
    reveal_with_fuel(call_rest, 1);
    reveal_with_fuel(primary, 1);
    lemma_made_primary(tokens, at);
    let head = primary(tokens, at);
    match head.result {
        Ok(expr) => {
            lemma_made_call_rest(tokens, at + head.used, expr);
        },
        Err(_) => {},
    }
}

/// The invocations behind a callee make an expression of the fragment
/// only of a callee of the fragment, and a tight one of a tight one.
proof fn lemma_made_call_rest(tokens: Seq<TokenView>, at: nat, callee: ExprView)
    requires
        all_well_made(tokens),
    ensures
        call_rest(tokens, at, callee).result matches Ok(e) ==> (parses_back(e) ==> parses_back(callee)
            && (tight(callee) ==> tight(e))),
    decreases remaining(tokens, at), 1nat,
{
    reveal_with_fuel(call_rest, 1);
    reveal_with_fuel(finish_call, 1);
    if check(tokens, at, TokenType::LEFTPAREN) {
        lemma_made_finish(tokens, at + 1, callee);
        let invoked = finish_call(tokens, at + 1, callee);
        match invoked.result {
            Ok(expr) => {
                lemma_made_call_rest(tokens, at + 1 + invoked.used, expr);
            },
            Err(_) => {},
        }
    }
}

proof fn lemma_made_finish(tokens: Seq<TokenView>, at: nat, callee: ExprView)
    requires
        all_well_made(tokens),
    ensures
        finished(finish_call(tokens, at, callee).result, callee),
    decreases remaining(tokens, at), 23nat,
{
    reveal_with_fuel(finish_call, 1);
    reveal_with_fuel(arguments, 1);
    if !check(tokens, at, TokenType::RIGHTPAREN) {
        lemma_made_arguments(tokens, at, Seq::empty());
        lemma_made_token(tokens, at + arguments(tokens, at, Seq::empty()).used);
    } else {
        lemma_made_token(tokens, at);
    }
}

proof fn lemma_made_arguments(tokens: Seq<TokenView>, at: nat, earlier: Seq<ExprView>)
    requires
        all_well_made(tokens),
        earlier.len() <= MAX_ARGUMENTS,
        forall|i: int| 0 <= i < earlier.len() ==> (parses_back(#[trigger] earlier[i]) ==> loose(earlier[i])),
    ensures
        listed(arguments(tokens, at, earlier).result, earlier),
    decreases remaining(tokens, at), 22nat,
{
    reveal_with_fuel(arguments, 1);
    reveal_with_fuel(expression, 1);
    if earlier.len() < MAX_ARGUMENTS {
        lemma_made_expression(tokens, at);
        let argument = expression(tokens, at);
        match argument.result {
            Ok(expr) => {
                let more = earlier.push(expr);
                assert forall|i: int| 0 <= i < more.len() && parses_back(
                    #[trigger] more[i],
                ) implies loose(more[i]) by {
                    if i < earlier.len() {
                        assert(more[i] == earlier[i]);
                    }
                }
                if check(tokens, at + argument.used, TokenType::COMMA) {
                    lemma_made_arguments(tokens, at + argument.used + 1, more);
                }
            },
            Err(_) => {},
        }
    }
}

/// The parser made the statement as a statement and as a branch of the
/// fragment, if it is of the fragment at all.
pub open spec fn shaped_statement(result: Result<StmtView, Seq<char>>) -> bool {
    result matches Ok(s) ==> ((statement_parses_back(s) ==> made(s)) && (branch_parses_back(s)
        ==> branch_made(s)))
}

proof fn lemma_var_is_var(tokens: Seq<TokenView>, at: nat)
    ensures
        var_declaration(tokens, at).result matches Ok(s) ==> s is Var,
{
    reveal_with_fuel(var_declaration, 1);
}

proof fn lemma_print_is_print(tokens: Seq<TokenView>, at: nat)
    ensures
        print_statement(tokens, at).result matches Ok(s) ==> s is Print,
{
    reveal_with_fuel(print_statement, 1);
}

proof fn lemma_return_is_return(tokens: Seq<TokenView>, at: nat, keyword: TokenView)
    ensures
        return_statement(tokens, at, keyword).result matches Ok(s) ==> s is Return,
{
    reveal_with_fuel(return_statement, 1);
}

proof fn lemma_expression_statement_is(tokens: Seq<TokenView>, at: nat)
    ensures
        expression_statement(tokens, at).result matches Ok(s) ==> s matches StmtView::Expression(e)
            && expression(tokens, at).result == Ok::<ExprView, Seq<char>>(e),
{
    reveal_with_fuel(expression_statement, 1);
    reveal_with_fuel(expression, 1);
}

proof fn lemma_made_declaration(tokens: Seq<TokenView>, at: nat)
    requires
        all_well_made(tokens),
    ensures
        shaped_statement(declaration(tokens, at).result),
    decreases remaining(tokens, at), 32nat,
{
    reveal_with_fuel(declaration, 1);
    reveal_with_fuel(statement, 1);
    lemma_var_is_var(tokens, at + 1);
    if check(tokens, at, TokenType::VAR) {
    } else if check(tokens, at, TokenType::FUN) {
        reveal_with_fuel(function, 1);
        lemma_made_function(tokens, at + 1, "function"@);
    } else {
        lemma_made_statement(tokens, at);
    }
}

/// What a function is made of.
pub open spec fn shaped_function(result: Result<StmtView, Seq<char>>) -> bool {
    result matches Ok(s) ==> (s matches StmtView::Function { name, params, body } && is_name(name)
        && *body is Block && (branch_parses_back(*body) ==> branch_made(*body)))
}

proof fn lemma_made_function(tokens: Seq<TokenView>, at: nat, kind: Seq<char>)
    requires
        all_well_made(tokens),
    ensures
        shaped_function(function(tokens, at, kind).result),
    decreases remaining(tokens, at), 30nat,
{
    reveal_with_fuel(function, 1);
    reveal_with_fuel(block, 1);
    lemma_made_token(tokens, at);
    if check(tokens, at, TokenType::IDENTIFIER) && check(tokens, at + 1, TokenType::LEFTPAREN) {
        let list = if check(tokens, at + 2, TokenType::RIGHTPAREN) {
            crate::grammar::done(Seq::empty(), 2)
        } else {
            crate::grammar::parameters(tokens, at + 2, Seq::empty()).after(2)
        };
        if list.result is Ok {
            lemma_made_block(tokens, at + list.used + 2);
        }
    }
}

/// What the parser makes of the parts of a `for` loop.
proof fn lemma_desugared(
    initializer: Option<StmtView>,
    test: Option<ExprView>,
    increment: Option<ExprView>,
    body: StmtView,
)
    requires
        initializer matches Some(first) ==> (first is Var || (first matches StmtView::Expression(e)
            && (parses_back(e) ==> loose(e)))),
        test matches Some(e) ==> (parses_back(e) ==> loose(e)),
        increment matches Some(e) ==> (parses_back(e) ==> loose(e)),
        shaped_statement(Ok(body)),
    ensures
        shaped_statement(Ok(crate::grammar::desugar(initializer, test, increment, body))),
{
    let inner = crate::grammar::body_statements(body);
    let statements = match increment {
        Some(e) => inner.push(StmtView::Expression(e)),
        None => inner,
    };
    let condition = match test {
        Some(e) => e,
        None => ExprView::Bool(true),
    };
    let looping = StmtView::While { condition, body: Box::new(StmtView::Block(statements)) };
    if statement_parses_back(looping) {
        assert(branch_parses_back(StmtView::Block(statements)));
        assert(loose(condition)) by {
            assert(atom(ExprView::Bool(true)));
            assert(tight(ExprView::Bool(true)));
        }
        assert forall|i: int| 0 <= i < inner.len() implies made(#[trigger] inner[i]) by {
            assert(statements[i] == inner[i]);
            match body {
                StmtView::Block(list) => {
                    assert forall|k: int| 0 <= k < list.len() implies statement_parses_back(
                        #[trigger] list[k],
                    ) by {
                        assert(statements[k] == list[k]);
                    }
                    assert forall|k: int| 0 < k < list.len() && crate::fragment::ends_open(
                        list[k - 1],
                    ) implies !crate::fragment::led(#[trigger] list[k]) by {
                        assert(statements[k] == list[k]);
                        assert(statements[k - 1] == list[k - 1]);
                    }
                    assert(branch_parses_back(body));
                },
                _ => {},
            }
        }
        assert forall|i: int| 0 <= i < statements.len() implies made(#[trigger] statements[i]) by {
            if i < inner.len() {
                assert(statements[i] == inner[i]);
            }
        }
        assert(crate::fragment::apart(statements));
        assert(branch_made(StmtView::Block(statements)));
        assert(made(looping));
    }
    match initializer {
        Some(first) => {
            let both = seq![first, looping];
            if branch_parses_back(StmtView::Block(both)) {
                assert(statement_parses_back(both[0]));
                assert(statement_parses_back(both[1]));
                assert forall|i: int| 0 <= i < both.len() implies made(#[trigger] both[i]) by {}
            }
        },
        None => {},
    }
}

proof fn lemma_initializer_is(tokens: Seq<TokenView>, at: nat)
    requires
        all_well_made(tokens),
    ensures
        crate::grammar::for_initializer(tokens, at).result matches Ok(Some(first)) ==> (first is Var || (
        first matches StmtView::Expression(e) && (parses_back(e) ==> loose(e)))),
{
    reveal_with_fuel(crate::grammar::for_initializer, 1);
    reveal_with_fuel(expression_statement, 1);
    lemma_var_is_var(tokens, at + 1);
    lemma_expression_statement_is(tokens, at);
    lemma_made_expression(tokens, at);
}

proof fn lemma_clause_is(tokens: Seq<TokenView>, at: nat, closing: TokenType, message: Seq<char>)
    requires
        all_well_made(tokens),
    ensures
        crate::grammar::for_clause(tokens, at, closing, message).result matches Ok(Some(e)) ==> (
        parses_back(e) ==> loose(e)),
{
    reveal_with_fuel(crate::grammar::for_clause, 1);
    reveal_with_fuel(expression, 1);
    lemma_made_expression(tokens, at);
}

proof fn lemma_made_for(tokens: Seq<TokenView>, at: nat)
    requires
        all_well_made(tokens),
    ensures
        shaped_statement(for_statement(tokens, at).result),
    decreases remaining(tokens, at), 30nat,
{
    reveal_with_fuel(for_statement, 1);
    reveal_with_fuel(statement, 1);
    reveal_with_fuel(crate::grammar::for_initializer, 1);
    reveal_with_fuel(crate::grammar::for_clause, 1);
    if check(tokens, at, TokenType::LEFTPAREN) {
        lemma_initializer_is(tokens, at + 1);
        let first = crate::grammar::for_initializer(tokens, at + 1).after(1);
        if first.result is Ok {
            let ask = "Expect ';' after 'for' loop condition."@;
            lemma_clause_is(tokens, at + first.used, TokenType::SEMICOLON, ask);
            let second = crate::grammar::for_clause(tokens, at + first.used, TokenType::SEMICOLON, ask).after(
                first.used,
            );
            if second.result is Ok {
                let shut = "Expect ')' after 'for' clauses."@;
                lemma_clause_is(tokens, at + second.used, TokenType::RIGHTPAREN, shut);
                let third = crate::grammar::for_clause(
                    tokens,
                    at + second.used,
                    TokenType::RIGHTPAREN,
                    shut,
                ).after(second.used);
                if third.result is Ok {
                    lemma_made_statement(tokens, at + third.used);
                    let body = statement(tokens, at + third.used);
                    if body.result is Ok {
                        lemma_desugared(first.result->Ok_0, second.result->Ok_0, third.result->Ok_0, body.result->Ok_0);
                    }
                }
            }
        }
    }
}

proof fn lemma_made_statement(tokens: Seq<TokenView>, at: nat)
    requires
        all_well_made(tokens),
    ensures
        shaped_statement(statement(tokens, at).result),
    decreases remaining(tokens, at), 31nat,
{
    reveal_with_fuel(statement, 1);
    if check(tokens, at, TokenType::PRINT) {
        reveal_with_fuel(print_statement, 1);
        lemma_print_is_print(tokens, at + 1);
    } else if check(tokens, at, TokenType::RETURN) {
        reveal_with_fuel(return_statement, 1);
        lemma_return_is_return(tokens, at + 1, token_at(tokens, at));
    } else if check(tokens, at, TokenType::WHILE) {
        reveal_with_fuel(while_statement, 1);
        lemma_made_while(tokens, at + 1);
    } else if check(tokens, at, TokenType::FOR) {
        reveal_with_fuel(for_statement, 1);
        lemma_made_for(tokens, at + 1);
    } else if check(tokens, at, TokenType::IF) {
        reveal_with_fuel(if_statement, 1);
        lemma_made_if(tokens, at + 1);
    } else if check(tokens, at, TokenType::LEFTBRACE) {
        reveal_with_fuel(block, 1);
        lemma_made_block(tokens, at + 1);
    } else {
        reveal_with_fuel(expression_statement, 1);
        lemma_expression_statement_is(tokens, at);
        lemma_made_expression(tokens, at);
    }
}

/// What a `while` loop is made of.
pub open spec fn shaped_while(result: Result<StmtView, Seq<char>>) -> bool {
    result matches Ok(s) ==> (s matches StmtView::While { condition, body } && (parses_back(condition)
        ==> loose(condition)) && (branch_parses_back(*body) ==> branch_made(*body)))
}

/// What an `if` is made of.
pub open spec fn shaped_if(result: Result<StmtView, Seq<char>>) -> bool {
    result matches Ok(s) ==> (s matches StmtView::If { condition, then_branch, else_branch } && (
    parses_back(condition) ==> loose(condition)) && (branch_parses_back(*then_branch) ==> branch_made(
        *then_branch,
    )) && (else_branch matches Some(branch) ==> (branch_parses_back(*branch) ==> branch_made(*branch))))
}

proof fn lemma_made_while(tokens: Seq<TokenView>, at: nat)
    requires
        all_well_made(tokens),
    ensures
        shaped_while(while_statement(tokens, at).result),
    decreases remaining(tokens, at), 30nat,
{
    reveal_with_fuel(while_statement, 1);
    reveal_with_fuel(statement, 1);
    reveal_with_fuel(expression, 1);
    lemma_made_expression(tokens, at + 1);
    let head = crate::grammar::condition(
        tokens,
        at,
        "Expect '(' after 'while'."@,
        "Expect ')' after 'while' condition."@,
    );
    if head.result is Ok {
        lemma_made_statement(tokens, at + head.used);
    }
}

proof fn lemma_made_if(tokens: Seq<TokenView>, at: nat)
    requires
        all_well_made(tokens),
    ensures
        shaped_if(if_statement(tokens, at).result),
    decreases remaining(tokens, at), 30nat,
{
    reveal_with_fuel(if_statement, 1);
    reveal_with_fuel(statement, 1);
    reveal_with_fuel(expression, 1);
    lemma_made_expression(tokens, at + 1);
    let head = crate::grammar::condition(
        tokens,
        at,
        "Expect '(' after 'if'."@,
        "Expect ')' after 'if' condition."@,
    );
    if head.result is Ok {
        lemma_made_statement(tokens, at + head.used);
        let first = statement(tokens, at + head.used);
        if first.result is Ok {
            let used = head.used + first.used;
            lemma_made_token(tokens, at + used);
            if check(tokens, at + used, TokenType::ELSE) {
                lemma_made_statement(tokens, at + used + 1);
            }
        }
    }
}

/// What a block is made of.
pub open spec fn shaped_block(result: Result<StmtView, Seq<char>>) -> bool {
    result matches Ok(s) ==> (s matches StmtView::Block(list) && forall|i: int|
        0 <= i < list.len() ==> (statement_parses_back(#[trigger] list[i]) ==> made(list[i])))
}

proof fn lemma_made_block(tokens: Seq<TokenView>, at: nat)
    requires
        all_well_made(tokens),
    ensures
        shaped_block(block(tokens, at).result),
    decreases remaining(tokens, at), 34nat,
{
    reveal_with_fuel(block, 1);
    reveal_with_fuel(block_rest, 1);
    lemma_made_block_rest(tokens, at, Seq::empty());
}

proof fn lemma_made_block_rest(tokens: Seq<TokenView>, at: nat, earlier: Seq<StmtView>)
    requires
        all_well_made(tokens),
        forall|i: int| 0 <= i < earlier.len() && statement_parses_back(#[trigger] earlier[i]) ==> made(earlier[i]),
    ensures
        block_rest(tokens, at, earlier).result matches Ok(list) ==> forall|i: int|
            0 <= i < list.len() ==> (statement_parses_back(#[trigger] list[i]) ==> made(list[i])),
    decreases remaining(tokens, at), 33nat,
{
    reveal_with_fuel(block_rest, 1);
    reveal_with_fuel(declaration, 1);
    if !(check(tokens, at, TokenType::RIGHTBRACE) || kind_at(tokens, at) == TokenType::EOF) {
        lemma_made_declaration(tokens, at);
        let first = declaration(tokens, at);
        match first.result {
            Ok(stmt) => {
                let more = earlier.push(stmt);
                assert forall|i: int| 0 <= i < more.len() && statement_parses_back(
                    #[trigger] more[i],
                ) implies made(more[i]) by {
                    if i < earlier.len() {
                        assert(more[i] == earlier[i]);
                    }
                }
                lemma_made_block_rest(tokens, at + crate::grammar::progress(first.used), more);
            },
            Err(_) => {},
        }
    }
}

/// Every statement of a program of scanned tokens that is of the
/// fragment is made as the fragment asks.
pub proof fn lemma_program_statements_are_made(tokens: Seq<TokenView>, at: nat, earlier: Seq<StmtView>)
    requires
        all_well_made(tokens),
        forall|i: int| 0 <= i < earlier.len() && statement_parses_back(#[trigger] earlier[i]) ==> made(earlier[i]),
    ensures
        program_rest(tokens, at, earlier).result matches Ok(list) ==> forall|i: int|
            0 <= i < list.len() ==> (statement_parses_back(#[trigger] list[i]) ==> made(list[i])),
    decreases remaining(tokens, at),
{
    reveal_with_fuel(program_rest, 1);
    if kind_at(tokens, at) != TokenType::EOF {
        lemma_made_declaration(tokens, at);
        let first = declaration(tokens, at);
        match first.result {
            Ok(stmt) => {
                let more = earlier.push(stmt);
                assert forall|i: int| 0 <= i < more.len() && statement_parses_back(
                    #[trigger] more[i],
                ) implies made(more[i]) by {
                    if i < earlier.len() {
                        assert(more[i] == earlier[i]);
                    }
                }
                lemma_program_statements_are_made(
                    tokens,
                    at + crate::grammar::progress(first.used),
                    more,
                );
            },
            Err(_) => {},
        }
    }
}

} // verus!
