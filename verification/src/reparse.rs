//! What the parser makes of the tokens of a rendering: for an expression
//! or a statement of the fragment, one that is like it.
use vstd::prelude::*;
use crate::expr::ExprView;
use crate::fragment::{
    apart, atom, below, branch_made, branch_tokens, end_branch, end_items, end_line, ends_open, heads, led,
    lemma_keywords,
    items_tokens, lemma_opens, lemma_opens_tight, lemma_placed_split, list_tokens, loose, made, opens,
    placed, plain, plain_branch, plain_stmt, plain_token, sign, statement_tokens, tight, tokens_of, word,
};
use crate::stmt::StmtView;
use crate::grammar::{
    MAX_ARGUMENTS, OR, Parsed, arguments, assignment, binary, binary_rest, block, block_rest, call,
    call_rest, check, condition, declaration, done, expression, expression_statement, finish_call, function,
    if_statement, kind_at, named_or_grouped, primary, statement, token_at, unary, while_statement,
};
use crate::token::{TokenType, TokenView};

verus! {

/// A kind of token that continues an expression: a binary operator.
pub open spec fn continues(kind: TokenType) -> bool {
    kind == TokenType::SLASH || kind == TokenType::STAR || kind == TokenType::MINUS || kind
        == TokenType::PLUS || kind == TokenType::GREATER || kind == TokenType::GREATEREQUAL || kind
        == TokenType::LESS || kind == TokenType::LESSEQUAL || kind == TokenType::NOTEQUAL || kind
        == TokenType::EQUAL || kind == TokenType::AND || kind == TokenType::OR
}

/// A kind of token that ends an expression: no binary operator, no `=`
/// and no opening parenthesis.
pub open spec fn stops(kind: TokenType) -> bool {
    !continues(kind) && kind != TokenType::ASSIGN && kind != TokenType::LEFTPAREN
}

proof fn lemma_binary_rest_stops(tokens: Seq<TokenView>, at: nat, level: nat, left: ExprView)
    requires
        !continues(kind_at(tokens, at)),
    ensures
        binary_rest(tokens, at, level, left) == done(left, 0),
{
    reveal_with_fuel(binary_rest, 1);
}

/// A unary expression in front of a token that is no binary operator is
/// the whole chain of binary operations of every level.
proof fn lemma_binary_through(tokens: Seq<TokenView>, at: nat, level: nat, x: ExprView, used: nat)
    requires
        unary(tokens, at) == done(x, used),
        !continues(kind_at(tokens, at + used)),
    ensures
        binary(tokens, at, level) == done(x, used),
    decreases level,
{
    reveal_with_fuel(binary, 1);
    reveal_with_fuel(binary_rest, 1);
    reveal_with_fuel(unary, 1);
    lemma_binary_rest_stops(tokens, at + used, level, x);
    if level > 0 {
        lemma_binary_through(tokens, at, (level - 1) as nat, x, used);
    }
}

/// A unary expression in front of a token that is no binary operator and
/// no `=` is the whole expression.
proof fn lemma_expression_through(tokens: Seq<TokenView>, at: nat, x: ExprView, used: nat)
    requires
        unary(tokens, at) == done(x, used),
        !continues(kind_at(tokens, at + used)),
        kind_at(tokens, at + used) != TokenType::ASSIGN,
    ensures
        assignment(tokens, at) == done(x, used),
        expression(tokens, at) == done(x, used),
{
    reveal_with_fuel(expression, 1);
    reveal_with_fuel(assignment, 1);
    reveal_with_fuel(binary, 1);
    lemma_binary_through(tokens, at, OR as nat, x, used);
}

proof fn lemma_call_rest_stops(tokens: Seq<TokenView>, at: nat, callee: ExprView)
    requires
        kind_at(tokens, at) != TokenType::LEFTPAREN,
    ensures
        call_rest(tokens, at, callee) == done(callee, 0),
{
    reveal_with_fuel(call_rest, 1);
}

/// Where an expression starts, there is no `!` and no `-`: a unary
/// expression there is a call expression.
proof fn lemma_unary_is_call(tokens: Seq<TokenView>, at: nat)
    requires
        opens(kind_at(tokens, at)),
    ensures
        unary(tokens, at) == call(tokens, at),
{
    reveal_with_fuel(unary, 1);
    reveal_with_fuel(call, 1);
}

/// A token of the fragment that is an expression by itself.
proof fn lemma_parse_atom(tokens: Seq<TokenView>, at: nat, e: ExprView, line: usize) -> (x: ExprView)
    requires
        atom(e),
        at < tokens.len(),
        tokens[at as int] == tokens_of(e, line)[0],
    ensures
        primary(tokens, at) == done(x, 1),
        call(tokens, at) == call_rest(tokens, at + 1, x).after(1),
        plain(x) == plain(e),
{
    lemma_keywords();
    assert(primary(tokens, at).result is Ok && primary(tokens, at).used == 1 && plain(
        primary(tokens, at).result->Ok_0,
    ) == plain(e)) by {
        reveal_with_fuel(primary, 1);
        reveal_with_fuel(named_or_grouped, 1);
    }
    assert(call(tokens, at) == call_rest(tokens, at + 1, primary(tokens, at).result->Ok_0).after(1))
        by {
        reveal_with_fuel(call, 1);
        reveal_with_fuel(primary, 1);
        reveal_with_fuel(call_rest, 1);
    }
    primary(tokens, at).result->Ok_0
}

#[verifier::rlimit(100)]
proof fn lemma_grouped(tokens: Seq<TokenView>, at: nat, inner: ExprView, used: nat)
    requires
        kind_at(tokens, at) == TokenType::LEFTPAREN,
        expression(tokens, at + 1) == done(inner, used),
        kind_at(tokens, at + 1 + used) == TokenType::RIGHTPAREN,
    ensures
        named_or_grouped(tokens, at) == done(ExprView::Grouping(Box::new(inner)), used + 2),
{
    reveal_with_fuel(named_or_grouped, 1);
    reveal_with_fuel(expression, 1);
}

proof fn lemma_primary_grouped(tokens: Seq<TokenView>, at: nat, group: ExprView, used: nat)
    requires
        kind_at(tokens, at) == TokenType::LEFTPAREN,
        named_or_grouped(tokens, at) == done(group, used),
    ensures
        primary(tokens, at) == done(group, used),
{
    reveal_with_fuel(primary, 1);
    reveal_with_fuel(named_or_grouped, 1);
}

proof fn lemma_call_of_primary(tokens: Seq<TokenView>, at: nat, x: ExprView, used: nat)
    requires
        primary(tokens, at) == done(x, used),
    ensures
        call(tokens, at) == call_rest(tokens, at + used, x).after(used),
{
    reveal_with_fuel(call, 1);
    reveal_with_fuel(primary, 1);
    reveal_with_fuel(call_rest, 1);
}

/// An expression in parentheses is a primary expression.
proof fn lemma_group(tokens: Seq<TokenView>, at: nat, inner: ExprView, used: nat)
    requires
        kind_at(tokens, at) == TokenType::LEFTPAREN,
        expression(tokens, at + 1) == done(inner, used),
        kind_at(tokens, at + 1 + used) == TokenType::RIGHTPAREN,
    ensures
        call(tokens, at) == call_rest(tokens, at + used + 2, ExprView::Grouping(Box::new(inner))).after(
            used + 2,
        ),
{
    let group = ExprView::Grouping(Box::new(inner));
    lemma_grouped(tokens, at, inner, used);
    lemma_primary_grouped(tokens, at, group, used + 2);
    lemma_call_of_primary(tokens, at, group, used + 2);
}

/// A grouping of a unary operation is like the operation.
proof fn lemma_plain_unary(seen: TokenView, inner: ExprView, operator: TokenView, right: ExprView)
    requires
        plain_token(seen) == plain_token(operator),
        plain(inner) == plain(right),
    ensures
        plain(
            ExprView::Grouping(Box::new(ExprView::Unary { operator: seen, right: Box::new(inner) })),
        ) == plain(ExprView::Unary { operator, right: Box::new(right) }),
{
    reveal_with_fuel(plain, 2);
}

/// Calls of like callees with arguments that are alike one for one are
/// alike.
proof fn lemma_plain_call(
    head: ExprView,
    seen: TokenView,
    list: Seq<ExprView>,
    callee: ExprView,
    paren: TokenView,
    arguments: Seq<ExprView>,
)
    requires
        plain(head) == plain(callee),
        plain_token(seen) == plain_token(paren),
        list.len() == arguments.len(),
        forall|i: int| 0 <= i < list.len() ==> plain(#[trigger] list[i]) == plain(arguments[i]),
    ensures
        plain(ExprView::Call { callee: Box::new(head), paren: seen, arguments: list }) == plain(
            ExprView::Call { callee: Box::new(callee), paren, arguments },
        ),
{
    let a = plain(ExprView::Call { callee: Box::new(head), paren: seen, arguments: list });
    let b = plain(ExprView::Call { callee: Box::new(callee), paren, arguments });
    assert(a->Call_arguments =~= b->Call_arguments);
}

/// A `!` or `-` in front of a unary expression is a unary expression.
proof fn lemma_negate(tokens: Seq<TokenView>, at: nat, right: ExprView, used: nat)
    requires
        kind_at(tokens, at) == TokenType::BANG || kind_at(tokens, at) == TokenType::MINUS,
        unary(tokens, at + 1) == done(right, used),
    ensures
        unary(tokens, at) == done(
            ExprView::Unary { operator: token_at(tokens, at), right: Box::new(right) },
            1 + used,
        ),
{
    reveal_with_fuel(unary, 1);
}

/// An argument list and a closing parenthesis finish a call.
proof fn lemma_finish(tokens: Seq<TokenView>, at: nat, callee: ExprView, list: Seq<ExprView>, used: nat)
    requires
        list.len() == 0 ==> used == 0,
        list.len() > 0 ==> !check(tokens, at, TokenType::RIGHTPAREN) && arguments(
            tokens,
            at,
            Seq::empty(),
        ) == done(list, used),
        kind_at(tokens, at + used) == TokenType::RIGHTPAREN,
    ensures
        finish_call(tokens, at, callee) == done(
            ExprView::Call {
                callee: Box::new(callee),
                paren: token_at(tokens, at + used),
                arguments: list,
            },
            used + 1,
        ),
{
    reveal_with_fuel(finish_call, 1);
    reveal_with_fuel(arguments, 1);
    if list.len() == 0 {
        assert(list =~= Seq::empty());
    }
}

/// An argument list in parentheses behind a callee is an invocation.
#[verifier::rlimit(100)]
proof fn lemma_invoke(tokens: Seq<TokenView>, at: nat, callee: ExprView, list: Seq<ExprView>, used: nat)
    requires
        kind_at(tokens, at) == TokenType::LEFTPAREN,
        list.len() == 0 ==> used == 0,
        list.len() > 0 ==> !check(tokens, at + 1, TokenType::RIGHTPAREN) && arguments(
            tokens,
            at + 1,
            Seq::empty(),
        ) == done(list, used),
        kind_at(tokens, at + 1 + used) == TokenType::RIGHTPAREN,
    ensures
        call_rest(tokens, at, callee) == call_rest(
            tokens,
            at + used + 2,
            ExprView::Call {
                callee: Box::new(callee),
                paren: token_at(tokens, at + 1 + used),
                arguments: list,
            },
        ).after(used + 2),
{
    lemma_finish(tokens, at + 1, callee, list, used);
    reveal_with_fuel(call_rest, 1);
    reveal_with_fuel(finish_call, 1);
}

/// An argument with a comma behind it.
proof fn lemma_argument_more(
    tokens: Seq<TokenView>,
    at: nat,
    earlier: Seq<ExprView>,
    x: ExprView,
    used: nat,
)
    requires
        earlier.len() < MAX_ARGUMENTS,
        expression(tokens, at) == done(x, used),
        kind_at(tokens, at + used) == TokenType::COMMA,
    ensures
        arguments(tokens, at, earlier) == arguments(tokens, at + used + 1, earlier.push(x)).after(
            used + 1,
        ),
{
    reveal_with_fuel(arguments, 1);
    reveal_with_fuel(expression, 1);
}

/// The last argument.
proof fn lemma_argument_last(
    tokens: Seq<TokenView>,
    at: nat,
    earlier: Seq<ExprView>,
    x: ExprView,
    used: nat,
)
    requires
        earlier.len() < MAX_ARGUMENTS,
        expression(tokens, at) == done(x, used),
        kind_at(tokens, at + used) != TokenType::COMMA,
    ensures
        arguments(tokens, at, earlier) == done(earlier.push(x), used),
{
    reveal_with_fuel(arguments, 1);
    reveal_with_fuel(expression, 1);
}

/// A name, `=` and an expression are an assignment.
proof fn lemma_assign(tokens: Seq<TokenView>, at: nat, value: ExprView, used: nat)
    requires
        kind_at(tokens, at) == TokenType::IDENTIFIER,
        kind_at(tokens, at + 1) == TokenType::ASSIGN,
        expression(tokens, at + 2) == done(value, used),
    ensures
        expression(tokens, at) == done(
            ExprView::Assign(at as usize, token_at(tokens, at), Box::new(value)),
            used + 2,
        ),
{
    let target = ExprView::Variable(at as usize, token_at(tokens, at));
    assert(primary(tokens, at) == done(target, 1)) by {
        reveal_with_fuel(primary, 1);
        reveal_with_fuel(named_or_grouped, 1);
    }
    lemma_call_rest_stops(tokens, at + 1, target);
    assert(call(tokens, at) == done(target, 1)) by {
        reveal_with_fuel(call, 1);
        reveal_with_fuel(primary, 1);
        reveal_with_fuel(call_rest, 1);
    }
    assert(unary(tokens, at) == done(target, 1)) by {
        reveal_with_fuel(unary, 1);
        reveal_with_fuel(call, 1);
    }
    lemma_binary_through(tokens, at, OR as nat, target, 1);
    assert(expression(tokens, at + 2) == assignment(tokens, at + 2)) by {
        reveal_with_fuel(expression, 1);
        reveal_with_fuel(assignment, 1);
    }
    assert(assignment(tokens, at) == done(
        ExprView::Assign(at as usize, token_at(tokens, at), Box::new(value)),
        used + 2,
    )) by {
        reveal_with_fuel(assignment, 1);
        reveal_with_fuel(binary, 1);
    }
    assert(expression(tokens, at) == assignment(tokens, at)) by {
        reveal_with_fuel(expression, 1);
        reveal_with_fuel(assignment, 1);
    }
}

proof fn lemma_list_starts(list: Seq<ExprView>, count: nat, line: usize)
    requires
        1 <= count <= list.len(),
        forall|i: int| 0 <= i < list.len() ==> loose(#[trigger] list[i]),
    ensures
        list_tokens(list, count, line).len() >= 1,
        list_tokens(list, count, line)[0] == tokens_of(list[0], line)[0],
    decreases count,
{
    lemma_opens(list[0], line);
    if count > 1 {
        lemma_list_starts(list, (count - 1) as nat, line);
    }
}

/// The offset of the tokens of the argument `index` among those of the
/// list.
pub open spec fn offset(list: Seq<ExprView>, index: nat, line: usize) -> nat {
    if index == 0 {
        0
    } else {
        list_tokens(list, index, line).len() + 1
    }
}

/// A tight expression of the fragment, parsed from the tokens of its
/// rendering: an expression like it, in front of whatever is invoked next.
proof fn lemma_parse_tight(tokens: Seq<TokenView>, at: nat, e: ExprView, line: usize) -> (x: ExprView)
    requires
        tight(e),
        placed(tokens, at, tokens_of(e, line)),
    ensures
        call(tokens, at) == call_rest(tokens, at + tokens_of(e, line).len(), x).after(tokens_of(e, line).len()),
        plain(x) == plain(e),
    decreases e, 0nat,
{
    match e {
        ExprView::Unary { operator, right } => {
            let head = seq![sign(TokenType::LEFTPAREN, '(', line), TokenView { line, ..operator }];
            let tail = seq![sign(TokenType::RIGHTPAREN, ')', line)];
            let n = tokens_of(*right, line).len();
            lemma_placed_split(tokens, at, head + tokens_of(*right, line), tail);
            lemma_placed_split(tokens, at, head, tokens_of(*right, line));
            assert(tokens[at as int] == head[0]);
            assert(tokens[(at + 1) as int] == head[1]);
            assert(tokens[(at + 2 + n) as int] == tail[0]);
            lemma_opens_tight(*right, line);
            assert(tokens[(at + 2) as int] == tokens_of(*right, line)[0]);
            let inner = lemma_parse_tight(tokens, at + 2, *right, line);
            lemma_call_rest_stops(tokens, at + 2 + n, inner);
            lemma_unary_is_call(tokens, at + 2);
            lemma_negate(tokens, at + 1, inner, n);
            let whole = ExprView::Unary { operator: tokens[(at + 1) as int], right: Box::new(inner) };
            lemma_expression_through(tokens, at + 1, whole, 1 + n);
            lemma_group(tokens, at, whole, 1 + n);
            lemma_plain_unary(tokens[(at + 1) as int], inner, operator, *right);
            ExprView::Grouping(Box::new(whole))
        },
        ExprView::Call { callee, paren, arguments: args } => {
            let n = tokens_of(*callee, line).len();
            let w = list_tokens(args, args.len(), line).len();
            let open = seq![sign(TokenType::LEFTPAREN, '(', line)];
            let close = seq![sign(TokenType::RIGHTPAREN, ')', line)];
            lemma_placed_split(tokens, at, tokens_of(*callee, line) + open + list_tokens(args, args.len(), line), close);
            lemma_placed_split(tokens, at, tokens_of(*callee, line) + open, list_tokens(args, args.len(), line));
            lemma_placed_split(tokens, at, tokens_of(*callee, line), open);
            assert(tokens[(at + n) as int] == open[0]);
            assert(tokens[(at + n + 1 + w) as int] == close[0]);
            let head = lemma_parse_tight(tokens, at, *callee, line);
            let list = lemma_parse_all(tokens, at + n + 1, args, line);
            lemma_invoke(tokens, at + n, head, list, w);
            let whole = ExprView::Call {
                callee: Box::new(head),
                paren: tokens[(at + n + 1 + w) as int],
                arguments: list,
            };
            lemma_plain_call(head, tokens[(at + n + 1 + w) as int], list, *callee, paren, args);
            assert(tokens_of(e, line).len() == n + 1 + w + 1);
            whole
        },
        _ => {
            assert(tokens[at as int] == tokens_of(e, line)[0]);
            let x = lemma_parse_atom(tokens, at, e, line);
            x
        },
    }
}

/// The arguments of a call of the fragment, parsed from the tokens of
/// their rendering in front of a closing parenthesis: expressions like
/// them, one for one.
proof fn lemma_parse_all(tokens: Seq<TokenView>, at: nat, list: Seq<ExprView>, line: usize) -> (xs: Seq<ExprView>)
    requires
        list.len() <= MAX_ARGUMENTS,
        forall|i: int| 0 <= i < list.len() ==> loose(#[trigger] list[i]),
        placed(tokens, at, list_tokens(list, list.len(), line)),
        kind_at(tokens, at + list_tokens(list, list.len(), line).len()) == TokenType::RIGHTPAREN,
    ensures
        list.len() > 0 ==> !check(tokens, at, TokenType::RIGHTPAREN) && arguments(
            tokens,
            at,
            Seq::empty(),
        ) == done(xs, list_tokens(list, list.len(), line).len()),
        list.len() == 0 ==> list_tokens(list, list.len(), line).len() == 0,
        xs.len() == list.len(),
        forall|i: int| 0 <= i < list.len() ==> plain(#[trigger] xs[i]) == plain(list[i]),
    decreases list, list.len() + 1,
{
    if list.len() == 0 {
        Seq::empty()
    } else {
        let last = (list.len() - 1) as nat;
        lemma_list_starts(list, list.len(), line);
        assert(tokens[at as int] == list_tokens(list, list.len(), line)[0]);
        lemma_opens(list[0], line);
        let earlier = lemma_parse_some(tokens, at, list, last, line);
        let start = at + offset(list, last, line);
        let x = lemma_parse_loose(tokens, start, list[last as int], line);
        lemma_argument_last(tokens, start, earlier, x, tokens_of(list[last as int], line).len());
        earlier.push(x)
    }
}

/// The first `count` arguments of a call of the fragment, each with a
/// comma behind it, parsed from the tokens of their rendering.
proof fn lemma_parse_some(tokens: Seq<TokenView>, at: nat, list: Seq<ExprView>, count: nat, line: usize) -> (xs: Seq<
    ExprView,
>)
    requires
        list.len() <= MAX_ARGUMENTS,
        forall|i: int| 0 <= i < list.len() ==> loose(#[trigger] list[i]),
        count < list.len(),
        placed(tokens, at, list_tokens(list, count + 1, line)),
        stops(kind_at(tokens, at + list_tokens(list, count + 1, line).len())),
    ensures
        arguments(tokens, at, Seq::empty()) == arguments(tokens, at + offset(list, count, line), xs).after(
            offset(list, count, line),
        ),
        xs.len() == count,
        forall|i: int| 0 <= i < count ==> plain(#[trigger] xs[i]) == plain(list[i]),
        placed(tokens, at + offset(list, count, line), tokens_of(list[count as int], line)),
        at + offset(list, count, line) + tokens_of(list[count as int], line).len() == at + list_tokens(
            list,
            count + 1, line,
        ).len(),
    decreases list, count,
{
    if count == 0 {
        Seq::empty()
    } else {
        let comma = seq![sign(TokenType::COMMA, ',', line)];
        let before = list_tokens(list, count, line);
        let here = tokens_of(list[count as int], line);
        assert(list_tokens(list, count + 1, line) == before + comma + here);
        lemma_placed_split(tokens, at, before + comma, here);
        lemma_placed_split(tokens, at, before, comma);
        assert(tokens[(at + before.len()) as int] == comma[0]);
        let earlier = lemma_parse_some(tokens, at, list, (count - 1) as nat, line);
        let start = at + offset(list, (count - 1) as nat, line);
        let x = lemma_parse_loose(tokens, start, list[count - 1], line);
        lemma_argument_more(tokens, start, earlier, x, tokens_of(list[count - 1], line).len());
        earlier.push(x)
    }
}

/// An expression of the fragment, parsed from the tokens of its rendering
/// in front of a token that ends it: an expression like it.
pub proof fn lemma_parse_loose(tokens: Seq<TokenView>, at: nat, e: ExprView, line: usize) -> (x: ExprView)
    requires
        loose(e),
        placed(tokens, at, tokens_of(e, line)),
        stops(kind_at(tokens, at + tokens_of(e, line).len())),
    ensures
        expression(tokens, at) == done(x, tokens_of(e, line).len()),
        plain(x) == plain(e),
    decreases e, 1nat,
{
    match e {
        ExprView::Assign(_, name, value) => {
            let head = seq![crate::fragment::word(name.lexeme, line), sign(TokenType::ASSIGN, '=', line)];
            lemma_placed_split(tokens, at, head, tokens_of(*value, line));
            assert(tokens[at as int] == head[0]);
            assert(tokens[(at + 1) as int] == head[1]);
            let inner = lemma_parse_loose(tokens, at + 2, *value, line);
            lemma_assign(tokens, at, inner, tokens_of(*value, line).len());
            ExprView::Assign(at as usize, tokens[at as int], Box::new(inner))
        },
        _ => {
            let x = lemma_parse_tight(tokens, at, e, line);
            lemma_opens_tight(e, line);
            assert(tokens[at as int] == tokens_of(e, line)[0]);
            lemma_call_rest_stops(tokens, at + tokens_of(e, line).len(), x);
            lemma_unary_is_call(tokens, at);
            lemma_expression_through(tokens, at, x, tokens_of(e, line).len());
            x
        },
    }
}

/// A kind of token that starts a statement of the fragment.
pub open spec fn begins(kind: TokenType) -> bool {
    opens(kind) || kind == TokenType::IF || kind == TokenType::WHILE || kind == TokenType::FUN
}

/// A kind of token behind an expression statement of a rendering: one
/// that ends an expression and is no semicolon.
pub open spec fn follows(kind: TokenType) -> bool {
    stops(kind) && kind != TokenType::SEMICOLON
}

proof fn lemma_expression_statement(tokens: Seq<TokenView>, at: nat, x: ExprView, used: nat)
    requires
        expression(tokens, at) == done(x, used),
        kind_at(tokens, at + used) != TokenType::SEMICOLON,
    ensures
        expression_statement(tokens, at) == done(StmtView::Expression(x), used),
{
    reveal_with_fuel(expression_statement, 1);
    reveal_with_fuel(expression, 1);
}

proof fn lemma_statement_is_expression(tokens: Seq<TokenView>, at: nat, x: StmtView, used: nat)
    requires
        opens(kind_at(tokens, at)),
        expression_statement(tokens, at) == done(x, used),
    ensures
        statement(tokens, at) == done(x, used),
{
    reveal_with_fuel(statement, 1);
    reveal_with_fuel(expression_statement, 1);
}

proof fn lemma_statement_is_if(tokens: Seq<TokenView>, at: nat, x: StmtView, used: nat)
    requires
        kind_at(tokens, at) == TokenType::IF,
        if_statement(tokens, at + 1) == done(x, used),
    ensures
        statement(tokens, at) == done(x, used + 1),
{
    reveal_with_fuel(statement, 1);
    reveal_with_fuel(if_statement, 1);
}

proof fn lemma_statement_is_while(tokens: Seq<TokenView>, at: nat, x: StmtView, used: nat)
    requires
        kind_at(tokens, at) == TokenType::WHILE,
        while_statement(tokens, at + 1) == done(x, used),
    ensures
        statement(tokens, at) == done(x, used + 1),
{
    reveal_with_fuel(statement, 1);
    reveal_with_fuel(while_statement, 1);
}

proof fn lemma_statement_is_block(tokens: Seq<TokenView>, at: nat, x: StmtView, used: nat)
    requires
        kind_at(tokens, at) == TokenType::LEFTBRACE,
        block(tokens, at + 1) == done(x, used),
    ensures
        statement(tokens, at) == done(x, used + 1),
{
    reveal_with_fuel(statement, 1);
    reveal_with_fuel(block, 1);
}

proof fn lemma_declaration_is_statement(tokens: Seq<TokenView>, at: nat, x: StmtView, used: nat)
    requires
        begins(kind_at(tokens, at)),
        kind_at(tokens, at) != TokenType::FUN,
        statement(tokens, at) == done(x, used),
    ensures
        declaration(tokens, at) == done(x, used),
{
    reveal_with_fuel(declaration, 1);
    reveal_with_fuel(statement, 1);
}

proof fn lemma_declaration_is_function(tokens: Seq<TokenView>, at: nat, x: StmtView, used: nat)
    requires
        kind_at(tokens, at) == TokenType::FUN,
        function(tokens, at + 1, "function"@) == done(x, used),
    ensures
        declaration(tokens, at) == done(x, used + 1),
{
    reveal_with_fuel(declaration, 1);
    reveal_with_fuel(function, 1);
}

proof fn lemma_function(tokens: Seq<TokenView>, at: nat, body: StmtView, used: nat)
    requires
        kind_at(tokens, at) == TokenType::IDENTIFIER,
        kind_at(tokens, at + 1) == TokenType::LEFTPAREN,
        kind_at(tokens, at + 2) == TokenType::RIGHTPAREN,
        kind_at(tokens, at + 3) == TokenType::LEFTBRACE,
        block(tokens, at + 4) == done(body, used),
    ensures
        function(tokens, at, "function"@) == done(
            StmtView::Function { name: token_at(tokens, at), params: Seq::empty(), body: Box::new(body) },
            used + 4,
        ),
{
    reveal_with_fuel(function, 1);
    reveal_with_fuel(block, 1);
}

proof fn lemma_block(tokens: Seq<TokenView>, at: nat, list: Seq<StmtView>, used: nat)
    requires
        block_rest(tokens, at, Seq::empty()) == done(list, used),
        kind_at(tokens, at + used) == TokenType::RIGHTBRACE,
    ensures
        block(tokens, at) == done(StmtView::Block(list), used + 1),
{
    reveal_with_fuel(block, 1);
    reveal_with_fuel(block_rest, 1);
}

proof fn lemma_block_ends(tokens: Seq<TokenView>, at: nat, earlier: Seq<StmtView>)
    requires
        kind_at(tokens, at) == TokenType::RIGHTBRACE,
    ensures
        block_rest(tokens, at, earlier) == done(earlier, 0),
{
    reveal_with_fuel(block_rest, 1);
}

proof fn lemma_block_more(tokens: Seq<TokenView>, at: nat, earlier: Seq<StmtView>, x: StmtView, used: nat)
    requires
        begins(kind_at(tokens, at)),
        declaration(tokens, at) == done(x, used),
        used >= 1,
    ensures
        block_rest(tokens, at, earlier) == block_rest(tokens, at + used, earlier.push(x)).after(used),
{
    reveal_with_fuel(block_rest, 1);
    reveal_with_fuel(declaration, 1);
}

proof fn lemma_condition(tokens: Seq<TokenView>, at: nat, x: ExprView, used: nat, before: Seq<char>, behind: Seq<char>)
    requires
        kind_at(tokens, at) == TokenType::LEFTPAREN,
        expression(tokens, at + 1) == done(x, used),
        kind_at(tokens, at + 1 + used) == TokenType::RIGHTPAREN,
    ensures
        condition(tokens, at, before, behind) == done(x, used + 2),
{
    reveal_with_fuel(expression, 1);
}

proof fn lemma_while(tokens: Seq<TokenView>, at: nat, c: ExprView, head: nat, body: StmtView, used: nat)
    requires
        condition(tokens, at, "Expect '(' after 'while'."@, "Expect ')' after 'while' condition."@)
            == done(c, head),
        statement(tokens, at + head) == done(body, used),
    ensures
        while_statement(tokens, at) == done(
            StmtView::While { condition: c, body: Box::new(body) },
            head + used,
        ),
{
    reveal_with_fuel(while_statement, 1);
    reveal_with_fuel(statement, 1);
}

proof fn lemma_if(tokens: Seq<TokenView>, at: nat, c: ExprView, head: nat, first: StmtView, used: nat)
    requires
        condition(tokens, at, "Expect '(' after 'if'."@, "Expect ')' after 'if' condition."@) == done(
            c,
            head,
        ),
        statement(tokens, at + head) == done(first, used),
        !check(tokens, at + head + used, TokenType::ELSE),
    ensures
        if_statement(tokens, at) == done(
            StmtView::If { condition: c, then_branch: Box::new(first), else_branch: None },
            head + used,
        ),
{
    reveal_with_fuel(if_statement, 1);
    reveal_with_fuel(statement, 1);
}

proof fn lemma_if_else(
    tokens: Seq<TokenView>,
    at: nat,
    c: ExprView,
    head: nat,
    first: StmtView,
    used: nat,
    second: StmtView,
    more: nat,
)
    requires
        condition(tokens, at, "Expect '(' after 'if'."@, "Expect ')' after 'if' condition."@) == done(
            c,
            head,
        ),
        statement(tokens, at + head) == done(first, used),
        kind_at(tokens, at + head + used) == TokenType::ELSE,
        statement(tokens, at + head + used + 1) == done(second, more),
    ensures
        if_statement(tokens, at) == done(
            StmtView::If {
                condition: c,
                then_branch: Box::new(first),
                else_branch: Some(Box::new(second)),
            },
            head + used + 1 + more,
        ),
{
    reveal_with_fuel(if_statement, 1);
    reveal_with_fuel(statement, 1);
}

proof fn lemma_opens_plainly_tight(e: ExprView, line: usize)
    requires
        tight(e),
        !heads(e),
    ensures
        tokens_of(e, line).len() >= 1,
        opens(tokens_of(e, line)[0].token_type),
        tokens_of(e, line)[0].token_type != TokenType::LEFTPAREN,
    decreases e,
{
    lemma_keywords();
    match e {
        ExprView::Call { callee, paren, arguments } => {
            lemma_opens_plainly_tight(*callee, line);
        },
        _ => {},
    }
}

/// The tokens of an expression of the fragment whose rendering starts
/// with no parenthesis start with a numeral or a word.
proof fn lemma_opens_plainly(e: ExprView, line: usize)
    requires
        loose(e),
        !heads(e),
    ensures
        tokens_of(e, line).len() >= 1,
        opens(tokens_of(e, line)[0].token_type),
        tokens_of(e, line)[0].token_type != TokenType::LEFTPAREN,
{
    lemma_keywords();
    match e {
        ExprView::Assign(_, name, value) => {},
        _ => {
            lemma_opens_plainly_tight(e, line);
        },
    }
}

/// The tokens of a statement of the fragment start with a token that
/// starts a statement.
proof fn lemma_statement_begins(s: StmtView, line: usize)
    requires
        made(s),
    ensures
        statement_tokens(s, line).len() >= 1,
        begins(statement_tokens(s, line)[0].token_type),
        !led(s) ==> statement_tokens(s, line)[0].token_type != TokenType::LEFTPAREN,
    decreases s,
{
    lemma_keywords();
    match s {
        StmtView::Expression(e) => {
            lemma_opens(e, line);
            if !heads(e) {
                lemma_opens_plainly(e, line);
            }
        },
        StmtView::Block(list) => {
            lemma_statement_begins(list[0], line);
        },
        _ => {},
    }
}

proof fn lemma_plain_while(xc: ExprView, xb: StmtView, c: ExprView, body: StmtView)
    requires
        plain(xc) == plain(c),
        plain_branch(xb) == plain_branch(body),
    ensures
        plain_stmt(StmtView::While { condition: xc, body: Box::new(xb) }) == plain_stmt(
            StmtView::While { condition: c, body: Box::new(body) },
        ),
{
}

proof fn lemma_plain_if(
    xc: ExprView,
    xt: StmtView,
    xe: Option<StmtView>,
    c: ExprView,
    then_branch: StmtView,
    else_branch: Option<StmtView>,
)
    requires
        plain(xc) == plain(c),
        plain_branch(xt) == plain_branch(then_branch),
        xe is Some == else_branch is Some,
        xe is Some ==> plain_branch(xe->0) == plain_branch(else_branch->0),
    ensures
        plain_stmt(
            StmtView::If {
                condition: xc,
                then_branch: Box::new(xt),
                else_branch: match xe {
                    Some(b) => Some(Box::new(b)),
                    None => None,
                },
            },
        ) == plain_stmt(
            StmtView::If {
                condition: c,
                then_branch: Box::new(then_branch),
                else_branch: match else_branch {
                    Some(b) => Some(Box::new(b)),
                    None => None,
                },
            },
        ),
{
}

proof fn lemma_plain_block(xs: Seq<StmtView>, list: Seq<StmtView>)
    requires
        xs.len() == list.len(),
        forall|i: int| 0 <= i < xs.len() ==> plain_stmt(#[trigger] xs[i]) == plain_stmt(list[i]),
    ensures
        plain_branch(StmtView::Block(xs)) == plain_branch(StmtView::Block(list)),
{
    assert(plain_branch(StmtView::Block(xs)) =~= plain_branch(StmtView::Block(list)));
}

proof fn lemma_plain_single(x: StmtView, branch: StmtView)
    requires
        !(branch is Block),
        plain_stmt(x) == plain_stmt(branch),
    ensures
        plain_branch(StmtView::Block(seq![x])) == plain_branch(branch),
{
    assert(plain_branch(StmtView::Block(seq![x])) =~= seq![plain_stmt(x)]);
}

proof fn lemma_plain_function(seen: TokenView, xb: StmtView, name: TokenView, body: StmtView)
    requires
        plain_token(seen) == plain_token(name),
        plain_branch(xb) == plain_branch(body),
    ensures
        plain_stmt(StmtView::Function { name: seen, params: Seq::empty(), body: Box::new(xb) })
            == plain_stmt(StmtView::Function { name, params: Seq::empty(), body: Box::new(body) }),
{
    let a = plain_stmt(StmtView::Function { name: seen, params: Seq::empty(), body: Box::new(xb) });
    let b = plain_stmt(StmtView::Function { name, params: Seq::empty(), body: Box::new(body) });
    assert(a->Function_params =~= b->Function_params);
}

proof fn lemma_parse_function(tokens: Seq<TokenView>, at: nat, s: StmtView, line: usize) -> (x: StmtView)
    requires
        made(s),
        s is Function,
        placed(tokens, at, statement_tokens(s, line)),
    ensures
        declaration(tokens, at) == done(x, statement_tokens(s, line).len()),
        plain_stmt(x) == plain_stmt(s),
    decreases s, 0nat,
{
    lemma_keywords();
    let name = s->Function_name;
    let body = s->Function_body;
    let inner = below(line);
    let head = seq![
        word("fun"@, line),
        word(name.lexeme, line),
        sign(TokenType::LEFTPAREN, '(', line),
        sign(TokenType::RIGHTPAREN, ')', line),
        sign(TokenType::LEFTBRACE, '{', line),
    ];
    let tail = seq![sign(TokenType::RIGHTBRACE, '}', end_branch(*body, inner))];
    let w = branch_tokens(*body, inner).len();
    lemma_placed_split(tokens, at, head + branch_tokens(*body, inner), tail);
    lemma_placed_split(tokens, at, head, branch_tokens(*body, inner));
    assert(tokens[(at + 0) as int] == head[0]);
    assert(tokens[(at + 1) as int] == head[1]);
    assert(tokens[(at + 2) as int] == head[2]);
    assert(tokens[(at + 3) as int] == head[3]);
    assert(tokens[(at + 4) as int] == head[4]);
    assert(tokens[(at + 5 + w) as int] == tail[0]);
    let xb = lemma_parse_braced(tokens, at + 4, *body, inner);
    lemma_function(tokens, at + 1, xb, w + 1);
    let seen = token_at(tokens, at + 1);
    let x = StmtView::Function { name: seen, params: Seq::empty(), body: Box::new(xb) };
    lemma_declaration_is_function(tokens, at, x, w + 5);
    lemma_plain_function(seen, xb, name, *body);
    assert(s->Function_params =~= Seq::<TokenView>::empty());
    x
}

proof fn lemma_parse_while(tokens: Seq<TokenView>, at: nat, s: StmtView, line: usize) -> (x: StmtView)
    requires
        made(s),
        s is While,
        placed(tokens, at, statement_tokens(s, line)),
        kind_at(tokens, at + statement_tokens(s, line).len()) != TokenType::ELSE,
    ensures
        statement(tokens, at) == done(x, statement_tokens(s, line).len()),
        declaration(tokens, at) == done(x, statement_tokens(s, line).len()),
        plain_stmt(x) == plain_stmt(s),
    decreases s, 0nat,
{
    lemma_keywords();
    lemma_statement_begins(s, line);
    assert(tokens[at as int] == statement_tokens(s, line)[0]);
    let c = s->While_condition;
    let body = s->While_body;
    let inner = below(line);
    let close = below(end_branch(*body, inner));
    let head = seq![word("while"@, line), sign(TokenType::LEFTPAREN, '(', line)];
    let mid = seq![sign(TokenType::RIGHTPAREN, ')', line), sign(TokenType::LEFTBRACE, '{', line)];
    let tail = seq![sign(TokenType::RIGHTBRACE, '}', close)];
    let nc = tokens_of(c, line).len();
    let w = branch_tokens(*body, inner).len();
    lemma_placed_split(tokens, at, head + tokens_of(c, line) + mid + branch_tokens(*body, inner), tail);
    lemma_placed_split(tokens, at, head + tokens_of(c, line) + mid, branch_tokens(*body, inner));
    lemma_placed_split(tokens, at, head + tokens_of(c, line), mid);
    lemma_placed_split(tokens, at, head, tokens_of(c, line));
    assert(tokens[(at + 1) as int] == head[1]);
    assert(tokens[(at + 2 + nc) as int] == mid[0]);
    assert(tokens[(at + 2 + nc + 1) as int] == mid[1]);
    assert(tokens[(at + 4 + nc + w) as int] == tail[0]);
    let xc = lemma_parse_loose(tokens, at + 2, c, line);
    lemma_condition(
        tokens,
        at + 1,
        xc,
        nc,
        "Expect '(' after 'while'."@,
        "Expect ')' after 'while' condition."@,
    );
    let xb = lemma_parse_braced(tokens, at + 3 + nc, *body, inner);
    lemma_while(tokens, at + 1, xc, nc + 2, xb, w + 2);
    let x = StmtView::While { condition: xc, body: Box::new(xb) };
    lemma_statement_is_while(tokens, at, x, nc + w + 4);
    lemma_declaration_is_statement(tokens, at, x, nc + w + 5);
    lemma_plain_while(xc, xb, c, *body);
    x
}

proof fn lemma_parse_if(tokens: Seq<TokenView>, at: nat, s: StmtView, line: usize) -> (x: StmtView)
    requires
        made(s),
        s is If,
        placed(tokens, at, statement_tokens(s, line)),
        kind_at(tokens, at + statement_tokens(s, line).len()) != TokenType::ELSE,
    ensures
        statement(tokens, at) == done(x, statement_tokens(s, line).len()),
        declaration(tokens, at) == done(x, statement_tokens(s, line).len()),
        plain_stmt(x) == plain_stmt(s),
    decreases s, 0nat,
{
    lemma_keywords();
    lemma_statement_begins(s, line);
    assert(tokens[at as int] == statement_tokens(s, line)[0]);
    let c = s->If_condition;
    let then_branch = s->If_then_branch;
    let else_branch = s->If_else_branch;
    let inner = below(line);
    let close = below(end_branch(*then_branch, inner));
    let head = seq![word("if"@, line), sign(TokenType::LEFTPAREN, '(', line)];
    let mid = seq![sign(TokenType::RIGHTPAREN, ')', line), sign(TokenType::LEFTBRACE, '{', line)];
    let shut = seq![sign(TokenType::RIGHTBRACE, '}', close)];
    let nc = tokens_of(c, line).len();
    let w = branch_tokens(*then_branch, inner).len();
    let rest = match else_branch {
        Some(branch) => seq![word("else"@, close), sign(TokenType::LEFTBRACE, '{', close)]
            + branch_tokens(*branch, below(close)) + seq![
            sign(TokenType::RIGHTBRACE, '}', end_branch(*branch, below(close))),
        ],
        None => Seq::empty(),
    };
    lemma_placed_split(
        tokens,
        at,
        head + tokens_of(c, line) + mid + branch_tokens(*then_branch, inner) + shut,
        rest,
    );
    lemma_placed_split(
        tokens,
        at,
        head + tokens_of(c, line) + mid + branch_tokens(*then_branch, inner),
        shut,
    );
    lemma_placed_split(
        tokens,
        at,
        head + tokens_of(c, line) + mid,
        branch_tokens(*then_branch, inner),
    );
    lemma_placed_split(tokens, at, head + tokens_of(c, line), mid);
    lemma_placed_split(tokens, at, head, tokens_of(c, line));
    assert(tokens[(at + 1) as int] == head[1]);
    assert(tokens[(at + 2 + nc) as int] == mid[0]);
    assert(tokens[(at + 2 + nc + 1) as int] == mid[1]);
    assert(tokens[(at + 4 + nc + w) as int] == shut[0]);
    let xc = lemma_parse_loose(tokens, at + 2, c, line);
    lemma_condition(
        tokens,
        at + 1,
        xc,
        nc,
        "Expect '(' after 'if'."@,
        "Expect ')' after 'if' condition."@,
    );
    let xt = lemma_parse_braced(tokens, at + 3 + nc, *then_branch, inner);
    let after = at + 5 + nc + w;
    match else_branch {
        Some(branch) => {
            let second = branch_tokens(*branch, below(close));
            let start = seq![word("else"@, close), sign(TokenType::LEFTBRACE, '{', close)];
            let last = seq![sign(TokenType::RIGHTBRACE, '}', end_branch(*branch, below(close)))];
            lemma_placed_split(tokens, after, start + second, last);
            lemma_placed_split(tokens, after, start, second);
            assert(tokens[after as int] == start[0]);
            assert(tokens[(after + 1) as int] == start[1]);
            assert(tokens[(after + 2 + second.len()) as int] == last[0]);
            let xe = lemma_parse_braced(tokens, after + 1, *branch, below(close));
            lemma_if_else(tokens, at + 1, xc, nc + 2, xt, w + 2, xe, second.len() + 2);
            let x = StmtView::If {
                condition: xc,
                then_branch: Box::new(xt),
                else_branch: Some(Box::new(xe)),
            };
            lemma_statement_is_if(tokens, at, x, nc + w + 4 + 1 + second.len() + 2);
            lemma_declaration_is_statement(tokens, at, x, nc + w + 5 + 1 + second.len() + 2);
            lemma_plain_if(xc, xt, Some(xe), c, *then_branch, Some(*branch));
            x
        },
        None => {
            lemma_if(tokens, at + 1, xc, nc + 2, xt, w + 2);
            let x = StmtView::If {
                condition: xc,
                then_branch: Box::new(xt),
                else_branch: None,
            };
            lemma_statement_is_if(tokens, at, x, nc + w + 4);
            lemma_declaration_is_statement(tokens, at, x, nc + w + 5);
            lemma_plain_if(xc, xt, None, c, *then_branch, None);
            x
        },
    }
}

/// A statement of the fragment, parsed from the tokens of its rendering:
/// a statement like it.
pub proof fn lemma_parse_statement(tokens: Seq<TokenView>, at: nat, s: StmtView, line: usize) -> (x: StmtView)
    requires
        made(s),
        placed(tokens, at, statement_tokens(s, line)),
        ends_open(s) ==> follows(kind_at(tokens, at + statement_tokens(s, line).len())),
        kind_at(tokens, at + statement_tokens(s, line).len()) != TokenType::ELSE,
    ensures
        !(s is Function) ==> statement(tokens, at) == done(x, statement_tokens(s, line).len()),
        declaration(tokens, at) == done(x, statement_tokens(s, line).len()),
        plain_stmt(x) == plain_stmt(s),
        statement_tokens(s, line).len() >= 1,
        begins(kind_at(tokens, at)),
    decreases s, 1nat,
{
    lemma_statement_begins(s, line);
    assert(tokens[at as int] == statement_tokens(s, line)[0]);
    match s {
        StmtView::Expression(e) => {
            let xe = lemma_parse_loose(tokens, at, e, line);
            let n = tokens_of(e, line).len();
            lemma_opens(e, line);
            assert(tokens[at as int] == tokens_of(e, line)[0]);
            lemma_expression_statement(tokens, at, xe, n);
            lemma_statement_is_expression(tokens, at, StmtView::Expression(xe), n);
            lemma_declaration_is_statement(tokens, at, StmtView::Expression(xe), n);
            StmtView::Expression(xe)
        },
        StmtView::While { condition: c, body } => {
            lemma_parse_while(tokens, at, s, line)
        },
        StmtView::If { condition: c, then_branch, else_branch } => {
            lemma_parse_if(tokens, at, s, line)
        },
        StmtView::Function { name, params, body } => {
            lemma_parse_function(tokens, at, s, line)
        },
        StmtView::Block(list) => {
            lemma_parse_statement(tokens, at, list[0], line)
        },
        _ => s,
    }
}

/// A branch of the fragment, parsed from the tokens of its rendering in
/// braces: a block like it.
proof fn lemma_parse_braced(tokens: Seq<TokenView>, at: nat, branch: StmtView, line: usize) -> (x: StmtView)
    requires
        branch_made(branch),
        kind_at(tokens, at) == TokenType::LEFTBRACE,
        placed(tokens, at + 1, branch_tokens(branch, line)),
        kind_at(tokens, at + 1 + branch_tokens(branch, line).len()) == TokenType::RIGHTBRACE,
    ensures
        statement(tokens, at) == done(x, branch_tokens(branch, line).len() + 2),
        block(tokens, at + 1) == done(x, branch_tokens(branch, line).len() + 1),
        plain_branch(x) == plain_branch(branch),
    decreases branch, 3nat,
{
    let w = branch_tokens(branch, line).len();
    match branch {
        StmtView::Block(list) => {
            let xs = lemma_parse_items(tokens, at + 1, list, list.len(), line);
            lemma_block_ends(tokens, at + 1 + w, xs);
            lemma_block(tokens, at + 1, xs, w);
            lemma_statement_is_block(tokens, at, StmtView::Block(xs), w + 1);
            lemma_plain_block(xs, list);
            StmtView::Block(xs)
        },
        _ => {
            let x = lemma_parse_statement(tokens, at + 1, branch, line);
            lemma_block_more(tokens, at + 1, Seq::empty(), x, w);
            assert(Seq::<StmtView>::empty().push(x) =~= seq![x]);
            lemma_block_ends(tokens, at + 1 + w, seq![x]);
            lemma_block(tokens, at + 1, seq![x], w);
            lemma_statement_is_block(tokens, at, StmtView::Block(seq![x]), w + 1);
            lemma_plain_single(x, branch);
            StmtView::Block(seq![x])
        },
    }
}

/// The first `count` statements of a block of the fragment, parsed from
/// the tokens of their rendering: statements like them, one for one.
proof fn lemma_parse_items(tokens: Seq<TokenView>, at: nat, list: Seq<StmtView>, count: nat, line: usize) -> (xs:
    Seq<StmtView>)
    requires
        apart(list),
        forall|i: int| 0 <= i < list.len() ==> made(#[trigger] list[i]),
        count <= list.len(),
        placed(tokens, at, items_tokens(list, count, line)),
        count >= 1 ==> (ends_open(list[count - 1]) ==> follows(
            kind_at(tokens, at + items_tokens(list, count, line).len()),
        )),
        count >= 1 ==> kind_at(tokens, at + items_tokens(list, count, line).len()) != TokenType::ELSE,
    ensures
        block_rest(tokens, at, Seq::empty()) == block_rest(
            tokens,
            at + items_tokens(list, count, line).len(),
            xs,
        ).after(items_tokens(list, count, line).len()),
        xs.len() == count,
        forall|i: int| 0 <= i < count ==> plain_stmt(#[trigger] xs[i]) == plain_stmt(list[i]),
    decreases list, count,
{
    if count == 0 {
        Seq::empty()
    } else {
        let before = items_tokens(list, (count - 1) as nat, line);
        let start = if count == 1 {
            line
        } else {
            below(end_items(list, (count - 1) as nat, line))
        };
        let here = statement_tokens(list[count - 1], start);
        assert(items_tokens(list, count, line) =~= before + here);
        lemma_placed_split(tokens, at, before, here);
        lemma_statement_begins(list[count - 1], start);
        assert(tokens[(at + before.len()) as int] == here[0]);
        let earlier = lemma_parse_items(tokens, at, list, (count - 1) as nat, line);
        let x = lemma_parse_statement(tokens, at + before.len(), list[count - 1], start);
        lemma_block_more(tokens, at + before.len(), earlier, x, here.len());
        earlier.push(x)
    }
}

} // verus!
