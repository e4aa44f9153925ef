//! The expressions and statements whose canonical rendering parses back:
//! numerals, names, `true`, `false` and `nil`, the unary operations, calls
//! and assignments made of them, `if` and `while` over such statements,
//! functions without parameters whose bodies consist of them, and blocks
//! of one such statement. For each, the tokens that its rendering
//! consists of, and what it means that two of them are alike.
use vstd::prelude::*;
use crate::expr::ExprView;
use crate::grammar::MAX_ARGUMENTS;
use crate::roundtrip::{is_numeral, is_word};
use crate::scanner::word_kind;
use crate::stmt::StmtView;
use crate::token::{LiteralView, TokenType, TokenView};

verus! {

/// A token without its line.
pub open spec fn plain_token(token: TokenView) -> TokenView {
    TokenView { line: 0, ..token }
}

/// An expression without what printing loses and parsing back adds: the
/// lines of its tokens, the numbers of its sites, and groupings.
pub open spec fn plain(e: ExprView) -> ExprView
    decreases e,
{
    match e {
        ExprView::Grouping(inner) => plain(*inner),
        ExprView::Unary { operator, right } => ExprView::Unary {
            operator: plain_token(operator),
            right: Box::new(plain(*right)),
        },
        ExprView::Binary { operator, left, right } => ExprView::Binary {
            operator: plain_token(operator),
            left: Box::new(plain(*left)),
            right: Box::new(plain(*right)),
        },
        ExprView::Logical { operator, left, right } => ExprView::Logical {
            operator: plain_token(operator),
            left: Box::new(plain(*left)),
            right: Box::new(plain(*right)),
        },
        ExprView::Variable(_, name) => ExprView::Variable(0, plain_token(name)),
        ExprView::Assign(_, name, value) => ExprView::Assign(
            0,
            plain_token(name),
            Box::new(plain(*value)),
        ),
        ExprView::Call { callee, paren, arguments } => ExprView::Call {
            callee: Box::new(plain(*callee)),
            paren: plain_token(paren),
            arguments: Seq::new(
                arguments.len(),
                |i: int|
                    if 0 <= i < arguments.len() {
                        plain(arguments[i])
                    } else {
                        ExprView::Nil
                    },
            ),
        },
        _ => e,
    }
}

/// The statements of a branch without what printing loses and parsing
/// back adds. A branch is printed in braces, whether or not it is a
/// block, and parsed back as a block.
pub open spec fn plain_branch(branch: StmtView) -> Seq<StmtView>
    decreases branch, 1nat,
{
    match branch {
        StmtView::Block(list) => Seq::new(
            list.len(),
            |i: int|
                if 0 <= i < list.len() {
                    plain_stmt(list[i])
                } else {
                    StmtView::Block(Seq::empty())
                },
        ),
        _ => seq![plain_stmt(branch)],
    }
}

/// A statement without what printing loses and parsing back adds: what
/// its expressions lose, and the braces around one statement that
/// declares nothing, be it a branch or a block by itself.
pub open spec fn plain_stmt(s: StmtView) -> StmtView
    decreases s, 0nat,
{
    match s {
        StmtView::Expression(e) => StmtView::Expression(plain(e)),
        StmtView::Block(list) => if list.len() == 1 && !(list[0] is Function) && !(list[0] is Var) {
            plain_stmt(list[0])
        } else {
            s
        },
        StmtView::If { condition, then_branch, else_branch } => StmtView::If {
            condition: plain(condition),
            then_branch: Box::new(StmtView::Block(plain_branch(*then_branch))),
            else_branch: match else_branch {
                Some(branch) => Some(Box::new(StmtView::Block(plain_branch(*branch)))),
                None => None,
            },
        },
        StmtView::While { condition, body } => StmtView::While {
            condition: plain(condition),
            body: Box::new(StmtView::Block(plain_branch(*body))),
        },
        StmtView::Function { name, params, body } => StmtView::Function {
            name: plain_token(name),
            params: Seq::new(
                params.len(),
                |i: int|
                    if 0 <= i < params.len() {
                        plain_token(params[i])
                    } else {
                        name
                    },
            ),
            body: Box::new(StmtView::Block(plain_branch(*body))),
        },
        _ => s,
    }
}

/// Two statements are alike: equal up to groupings, the numbers of sites,
/// the lines of tokens, and the braces around one statement that is no
/// declaration. To the evaluator a grouping is the expression that it
/// holds, a site number is a key of the binding table, and a line is part
/// of the report of an error. A branch of one statement is no
/// declaration, so that the frame of a block around it holds nothing.
pub open spec fn alike(a: StmtView, b: StmtView) -> bool {
    plain_stmt(a) == plain_stmt(b)
}

/// The expression is made of numerals, names, `true`, `false` and `nil`
/// by unary operations, calls and assignments only.
pub open spec fn parses_back(e: ExprView) -> bool
    decreases e,
{
    match e {
        ExprView::Number(_) | ExprView::Bool(_) | ExprView::Nil | ExprView::Variable(_, _) => true,
        ExprView::Unary { operator, right } => parses_back(*right),
        ExprView::Assign(_, _, value) => parses_back(*value),
        ExprView::Call { callee, paren, arguments } => parses_back(*callee) && forall|i: int|
            0 <= i < arguments.len() ==> parses_back(#[trigger] arguments[i]),
        _ => false,
    }
}

/// A name as the scanner makes it.
pub open spec fn is_name(token: TokenView) -> bool {
    &&& token.token_type == TokenType::IDENTIFIER
    &&& token.literal is None
    &&& is_word(token.lexeme)
    &&& word_kind(token.lexeme) == TokenType::IDENTIFIER
}

/// A token that consists of one character of its own.
pub open spec fn is_sign(token: TokenView, kind: TokenType, c: char) -> bool {
    token.token_type == kind && token.literal is None && token.lexeme == seq![c]
}

/// `!` or `-` as the scanner makes it.
pub open spec fn is_prefix(token: TokenView) -> bool {
    is_sign(token, TokenType::BANG, '!') || is_sign(token, TokenType::MINUS, '-')
}

/// The word is spelled as the scanner reads words, and is of the kind.
pub open spec fn spells(word: Seq<char>, kind: TokenType) -> bool {
    is_word(word) && word_kind(word) == kind
}

/// The keywords of the fragment are words, each of its own kind.
pub proof fn lemma_keywords()
    ensures
        spells("true"@, TokenType::TRUE),
        spells("false"@, TokenType::FALSE),
        spells("nil"@, TokenType::NIL),
        spells("if"@, TokenType::IF),
        spells("else"@, TokenType::ELSE),
        spells("while"@, TokenType::WHILE),
        spells("fun"@, TokenType::FUN),
{
    reveal_strlit("and");
    reveal_strlit("class");
    reveal_strlit("else");
    reveal_strlit("false");
    reveal_strlit("for");
    reveal_strlit("fun");
    reveal_strlit("if");
    reveal_strlit("nil");
    reveal_strlit("or");
    reveal_strlit("print");
    reveal_strlit("return");
    reveal_strlit("super");
    reveal_strlit("this");
    reveal_strlit("true");
    reveal_strlit("var");
    reveal_strlit("while");
    assert("else"@[0] == 'e' && "false"@[0] == 'f' && "class"@[0] == 'c');
    assert("for"@[1] == 'o' && "fun"@[1] == 'u' && "and"@[0] == 'a');
    assert("if"@[0] == 'i' && "or"@[0] == 'o' && "nil"@[0] == 'n');
    assert("this"@[1] == 'h' && "true"@[1] == 'r' && "this"@[0] == 't');
    assert("print"@[0] == 'p' && "super"@[0] == 's' && "var"@[0] == 'v' && "while"@[0] == 'w');
}

/// An expression of one token, as the parser makes it of scanned tokens.
pub open spec fn atom(e: ExprView) -> bool {
    match e {
        ExprView::Number(text) => is_numeral(text),
        ExprView::Bool(_) | ExprView::Nil => true,
        ExprView::Variable(_, name) => is_name(name),
        _ => false,
    }
}

/// An expression that binds as tightly as a call, as the parser makes it
/// of scanned tokens: one token, a unary operation on such an expression,
/// or a call of such an expression.
pub open spec fn tight(e: ExprView) -> bool
    decreases e, 0nat,
{
    match e {
        ExprView::Unary { operator, right } => is_prefix(operator) && tight(*right),
        ExprView::Call { callee, paren, arguments } => {
            &&& is_sign(paren, TokenType::RIGHTPAREN, ')')
            &&& tight(*callee)
            &&& arguments.len() <= MAX_ARGUMENTS
            &&& forall|i: int| 0 <= i < arguments.len() ==> loose(#[trigger] arguments[i])
        },
        _ => atom(e),
    }
}

/// An expression of the fragment, as the parser makes it of scanned
/// tokens: a tight one, or an assignment of such an expression to a name.
pub open spec fn loose(e: ExprView) -> bool
    decreases e, 1nat,
{
    match e {
        ExprView::Assign(_, name, value) => is_name(name) && loose(*value),
        _ => tight(e),
    }
}

/// A token of one character of its own.
pub open spec fn sign(kind: TokenType, c: char, line: usize) -> TokenView {
    TokenView { token_type: kind, lexeme: seq![c], literal: None, line }
}

/// The token of a word.
pub open spec fn word(lexeme: Seq<char>, line: usize) -> TokenView {
    TokenView { token_type: word_kind(lexeme), lexeme, literal: None, line }
}

/// The tokens of the rendering of an expression, all on one line.
pub open spec fn tokens_of(e: ExprView, line: usize) -> Seq<TokenView>
    decreases e, 0nat,
{
    match e {
        ExprView::Number(text) => seq![
            TokenView {
                token_type: TokenType::NUMBER,
                lexeme: text,
                literal: Some(LiteralView::Number(text)),
                line,
            },
        ],
        ExprView::Bool(b) => seq![
            word(
                if b {
                    "true"@
                } else {
                    "false"@
                }, line,
            ),
        ],
        ExprView::Nil => seq![word("nil"@, line)],
        ExprView::Variable(_, name) => seq![word(name.lexeme, line)],
        ExprView::Unary { operator, right } => seq![
            sign(TokenType::LEFTPAREN, '(', line),
            TokenView { line, ..operator },
        ] + tokens_of(*right, line) + seq![sign(TokenType::RIGHTPAREN, ')', line)],
        ExprView::Assign(_, name, value) => seq![word(name.lexeme, line), sign(TokenType::ASSIGN, '=', line)]
            + tokens_of(*value, line),
        ExprView::Call { callee, paren, arguments } => tokens_of(*callee, line) + seq![
            sign(TokenType::LEFTPAREN, '(', line),
        ] + list_tokens(arguments, arguments.len(), line) + seq![sign(TokenType::RIGHTPAREN, ')', line)],
        _ => Seq::empty(),
    }
}

/// The tokens of the rendering of the first `count` expressions of a list.
pub open spec fn list_tokens(list: Seq<ExprView>, count: nat, line: usize) -> Seq<TokenView>
    decreases list, count,
{
    if count == 0 || count > list.len() {
        Seq::empty()
    } else if count == 1 {
        tokens_of(list[0], line)
    } else {
        list_tokens(list, (count - 1) as nat, line) + seq![sign(TokenType::COMMA, ',', line)] + tokens_of(
            list[count - 1], line,
        )
    }
}

/// A kind of token that an expression of the fragment starts with.
pub open spec fn opens(kind: TokenType) -> bool {
    kind == TokenType::NUMBER || kind == TokenType::IDENTIFIER || kind == TokenType::TRUE || kind
        == TokenType::FALSE || kind == TokenType::NIL || kind == TokenType::LEFTPAREN
}

/// The tokens of a tight expression start with a token that starts an
/// expression.
pub proof fn lemma_opens_tight(e: ExprView, line: usize)
    requires
        tight(e),
    ensures
        tokens_of(e, line).len() >= 1,
        opens(tokens_of(e, line)[0].token_type),
    decreases e,
{
    lemma_keywords();
    match e {
        ExprView::Call { callee, paren, arguments } => {
            lemma_opens_tight(*callee, line);
        },
        _ => {},
    }
}

/// The tokens of an expression of the fragment start with a token that
/// starts an expression.
pub proof fn lemma_opens(e: ExprView, line: usize)
    requires
        loose(e),
    ensures
        tokens_of(e, line).len() >= 1,
        opens(tokens_of(e, line)[0].token_type),
{
    lemma_keywords();
    match e {
        ExprView::Assign(_, name, value) => {},
        _ => {
            lemma_opens_tight(e, line);
        },
    }
}

/// The part is found among the tokens from `at` on.
pub open spec fn placed(tokens: Seq<TokenView>, at: nat, part: Seq<TokenView>) -> bool {
    at + part.len() <= tokens.len() && forall|k: int|
        0 <= k < part.len() ==> tokens[at + k] == #[trigger] part[k]
}

pub proof fn lemma_placed_split(tokens: Seq<TokenView>, at: nat, first: Seq<TokenView>, second: Seq<TokenView>)
    requires
        placed(tokens, at, first + second),
    ensures
        placed(tokens, at, first),
        placed(tokens, at + first.len(), second),
{
    let whole = first + second;
    assert forall|k: int| 0 <= k < first.len() implies tokens[at + k] == #[trigger] first[k] by {
        assert(whole[k] == first[k]);
    }
    assert forall|k: int| 0 <= k < second.len() implies tokens[at + first.len() + k]
        == #[trigger] second[k] by {
        assert(whole[first.len() + k] == second[k]);
    }
}

/// The rendering of the expression starts with a parenthesis: its
/// leftmost part is a unary operation.
pub open spec fn heads(e: ExprView) -> bool
    decreases e,
{
    match e {
        ExprView::Unary { operator, right } => true,
        ExprView::Call { callee, paren, arguments } => heads(*callee),
        _ => false,
    }
}

/// The rendering of the statement ends with an expression.
pub open spec fn ends_open(s: StmtView) -> bool
    decreases s,
{
    match s {
        StmtView::Expression(_) => true,
        StmtView::Block(list) => list.len() == 1 && ends_open(list[0]),
        _ => false,
    }
}

/// The rendering of the statement starts with a parenthesis.
pub open spec fn led(s: StmtView) -> bool
    decreases s,
{
    match s {
        StmtView::Expression(e) => heads(e),
        StmtView::Block(list) => list.len() == 1 && led(list[0]),
        _ => false,
    }
}

/// In a list of statements, none that starts with a parenthesis follows an
/// expression statement: it would parse back as a call of the expression.
pub open spec fn apart(list: Seq<StmtView>) -> bool {
    forall|i: int| 0 < i < list.len() ==> (ends_open(list[i - 1]) ==> !led(#[trigger] list[i]))
}

/// The statement is an expression statement of the fragment, an `if` or
/// a `while` whose condition is of the fragment and whose branches are
/// such statements or blocks of them, a function without parameters
/// whose body is a block of them, or a block of one of them that is no
/// function.
pub open spec fn statement_parses_back(s: StmtView) -> bool
    decreases s, 0nat,
{
    match s {
        StmtView::Expression(e) => parses_back(e),
        StmtView::If { condition, then_branch, else_branch } => parses_back(condition)
            && branch_parses_back(*then_branch) && (else_branch matches Some(branch)
            ==> branch_parses_back(*branch)),
        StmtView::While { condition, body } => parses_back(condition) && branch_parses_back(*body),
        StmtView::Function { name, params, body } => params.len() == 0 && *body is Block
            && branch_parses_back(*body),
        StmtView::Block(list) => list.len() == 1 && !(list[0] is Function) && statement_parses_back(
            list[0],
        ),
        _ => false,
    }
}

/// The branch is a statement that parses back and declares nothing, or
/// a block of statements that parse back and are apart.
pub open spec fn branch_parses_back(branch: StmtView) -> bool
    decreases branch, 1nat,
{
    match branch {
        StmtView::Block(list) => apart(list) && forall|i: int|
            0 <= i < list.len() ==> statement_parses_back(#[trigger] list[i]),
        StmtView::Function { .. } => false,
        _ => statement_parses_back(branch),
    }
}

/// A statement of the fragment as the parser makes it of scanned tokens.
pub open spec fn made(s: StmtView) -> bool
    decreases s, 0nat,
{
    match s {
        StmtView::Expression(e) => loose(e),
        StmtView::If { condition, then_branch, else_branch } => loose(condition) && branch_made(
            *then_branch,
        ) && (else_branch matches Some(branch) ==> branch_made(*branch)),
        StmtView::While { condition, body } => loose(condition) && branch_made(*body),
        StmtView::Function { name, params, body } => is_name(name) && params.len() == 0 && *body is Block
            && branch_made(*body),
        StmtView::Block(list) => list.len() == 1 && !(list[0] is Function) && made(list[0]),
        _ => false,
    }
}

/// A branch of the fragment as the parser makes it of scanned tokens.
pub open spec fn branch_made(branch: StmtView) -> bool
    decreases branch, 1nat,
{
    match branch {
        StmtView::Block(list) => apart(list) && forall|i: int|
            0 <= i < list.len() ==> made(#[trigger] list[i]),
        StmtView::Function { .. } => false,
        _ => made(branch),
    }
}

/// The line below.
pub open spec fn below(line: usize) -> usize {
    crate::scanner::line_after(line, 1)
}

/// The line on which the rendering of a statement ends that starts on
/// `line`.
pub open spec fn end_line(s: StmtView, line: usize) -> usize
    decreases s, 0nat,
{
    match s {
        StmtView::If { condition, then_branch, else_branch } => match else_branch {
            Some(branch) => below(end_branch(*branch, below(below(end_branch(*then_branch, below(line)))))),
            None => below(below(end_branch(*then_branch, below(line)))),
        },
        StmtView::While { condition, body } => below(below(end_branch(*body, below(line)))),
        StmtView::Function { name, params, body } => end_branch(*body, below(line)),
        StmtView::Block(list) => end_items(list, list.len(), line),
        _ => line,
    }
}

/// The line on which the rendering of a branch ends.
pub open spec fn end_branch(branch: StmtView, line: usize) -> usize
    decreases branch, 1nat,
{
    match branch {
        StmtView::Block(list) => end_items(list, list.len(), line),
        _ => end_line(branch, line),
    }
}

/// The line on which the rendering of the first `count` statements ends.
pub open spec fn end_items(list: Seq<StmtView>, count: nat, line: usize) -> usize
    decreases list, count,
{
    if count == 0 || count > list.len() {
        line
    } else if count == 1 {
        end_line(list[0], line)
    } else {
        end_line(list[count - 1], below(end_items(list, (count - 1) as nat, line)))
    }
}

/// The tokens of the rendering of a statement that starts on `line`.
pub open spec fn statement_tokens(s: StmtView, line: usize) -> Seq<TokenView>
    decreases s, 0nat,
{
    match s {
        StmtView::Expression(e) => tokens_of(e, line),
        StmtView::If { condition, then_branch, else_branch } => {
            let inner = below(line);
            let close = below(end_branch(*then_branch, inner));
            seq![word("if"@, line), sign(TokenType::LEFTPAREN, '(', line)] + tokens_of(condition, line)
                + seq![sign(TokenType::RIGHTPAREN, ')', line), sign(TokenType::LEFTBRACE, '{', line)]
                + branch_tokens(*then_branch, inner) + seq![sign(TokenType::RIGHTBRACE, '}', close)]
                + match else_branch {
                Some(branch) => seq![word("else"@, close), sign(TokenType::LEFTBRACE, '{', close)]
                    + branch_tokens(*branch, below(close)) + seq![
                    sign(TokenType::RIGHTBRACE, '}', end_branch(*branch, below(close))),
                ],
                None => Seq::empty(),
            }
        },
        StmtView::While { condition, body } => {
            let inner = below(line);
            let close = below(end_branch(*body, inner));
            seq![word("while"@, line), sign(TokenType::LEFTPAREN, '(', line)] + tokens_of(
                condition,
                line,
            ) + seq![sign(TokenType::RIGHTPAREN, ')', line), sign(TokenType::LEFTBRACE, '{', line)]
                + branch_tokens(*body, inner) + seq![sign(TokenType::RIGHTBRACE, '}', close)]
        },
        StmtView::Function { name, params, body } => {
            let inner = below(line);
            seq![
                word("fun"@, line),
                word(name.lexeme, line),
                sign(TokenType::LEFTPAREN, '(', line),
                sign(TokenType::RIGHTPAREN, ')', line),
                sign(TokenType::LEFTBRACE, '{', line),
            ] + branch_tokens(*body, inner) + seq![
                sign(TokenType::RIGHTBRACE, '}', end_branch(*body, inner)),
            ]
        },
        StmtView::Block(list) => items_tokens(list, list.len(), line),
        _ => Seq::empty(),
    }
}

/// The tokens of the rendering of a branch.
pub open spec fn branch_tokens(branch: StmtView, line: usize) -> Seq<TokenView>
    decreases branch, 1nat,
{
    match branch {
        StmtView::Block(list) => items_tokens(list, list.len(), line),
        _ => statement_tokens(branch, line),
    }
}

/// The tokens of the rendering of the first `count` statements of a list.
pub open spec fn items_tokens(list: Seq<StmtView>, count: nat, line: usize) -> Seq<TokenView>
    decreases list, count,
{
    if count == 0 || count > list.len() {
        Seq::empty()
    } else if count == 1 {
        statement_tokens(list[0], line)
    } else {
        items_tokens(list, (count - 1) as nat, line) + statement_tokens(
            list[count - 1],
            below(end_items(list, (count - 1) as nat, line)),
        )
    }
}

} // verus!
