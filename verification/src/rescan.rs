//! What the scanner makes of a rendering: for an expression or a
//! statement of the fragment, its tokens, without an error.
use vstd::prelude::*;
use crate::expr::{ExprView, expr_text, list_text};
use crate::fragment::{
    below, branch_made, branch_tokens, end_branch, end_items, end_line, ends_open, is_prefix,
    items_tokens,
    lemma_keywords, list_tokens, loose, made, sign, statement_tokens, tight, tokens_of, word,
};
use crate::stmt::{StmtView, block_text, stmt_text};
use crate::roundtrip::{is_numeral, is_numeral_of, is_word, lemma_run_to};
use crate::scanner::{CharClass, ScanState, in_class, run_end};
use crate::text::is_mark;
use crate::token::{LiteralView, TokenType, TokenView};

verus! {

/// The text is found in the source from `at` on.
pub open spec fn found(source: Seq<char>, at: int, text: Seq<char>) -> bool {
    0 <= at && at + text.len() <= source.len() && forall|k: int|
        0 <= k < text.len() ==> source[at + k] == #[trigger] text[k]
}

pub proof fn lemma_found_split(source: Seq<char>, at: int, first: Seq<char>, second: Seq<char>)
    requires
        found(source, at, first + second),
    ensures
        found(source, at, first),
        found(source, at + first.len(), second),
        (first + second).len() == first.len() + second.len(),
{
    let whole = first + second;
    assert forall|k: int| 0 <= k < first.len() implies source[at + k] == #[trigger] first[k] by {
        assert(whole[k] == first[k]);
    }
    assert forall|k: int| 0 <= k < second.len() implies source[at + first.len() + k]
        == #[trigger] second[k] by {
        assert(whole[first.len() + k] == second[k]);
    }
}

/// The source ends at `at`, or holds there a character that ends a word
/// and a numeral: a character with a meaning of its own, but no point.
pub open spec fn ends(source: Seq<char>, at: int) -> bool {
    at >= source.len() || (is_mark(source[at]) && source[at] != '.')
}

/// The state with more tokens, further on in the source.
pub open spec fn put(state: ScanState, tokens: Seq<TokenView>, advance: int) -> ScanState {
    ScanState { tokens: state.tokens + tokens, current: state.current + advance, ..state }
}

/// From both states the scanner ends with the same tokens and errors.
pub open spec fn same(source: Seq<char>, a: ScanState, b: ScanState) -> bool {
    a.run(source).finish() == b.run(source).finish()
}

/// Where a lexeme started does not matter to what follows.
proof fn lemma_start(source: Seq<char>, state: ScanState, start: int)
    ensures
        same(source, ScanState { start, ..state }, state),
{
}

proof fn lemma_put_put(state: ScanState, a: Seq<TokenView>, m: int, b: Seq<TokenView>, n: int)
    ensures
        put(put(state, a, m), b, n) == put(state, a + b, m + n),
{
    assert((state.tokens + a) + b =~= state.tokens + (a + b));
}

/// The literal texts of the renderings.
proof fn lemma_literals()
    ensures
        "("@ == seq!['('],
        ")"@ == seq![')'],
        " "@ == seq![' '],
        ", "@ == seq![',', ' '],
        " = "@ == seq![' ', '=', ' '],
{
    reveal_strlit("(");
    reveal_strlit(")");
    reveal_strlit(" ");
    reveal_strlit(", ");
    reveal_strlit(" = ");
    assert("("@ =~= seq!['(']);
    assert(")"@ =~= seq![')']);
    assert(" "@ =~= seq![' ']);
    assert(", "@ =~= seq![',', ' ']);
    assert(" = "@ =~= seq![' ', '=', ' ']);
}

/// A parenthesis, a brace, a comma or a minus sign is a token by itself.
proof fn lemma_scan_sign(source: Seq<char>, state: ScanState, c: char, kind: TokenType)
    requires
        0 <= state.current < source.len(),
        source[state.current] == c,
        (c == '(' && kind == TokenType::LEFTPAREN) || (c == ')' && kind == TokenType::RIGHTPAREN) || (c
            == ',' && kind == TokenType::COMMA) || (c == '-' && kind == TokenType::MINUS) || (c == '{'
            && kind == TokenType::LEFTBRACE) || (c == '}' && kind == TokenType::RIGHTBRACE),
    ensures
        same(source, state, put(state, seq![sign(kind, c, state.line)], 1)),
{
    let from = ScanState { start: state.current, ..state };
    let after = from.step(source);
    assert(source.subrange(state.current, state.current + 1) =~= seq![c]);
    assert(state.tokens.push(sign(kind, c, state.line)) =~= state.tokens + seq![sign(kind, c, state.line)]);
    assert(after == ScanState { start: state.current, ..put(state, seq![sign(kind, c, state.line)], 1) });
    lemma_start(source, put(state, seq![sign(kind, c, state.line)], 1), state.current);
}

/// `!` or `=` in front of another character than `=` is a token by
/// itself.
proof fn lemma_scan_operator(source: Seq<char>, state: ScanState, c: char, kind: TokenType)
    requires
        0 <= state.current < source.len(),
        source[state.current] == c,
        (c == '!' && kind == TokenType::BANG) || (c == '=' && kind == TokenType::ASSIGN),
        state.current + 1 >= source.len() || source[state.current + 1] != '=',
    ensures
        same(source, state, put(state, seq![sign(kind, c, state.line)], 1)),
{
    let from = ScanState { start: state.current, ..state };
    let after = from.step(source);
    assert(source.subrange(state.current, state.current + 1) =~= seq![c]);
    assert(state.tokens.push(sign(kind, c, state.line)) =~= state.tokens + seq![sign(kind, c, state.line)]);
    assert(after == ScanState { start: state.current, ..put(state, seq![sign(kind, c, state.line)], 1) });
    lemma_start(source, put(state, seq![sign(kind, c, state.line)], 1), state.current);
}

/// A space is skipped.
proof fn lemma_scan_space(source: Seq<char>, state: ScanState)
    requires
        0 <= state.current < source.len(),
        source[state.current] == ' ',
    ensures
        same(source, state, put(state, Seq::empty(), 1)),
{
    let from = ScanState { start: state.current, ..state };
    let after = from.step(source);
    assert(state.tokens + Seq::<TokenView>::empty() =~= state.tokens);
    assert(after == ScanState { start: state.current, ..put(state, Seq::empty(), 1) });
    lemma_start(source, put(state, Seq::empty(), 1), state.current);
}

/// A word in front of a character with a meaning of its own, or of the
/// end of the source, is one token.
proof fn lemma_scan_word_at(source: Seq<char>, state: ScanState, text: Seq<char>)
    requires
        is_word(text),
        found(source, state.current, text),
        state.current + text.len() >= source.len() || is_mark(source[state.current + text.len()]),
    ensures
        same(source, state, put(state, seq![word(text, state.line)], text.len() as int)),
{
    let from = ScanState { start: state.current, ..state };
    let end = state.current + text.len();
    assert(source[state.current] == text[0]);
    assert forall|i: int| state.current + 1 <= i < end implies in_class(
        CharClass::IdentifierPart,
        #[trigger] source[i],
    ) by {
        assert(source[state.current + (i - state.current)] == text[i - state.current]);
    }
    lemma_run_to(source, state.current + 1, end, CharClass::IdentifierPart);
    assert(source.subrange(state.current, end) =~= text);
    let after = from.step(source);
    assert(after == from.identifier(source));
    assert(state.tokens.push(word(text, state.line)) =~= state.tokens + seq![word(text, state.line)]);
    assert(after == ScanState { start: state.current, ..put(state, seq![word(text, state.line)], text.len() as int) });
    lemma_start(source, put(state, seq![word(text, state.line)], text.len() as int), state.current);
}

/// The token of a numeral.
pub open spec fn numeral(text: Seq<char>, line: usize) -> TokenView {
    TokenView {
        token_type: TokenType::NUMBER,
        lexeme: text,
        literal: Some(LiteralView::Number(text)),
        line,
    }
}

/// A canonical numeral in front of a parenthesis, a comma or the end of
/// the source is one token that holds it.
proof fn lemma_scan_numeral_at(source: Seq<char>, state: ScanState, text: Seq<char>)
    requires
        is_numeral(text),
        found(source, state.current, text),
        ends(source, state.current + text.len()),
    ensures
        same(source, state, put(state, seq![numeral(text, state.line)], text.len() as int)),
{
    let (whole, fraction) = choose|whole: Seq<char>, fraction: Seq<char>|
        is_numeral_of(text, whole, fraction);
    let from = ScanState { start: state.current, ..state };
    let begin = state.current;
    let point = begin + whole.len();
    let end = begin + text.len();
    assert(text.len() == whole.len() + 1 + fraction.len());
    assert forall|i: int| begin <= i < point implies in_class(CharClass::Digit, #[trigger] source[i]) by {
        assert(source[begin + (i - begin)] == text[i - begin]);
        assert(text[i - begin] == whole[i - begin]);
    }
    assert(source[point] == '.') by {
        assert(source[begin + whole.len()] == text[whole.len() as int]);
    }
    assert forall|i: int| point + 1 <= i < end implies in_class(CharClass::Digit, #[trigger] source[i]) by {
        assert(source[begin + (i - begin)] == text[i - begin]);
        assert(text[i - begin] == fraction[i - point - 1]);
    }
    lemma_run_to(source, begin + 1, point, CharClass::Digit);
    lemma_run_to(source, point + 1, end, CharClass::Digit);
    assert forall|k: int| 0 <= k < whole.len() implies source.subrange(begin, point)[k]
        == #[trigger] whole[k] by {
        assert(source[begin + k] == text[k]);
    }
    assert(source.subrange(begin, point) =~= whole);
    assert forall|k: int| 0 <= k < fraction.len() implies source.subrange(point + 1, end)[k]
        == #[trigger] fraction[k] by {
        assert(source[begin + (whole.len() + 1 + k)] == text[whole.len() + 1 + k]);
    }
    assert(source.subrange(point + 1, end) =~= fraction);
    assert(source.subrange(begin, end) =~= text);
    assert(crate::number::canonical_number(whole, fraction) =~= text);
    let after = from.step(source);
    assert(after == from.number(source));
    assert(state.tokens.push(numeral(text, state.line)) =~= state.tokens + seq![numeral(text, state.line)]);
    assert(source[begin] == text[0]);
    assert(text[0] == whole[0]);
    assert(source[point + 1] == fraction[0]) by {
        assert(source[begin + (whole.len() + 1)] == text[whole.len() as int + 1]);
    }
    assert(after == ScanState { start: begin, ..put(state, seq![numeral(text, state.line)], text.len() as int) });
    lemma_start(source, put(state, seq![numeral(text, state.line)], text.len() as int), begin);
}

/// A unary operation in its parentheses, given what the scanner makes of
/// the operand.
proof fn lemma_scan_unary(
    source: Seq<char>,
    state: ScanState,
    c: char,
    kind: TokenType,
    operand: Seq<TokenView>,
    text: Seq<char>,
)
    requires
        (c == '!' && kind == TokenType::BANG) || (c == '-' && kind == TokenType::MINUS),
        found(source, state.current, seq!['(', c, ' ']),
        found(source, state.current + 3 + text.len() as int, seq![')']),
        same(
            source,
            put(state, seq![sign(TokenType::LEFTPAREN, '(', state.line), sign(kind, c, state.line)], 3),
            put(put(state, seq![sign(TokenType::LEFTPAREN, '(', state.line), sign(kind, c, state.line)], 3), operand, text.len() as int),
        ),
    ensures
        same(
            source,
            state,
            put(
                state,
                seq![sign(TokenType::LEFTPAREN, '(', state.line), sign(kind, c, state.line)] + operand + seq![
                    sign(TokenType::RIGHTPAREN, ')', state.line),
                ],
                text.len() as int + 4,
            ),
        ),
{
    let begin = state.current;
    let open = sign(TokenType::LEFTPAREN, '(', state.line);
    let prefix = sign(kind, c, state.line);
    let close = sign(TokenType::RIGHTPAREN, ')', state.line);
    assert(source[begin + 0] == seq!['(', c, ' '][0]);
    assert(source[begin + 1] == seq!['(', c, ' '][1]);
    assert(source[begin + 2] == seq!['(', c, ' '][2]);
    assert(source[begin + 3 + text.len() + 0] == seq![')'][0]);
    lemma_scan_sign(source, state, '(', TokenType::LEFTPAREN);
    let q1 = put(state, seq![open], 1);
    if c == '!' {
        lemma_scan_operator(source, q1, c, kind);
    } else {
        lemma_scan_sign(source, q1, c, kind);
    }
    let q2 = put(q1, seq![prefix], 1);
    lemma_scan_space(source, q2);
    let q3 = put(q2, Seq::empty(), 1);
    lemma_put_put(state, seq![open], 1, seq![prefix], 1);
    lemma_put_put(state, seq![open] + seq![prefix], 2, Seq::empty(), 1);
    assert(seq![open] + seq![prefix] + Seq::<TokenView>::empty() =~= seq![open, prefix]);
    assert(q3 == put(state, seq![open, prefix], 3));
    let q4 = put(q3, operand, text.len() as int);
    lemma_scan_sign(source, q4, ')', TokenType::RIGHTPAREN);
    lemma_put_put(state, seq![open, prefix], 3, operand, text.len() as int);
    lemma_put_put(state, seq![open, prefix] + operand, 3 + text.len() as int, seq![close], 1);
}

/// An assignment, given what the scanner makes of the value.
proof fn lemma_scan_assign(
    source: Seq<char>,
    state: ScanState,
    name: Seq<char>,
    value: Seq<TokenView>,
    text: Seq<char>,
)
    requires
        is_word(name),
        found(source, state.current, name),
        found(source, state.current + name.len(), seq![' ', '=', ' ']),
        same(
            source,
            put(state, seq![word(name, state.line), sign(TokenType::ASSIGN, '=', state.line)], name.len() as int + 3),
            put(
                put(state, seq![word(name, state.line), sign(TokenType::ASSIGN, '=', state.line)], name.len() as int + 3),
                value,
                text.len() as int,
            ),
        ),
    ensures
        same(
            source,
            state,
            put(
                state,
                seq![word(name, state.line), sign(TokenType::ASSIGN, '=', state.line)] + value,
                name.len() as int + 3 + text.len() as int,
            ),
        ),
{
    let begin = state.current + name.len();
    let equals = sign(TokenType::ASSIGN, '=', state.line);
    assert(source[begin + 0] == seq![' ', '=', ' '][0]);
    assert(source[begin + 1] == seq![' ', '=', ' '][1]);
    assert(source[begin + 2] == seq![' ', '=', ' '][2]);
    lemma_scan_word_at(source, state, name);
    let q1 = put(state, seq![word(name, state.line)], name.len() as int);
    lemma_scan_space(source, q1);
    let q2 = put(q1, Seq::empty(), 1);
    lemma_scan_operator(source, q2, '=', TokenType::ASSIGN);
    let q3 = put(q2, seq![equals], 1);
    lemma_scan_space(source, q3);
    let q4 = put(q3, Seq::empty(), 1);
    lemma_put_put(state, seq![word(name, state.line)], name.len() as int, Seq::empty(), 1);
    lemma_put_put(state, seq![word(name, state.line)] + Seq::empty(), name.len() as int + 1, seq![equals], 1);
    lemma_put_put(
        state,
        seq![word(name, state.line)] + Seq::empty() + seq![equals],
        name.len() as int + 2,
        Seq::empty(),
        1,
    );
    assert(seq![word(name, state.line)] + Seq::<TokenView>::empty() + seq![equals] + Seq::<TokenView>::empty()
        =~= seq![word(name, state.line), equals]);
    assert(q4 == put(state, seq![word(name, state.line), equals], name.len() as int + 3));
    lemma_put_put(state, seq![word(name, state.line), equals], name.len() as int + 3, value, text.len() as int);
}

/// A call, given what the scanner makes of the callee and of the
/// arguments.
proof fn lemma_scan_call(
    source: Seq<char>,
    state: ScanState,
    callee: Seq<TokenView>,
    head: int,
    list: Seq<TokenView>,
    width: int,
)
    requires
        0 <= head,
        0 <= width,
        same(source, state, put(state, callee, head)),
        found(source, state.current + head, seq!['(']),
        same(
            source,
            put(state, callee + seq![sign(TokenType::LEFTPAREN, '(', state.line)], head + 1),
            put(put(state, callee + seq![sign(TokenType::LEFTPAREN, '(', state.line)], head + 1), list, width),
        ),
        found(source, state.current + head + 1 + width, seq![')']),
    ensures
        same(
            source,
            state,
            put(
                state,
                callee + seq![sign(TokenType::LEFTPAREN, '(', state.line)] + list + seq![
                    sign(TokenType::RIGHTPAREN, ')', state.line),
                ],
                head + width + 2,
            ),
        ),
{
    let open = sign(TokenType::LEFTPAREN, '(', state.line);
    let close = sign(TokenType::RIGHTPAREN, ')', state.line);
    assert(source[state.current + head + 0] == seq!['('][0]);
    assert(source[state.current + head + 1 + width + 0] == seq![')'][0]);
    let q1 = put(state, callee, head);
    lemma_scan_sign(source, q1, '(', TokenType::LEFTPAREN);
    lemma_put_put(state, callee, head, seq![open], 1);
    let q2 = put(state, callee + seq![open], head + 1);
    let q3 = put(q2, list, width);
    lemma_scan_sign(source, q3, ')', TokenType::RIGHTPAREN);
    lemma_put_put(state, callee + seq![open], head + 1, list, width);
    lemma_put_put(state, callee + seq![open] + list, head + 1 + width, seq![close], 1);
}

/// One more argument behind a comma, given what the scanner makes of the
/// arguments before it and of the argument.
proof fn lemma_scan_more(
    source: Seq<char>,
    state: ScanState,
    before: Seq<TokenView>,
    width: int,
    here: Seq<TokenView>,
    text: int,
)
    requires
        0 <= width,
        0 <= text,
        same(source, state, put(state, before, width)),
        found(source, state.current + width, seq![',', ' ']),
        same(
            source,
            put(state, before + seq![sign(TokenType::COMMA, ',', state.line)], width + 2),
            put(put(state, before + seq![sign(TokenType::COMMA, ',', state.line)], width + 2), here, text),
        ),
    ensures
        same(
            source,
            state,
            put(state, before + seq![sign(TokenType::COMMA, ',', state.line)] + here, width + 2 + text),
        ),
{
    let comma = sign(TokenType::COMMA, ',', state.line);
    assert(source[state.current + width + 0] == seq![',', ' '][0]);
    assert(source[state.current + width + 1] == seq![',', ' '][1]);
    let q1 = put(state, before, width);
    lemma_scan_sign(source, q1, ',', TokenType::COMMA);
    let q2 = put(q1, seq![comma], 1);
    lemma_scan_space(source, q2);
    lemma_put_put(state, before, width, seq![comma], 1);
    lemma_put_put(state, before + seq![comma], width + 1, Seq::empty(), 1);
    assert(before + seq![comma] + Seq::<TokenView>::empty() =~= before + seq![comma]);
    lemma_put_put(state, before + seq![comma], width + 2, here, text);
}

/// A tight expression of the fragment, scanned in its rendering in front
/// of a parenthesis, a comma or the end of the source: its tokens.
proof fn lemma_scan_tight(source: Seq<char>, state: ScanState, e: ExprView)
    requires
        tight(e),
        found(source, state.current, expr_text(e)),
        ends(source, state.current + expr_text(e).len()),
    ensures
        same(source, state, put(state, tokens_of(e, state.line), expr_text(e).len() as int)),
    decreases e, 0nat,
{
    lemma_keywords();
    lemma_literals();
    let begin = state.current;
    match e {
        ExprView::Number(text) => {
            lemma_scan_numeral_at(source, state, text);
        },
        ExprView::Bool(b) => {
            lemma_scan_word_at(
                source,
                state,
                if b {
                    "true"@
                } else {
                    "false"@
                },
            );
        },
        ExprView::Nil => {
            lemma_scan_word_at(source, state, "nil"@);
        },
        ExprView::Variable(_, name) => {
            lemma_scan_word_at(source, state, name.lexeme);
        },
        ExprView::Unary { operator, right } => {
            let c = operator.lexeme[0];
            let kind = operator.token_type;
            let t = expr_text(*right);
            let head = seq!['(', c, ' '];
            assert(operator.lexeme =~= seq![c]);
            assert(expr_text(e) =~= head + t + seq![')']);
            lemma_found_split(source, begin, head + t, seq![')']);
            lemma_found_split(source, begin, head, t);
            let open = seq![sign(TokenType::LEFTPAREN, '(', state.line), sign(kind, c, state.line)];
            assert(source[begin + 3 + t.len() + 0] == seq![')'][0]);
            lemma_scan_tight(source, put(state, open, 3), *right);
            lemma_scan_unary(source, state, c, kind, tokens_of(*right, state.line), t);
            assert((TokenView { line: state.line, ..operator }) == sign(kind, c, state.line));
            assert(expr_text(e).len() == t.len() + 4);
        },
        ExprView::Call { callee, paren, arguments } => {
            let head = expr_text(*callee);
            let list = list_text(arguments, arguments.len() as int);
            assert(expr_text(e) == head + seq!['('] + list + seq![')']);
            lemma_found_split(source, begin, head + seq!['('] + list, seq![')']);
            lemma_found_split(source, begin, head + seq!['('], list);
            lemma_found_split(source, begin, head, seq!['(']);
            assert(source[begin + head.len() + 0] == seq!['('][0]);
            assert(source[begin + head.len() + 1 + list.len() + 0] == seq![')'][0]);
            lemma_scan_tight(source, state, *callee);
            let open = tokens_of(*callee, state.line) + seq![sign(TokenType::LEFTPAREN, '(', state.line)];
            lemma_scan_list(source, put(state, open, head.len() as int + 1), arguments, arguments.len());
            lemma_scan_call(
                source,
                state,
                tokens_of(*callee, state.line),
                head.len() as int,
                list_tokens(arguments, arguments.len(), state.line),
                list.len() as int,
            );
            assert(expr_text(e).len() == head.len() + list.len() + 2);
        },
        _ => {},
    }
}

/// The first `count` arguments of a call of the fragment, scanned in
/// their rendering: their tokens.
proof fn lemma_scan_list(source: Seq<char>, state: ScanState, list: Seq<ExprView>, count: nat)
    requires
        forall|i: int| 0 <= i < list.len() ==> loose(#[trigger] list[i]),
        count <= list.len(),
        found(source, state.current, list_text(list, count as int)),
        count >= 1 ==> ends(source, state.current + list_text(list, count as int).len()),
    ensures
        same(
            source,
            state,
            put(state, list_tokens(list, count, state.line), list_text(list, count as int).len() as int),
        ),
    decreases list, count,
{
    lemma_literals();
    if count == 0 {
        assert(state.tokens + Seq::<TokenView>::empty() =~= state.tokens);
        assert(put(state, Seq::empty(), 0) == state);
    } else if count == 1 {
        lemma_scan_loose(source, state, list[0]);
    } else {
        let before = list_text(list, count - 1);
        let here = expr_text(list[count - 1]);
        assert(list_text(list, count as int) == before + seq![',', ' '] + here);
        lemma_found_split(source, state.current, before + seq![',', ' '], here);
        lemma_found_split(source, state.current, before, seq![',', ' ']);
        assert(source[state.current + before.len() + 0] == seq![',', ' '][0]);
        lemma_scan_list(source, state, list, (count - 1) as nat);
        let sofar = list_tokens(list, (count - 1) as nat, state.line) + seq![sign(TokenType::COMMA, ',', state.line)];
        lemma_scan_loose(source, put(state, sofar, before.len() as int + 2), list[count - 1]);
        lemma_scan_more(
            source,
            state,
            list_tokens(list, (count - 1) as nat, state.line),
            before.len() as int,
            tokens_of(list[count - 1], state.line),
            here.len() as int,
        );
        assert(list_text(list, count as int).len() == before.len() + 2 + here.len());
    }
}

/// An expression of the fragment, scanned in its rendering in front of a
/// parenthesis, a comma or the end of the source: its tokens.
pub proof fn lemma_scan_loose(source: Seq<char>, state: ScanState, e: ExprView)
    requires
        loose(e),
        found(source, state.current, expr_text(e)),
        ends(source, state.current + expr_text(e).len()),
    ensures
        same(source, state, put(state, tokens_of(e, state.line), expr_text(e).len() as int)),
    decreases e, 1nat,
{
    lemma_literals();
    match e {
        ExprView::Assign(_, name, value) => {
            let t = expr_text(*value);
            assert(expr_text(e) == name.lexeme + seq![' ', '=', ' '] + t);
            lemma_found_split(source, state.current, name.lexeme + seq![' ', '=', ' '], t);
            lemma_found_split(source, state.current, name.lexeme, seq![' ', '=', ' ']);
            let head = seq![word(name.lexeme, state.line), sign(TokenType::ASSIGN, '=', state.line)];
            lemma_scan_loose(source, put(state, head, name.lexeme.len() as int + 3), *value);
            lemma_scan_assign(source, state, name.lexeme, tokens_of(*value, state.line), t);
            assert(expr_text(e).len() == name.lexeme.len() + 3 + t.len());
        },
        _ => {
            lemma_scan_tight(source, state, e);
        },
    }
}

/// The state with more tokens, further on in the source, on a line.
pub open spec fn moved(state: ScanState, tokens: Seq<TokenView>, advance: int, line: usize) -> ScanState {
    ScanState { tokens: state.tokens + tokens, current: state.current + advance, line, ..state }
}

/// One part of a rendering behind another.
proof fn lemma_then(
    source: Seq<char>,
    state: ScanState,
    first: Seq<TokenView>,
    m: int,
    line: usize,
    second: Seq<TokenView>,
    n: int,
    last: usize,
)
    requires
        same(source, state, moved(state, first, m, line)),
        same(source, moved(state, first, m, line), moved(moved(state, first, m, line), second, n, last)),
    ensures
        same(source, state, moved(state, first + second, m + n, last)),
{
    assert((state.tokens + first) + second =~= state.tokens + (first + second));
    assert(moved(moved(state, first, m, line), second, n, last) == moved(
        state,
        first + second,
        m + n,
        last,
    ));
}

proof fn lemma_put_is_moved(state: ScanState, tokens: Seq<TokenView>, advance: int)
    ensures
        put(state, tokens, advance) == moved(state, tokens, advance, state.line),
{
}

/// A line feed is skipped, and the next line starts.
proof fn lemma_scan_newline(source: Seq<char>, state: ScanState)
    requires
        0 <= state.current < source.len(),
        source[state.current] == '\n',
    ensures
        same(source, state, moved(state, Seq::empty(), 1, below(state.line))),
{
    let from = ScanState { start: state.current, ..state };
    let after = from.step(source);
    assert(state.tokens + Seq::<TokenView>::empty() =~= state.tokens);
    assert(after == ScanState {
        start: state.current,
        ..moved(state, Seq::empty(), 1, below(state.line))
    });
    lemma_start(source, moved(state, Seq::empty(), 1, below(state.line)), state.current);
}

/// The literal texts of the renderings of statements.
proof fn lemma_statement_literals()
    ensures
        "if ("@ == seq!['i', 'f', ' ', '('],
        "while ("@ == seq!['w', 'h', 'i', 'l', 'e', ' ', '('],
        ") {\n"@ == seq![')', ' ', '{', '\n'],
        "\n"@ == seq!['\n'],
        "} else {\n"@ == seq!['}', ' ', 'e', 'l', 's', 'e', ' ', '{', '\n'],
        "}\n"@ == seq!['}', '\n'],
        "if"@ == seq!['i', 'f'],
        "else"@ == seq!['e', 'l', 's', 'e'],
        "while"@ == seq!['w', 'h', 'i', 'l', 'e'],
{
    reveal_strlit("if (");
    reveal_strlit("while (");
    reveal_strlit(") {\n");
    reveal_strlit("\n");
    reveal_strlit("} else {\n");
    reveal_strlit("}\n");
    reveal_strlit("if");
    reveal_strlit("else");
    reveal_strlit("while");
    assert("if ("@ =~= seq!['i', 'f', ' ', '(']);
    assert("while ("@ =~= seq!['w', 'h', 'i', 'l', 'e', ' ', '(']);
    assert(") {\n"@ =~= seq![')', ' ', '{', '\n']);
    assert("\n"@ =~= seq!['\n']);
    assert("} else {\n"@ =~= seq!['}', ' ', 'e', 'l', 's', 'e', ' ', '{', '\n']);
    assert("}\n"@ =~= seq!['}', '\n']);
    assert("if"@ =~= seq!['i', 'f']);
    assert("else"@ =~= seq!['e', 'l', 's', 'e']);
    assert("while"@ =~= seq!['w', 'h', 'i', 'l', 'e']);
}

/// A keyword, a space and an opening parenthesis.
proof fn lemma_scan_head(source: Seq<char>, state: ScanState, keyword: Seq<char>)
    requires
        is_word(keyword),
        found(source, state.current, keyword + seq![' ', '(']),
    ensures
        same(
            source,
            state,
            moved(
                state,
                seq![word(keyword, state.line), sign(TokenType::LEFTPAREN, '(', state.line)],
                keyword.len() as int + 2,
                state.line,
            ),
        ),
{
    let line = state.line;
    lemma_found_split(source, state.current, keyword, seq![' ', '(']);
    let begin = state.current + keyword.len();
    assert(source[begin + 0] == seq![' ', '('][0]);
    assert(source[begin + 1] == seq![' ', '('][1]);
    lemma_scan_word_at(source, state, keyword);
    let q1 = put(state, seq![word(keyword, line)], keyword.len() as int);
    lemma_scan_space(source, q1);
    let q2 = put(q1, Seq::empty(), 1);
    lemma_scan_sign(source, q2, '(', TokenType::LEFTPAREN);
    lemma_put_put(state, seq![word(keyword, line)], keyword.len() as int, Seq::empty(), 1);
    lemma_put_put(
        state,
        seq![word(keyword, line)] + Seq::empty(),
        keyword.len() as int + 1,
        seq![sign(TokenType::LEFTPAREN, '(', line)],
        1,
    );
    assert(seq![word(keyword, line)] + Seq::<TokenView>::empty() + seq![
        sign(TokenType::LEFTPAREN, '(', line),
    ] =~= seq![word(keyword, line), sign(TokenType::LEFTPAREN, '(', line)]);
}

/// A closing parenthesis, a space, an opening brace and a line feed.
proof fn lemma_scan_open(source: Seq<char>, state: ScanState)
    requires
        found(source, state.current, seq![')', ' ', '{', '\n']),
    ensures
        same(
            source,
            state,
            moved(
                state,
                seq![
                    sign(TokenType::RIGHTPAREN, ')', state.line),
                    sign(TokenType::LEFTBRACE, '{', state.line),
                ],
                4,
                below(state.line),
            ),
        ),
{
    let line = state.line;
    let text = seq![')', ' ', '{', '\n'];
    assert(source[state.current + 0] == text[0]);
    assert(source[state.current + 1] == text[1]);
    assert(source[state.current + 2] == text[2]);
    assert(source[state.current + 3] == text[3]);
    let shut = sign(TokenType::RIGHTPAREN, ')', line);
    let open = sign(TokenType::LEFTBRACE, '{', line);
    lemma_scan_sign(source, state, ')', TokenType::RIGHTPAREN);
    let q1 = put(state, seq![shut], 1);
    lemma_scan_space(source, q1);
    let q2 = put(q1, Seq::empty(), 1);
    lemma_scan_sign(source, q2, '{', TokenType::LEFTBRACE);
    let q3 = put(q2, seq![open], 1);
    lemma_scan_newline(source, q3);
    lemma_put_put(state, seq![shut], 1, Seq::empty(), 1);
    lemma_put_put(state, seq![shut] + Seq::empty(), 2, seq![open], 1);
    assert(seq![shut] + Seq::<TokenView>::empty() + seq![open] =~= seq![shut, open]);
    assert(q3 == put(state, seq![shut, open], 3));
    assert(seq![shut, open] + Seq::<TokenView>::empty() =~= seq![shut, open]);
    assert(moved(q3, Seq::empty(), 1, below(line)) == moved(state, seq![shut, open], 4, below(line)));
}

/// A space, `else`, a space, an opening brace and a line feed.
proof fn lemma_scan_else(source: Seq<char>, state: ScanState)
    requires
        is_word("else"@),
        found(source, state.current, seq![' ', 'e', 'l', 's', 'e', ' ', '{', '\n']),
    ensures
        same(
            source,
            state,
            moved(
                state,
                seq![word("else"@, state.line), sign(TokenType::LEFTBRACE, '{', state.line)],
                8,
                below(state.line),
            ),
        ),
{
    lemma_statement_literals();
    let line = state.line;
    let text = seq![' ', 'e', 'l', 's', 'e', ' ', '{', '\n'];
    assert(source[state.current + 0] == text[0]);
    assert(source[state.current + 1] == text[1]);
    assert(source[state.current + 2] == text[2]);
    assert(source[state.current + 3] == text[3]);
    assert(source[state.current + 4] == text[4]);
    assert(source[state.current + 5] == text[5]);
    assert(source[state.current + 6] == text[6]);
    assert(source[state.current + 7] == text[7]);
    let open = sign(TokenType::LEFTBRACE, '{', line);
    lemma_scan_space(source, state);
    let q1 = put(state, Seq::empty(), 1);
    assert(found(source, q1.current, "else"@)) by {
        assert forall|k: int| 0 <= k < 4 implies source[q1.current + k] == #[trigger] "else"@[k] by {}
    }
    lemma_scan_word_at(source, q1, "else"@);
    let q2 = put(q1, seq![word("else"@, line)], 4);
    lemma_scan_space(source, q2);
    let q3 = put(q2, Seq::empty(), 1);
    lemma_scan_sign(source, q3, '{', TokenType::LEFTBRACE);
    let q4 = put(q3, seq![open], 1);
    lemma_scan_newline(source, q4);
    assert(state.tokens + Seq::<TokenView>::empty() + seq![word("else"@, line)] + Seq::<
        TokenView,
    >::empty() + seq![open] + Seq::<TokenView>::empty() =~= state.tokens + seq![
        word("else"@, line),
        open,
    ]);
    assert(moved(q4, Seq::empty(), 1, below(line)) == moved(
        state,
        seq![word("else"@, line), open],
        8,
        below(line),
    ));
}

/// A closing brace and a line feed.
proof fn lemma_scan_close(source: Seq<char>, state: ScanState)
    requires
        found(source, state.current, seq!['}', '\n']),
    ensures
        same(
            source,
            state,
            moved(state, seq![sign(TokenType::RIGHTBRACE, '}', state.line)], 2, below(state.line)),
        ),
{
    let line = state.line;
    let text = seq!['}', '\n'];
    assert(source[state.current + 0] == text[0]);
    assert(source[state.current + 1] == text[1]);
    let shut = sign(TokenType::RIGHTBRACE, '}', line);
    lemma_scan_sign(source, state, '}', TokenType::RIGHTBRACE);
    let q1 = put(state, seq![shut], 1);
    lemma_scan_newline(source, q1);
    assert(seq![shut] + Seq::<TokenView>::empty() =~= seq![shut]);
    assert(moved(q1, Seq::empty(), 1, below(line)) == moved(state, seq![shut], 2, below(line)));
}

/// A statement of the fragment, scanned in its rendering: its tokens, and
/// the line on which the rendering ends.
pub proof fn lemma_scan_statement(source: Seq<char>, state: ScanState, s: StmtView)
    requires
        made(s),
        found(source, state.current, stmt_text(s)),
        ends_open(s) ==> ends(source, state.current + stmt_text(s).len()),
    ensures
        same(
            source,
            state,
            moved(
                state,
                statement_tokens(s, state.line),
                stmt_text(s).len() as int,
                end_line(s, state.line),
            ),
        ),
    decreases s, 1nat,
{
    match s {
        StmtView::Expression(e) => {
            lemma_scan_loose(source, state, e);
            lemma_put_is_moved(state, tokens_of(e, state.line), expr_text(e).len() as int);
        },
        StmtView::While { condition, body } => {
            lemma_scan_while(source, state, s);
        },
        StmtView::If { condition, then_branch, else_branch } => {
            lemma_scan_if(source, state, s);
        },
        StmtView::Function { name, params, body } => {
            lemma_scan_function(source, state, s);
        },
        StmtView::Block(list) => {
            assert(block_text(list, 1) == stmt_text(list[0]));
            assert(stmt_text(s) == stmt_text(list[0]));
            assert(statement_tokens(s, state.line) == statement_tokens(list[0], state.line));
            assert(end_line(s, state.line) == end_line(list[0], state.line));
            lemma_scan_statement(source, state, list[0]);
        },
        _ => {},
    }
}

proof fn lemma_scan_while(source: Seq<char>, state: ScanState, s: StmtView)
    requires
        made(s),
        s is While,
        found(source, state.current, stmt_text(s)),
    ensures
        same(
            source,
            state,
            moved(
                state,
                statement_tokens(s, state.line),
                stmt_text(s).len() as int,
                end_line(s, state.line),
            ),
        ),
    decreases s, 0nat,
{
    lemma_keywords();
    lemma_statement_literals();
    let c = s->While_condition;
    let body = *s->While_body;
    let line = state.line;
    let inner = below(line);
    let close = below(end_branch(body, inner));
    let begin = state.current;
    let ct = expr_text(c);
    let bt = stmt_text(body);
    let p1 = "while ("@ + ct;
    let p2 = p1 + ") {\n"@;
    let p3 = p2 + bt;
    let p4 = p3 + "\n"@;
    assert(stmt_text(s) == p4 + "}\n"@);
    lemma_found_split(source, begin, p4, "}\n"@);
    lemma_found_split(source, begin, p3, "\n"@);
    lemma_found_split(source, begin, p2, bt);
    lemma_found_split(source, begin, p1, ") {\n"@);
    lemma_found_split(source, begin, "while ("@, ct);
    assert("while ("@ =~= "while"@ + seq![' ', '(']);
    let head = seq![word("while"@, line), sign(TokenType::LEFTPAREN, '(', line)];
    let mid = seq![sign(TokenType::RIGHTPAREN, ')', line), sign(TokenType::LEFTBRACE, '{', line)];
    let shut = seq![sign(TokenType::RIGHTBRACE, '}', close)];
    lemma_scan_head(source, state, "while"@);
    let m1 = moved(state, head, 7, line);
    assert(source[begin + p1.len() + 0] == ") {\n"@[0]);
    lemma_scan_loose(source, m1, c);
    lemma_put_is_moved(m1, tokens_of(c, line), ct.len() as int);
    lemma_then(source, state, head, 7, line, tokens_of(c, line), ct.len() as int, line);
    let a2 = head + tokens_of(c, line);
    let m2 = moved(state, a2, 7 + (ct.len() as int), line);
    lemma_scan_open(source, m2);
    lemma_then(source, state, a2, 7 + (ct.len() as int), line, mid, 4, inner);
    let a3 = a2 + mid;
    let m3 = moved(state, a3, 11 + (ct.len() as int), inner);
    assert(source[begin + p3.len() + 0] == "\n"@[0]);
    lemma_scan_branch(source, m3, body);
    lemma_then(
        source,
        state,
        a3,
        11 + (ct.len() as int),
        inner,
        branch_tokens(body, inner),
        bt.len() as int,
        end_branch(body, inner),
    );
    let a4 = a3 + branch_tokens(body, inner);
    let m4 = moved(state, a4, 11 + (ct.len() as int) + (bt.len() as int), end_branch(body, inner));
    lemma_scan_newline(source, m4);
    lemma_then(
        source,
        state,
        a4,
        11 + (ct.len() as int) + (bt.len() as int),
        end_branch(body, inner),
        Seq::empty(),
        1,
        close,
    );
    assert(a4 + Seq::<TokenView>::empty() =~= a4);
    let m5 = moved(state, a4, 12 + (ct.len() as int) + (bt.len() as int), close);
    lemma_scan_close(source, m5);
    lemma_then(source, state, a4, 12 + (ct.len() as int) + (bt.len() as int), close, shut, 2, below(close));
    assert(stmt_text(s).len() == 14 + (ct.len() as int) + (bt.len() as int));
}

proof fn lemma_scan_if(source: Seq<char>, state: ScanState, s: StmtView)
    requires
        made(s),
        s is If,
        found(source, state.current, stmt_text(s)),
    ensures
        same(
            source,
            state,
            moved(
                state,
                statement_tokens(s, state.line),
                stmt_text(s).len() as int,
                end_line(s, state.line),
            ),
        ),
    decreases s, 0nat,
{
    lemma_keywords();
    lemma_statement_literals();
    let c = s->If_condition;
    let first = *s->If_then_branch;
    let line = state.line;
    let inner = below(line);
    let close = below(end_branch(first, inner));
    let begin = state.current;
    let ct = expr_text(c);
    let tt = stmt_text(first);
    let more = match s->If_else_branch {
        Some(branch) => "} else {\n"@ + stmt_text(*branch),
        None => Seq::empty(),
    };
    let p1 = "if ("@ + ct;
    let p2 = p1 + ") {\n"@;
    let p3 = p2 + tt;
    let p4 = p3 + "\n"@;
    let p5 = p4 + more;
    assert(stmt_text(s) == p5 + "}\n"@);
    lemma_found_split(source, begin, p5, "}\n"@);
    lemma_found_split(source, begin, p4, more);
    lemma_found_split(source, begin, p3, "\n"@);
    lemma_found_split(source, begin, p2, tt);
    lemma_found_split(source, begin, p1, ") {\n"@);
    lemma_found_split(source, begin, "if ("@, ct);
    assert("if ("@ =~= "if"@ + seq![' ', '(']);
    let head = seq![word("if"@, line), sign(TokenType::LEFTPAREN, '(', line)];
    let mid = seq![sign(TokenType::RIGHTPAREN, ')', line), sign(TokenType::LEFTBRACE, '{', line)];
    let shut = seq![sign(TokenType::RIGHTBRACE, '}', close)];
    lemma_scan_head(source, state, "if"@);
    let m1 = moved(state, head, 4, line);
    assert(source[begin + p1.len() + 0] == ") {\n"@[0]);
    lemma_scan_loose(source, m1, c);
    lemma_put_is_moved(m1, tokens_of(c, line), ct.len() as int);
    lemma_then(source, state, head, 4, line, tokens_of(c, line), ct.len() as int, line);
    let a2 = head + tokens_of(c, line);
    let m2 = moved(state, a2, 4 + (ct.len() as int), line);
    lemma_scan_open(source, m2);
    lemma_then(source, state, a2, 4 + (ct.len() as int), line, mid, 4, inner);
    let a3 = a2 + mid;
    let m3 = moved(state, a3, 8 + (ct.len() as int), inner);
    assert(source[begin + p3.len() + 0] == "\n"@[0]);
    lemma_scan_branch(source, m3, first);
    lemma_then(
        source,
        state,
        a3,
        8 + (ct.len() as int),
        inner,
        branch_tokens(first, inner),
        tt.len() as int,
        end_branch(first, inner),
    );
    let a4 = a3 + branch_tokens(first, inner);
    let m4 = moved(state, a4, 8 + (ct.len() as int) + (tt.len() as int), end_branch(first, inner));
    lemma_scan_newline(source, m4);
    lemma_then(
        source,
        state,
        a4,
        8 + (ct.len() as int) + (tt.len() as int),
        end_branch(first, inner),
        Seq::empty(),
        1,
        close,
    );
    assert(a4 + Seq::<TokenView>::empty() =~= a4);
    let n5: int = 9 + (ct.len() as int) + (tt.len() as int);
    let m5 = moved(state, a4, n5, close);
    match s->If_else_branch {
        Some(boxed) => {
            let branch = *boxed;
            let et = stmt_text(branch);
            let turn = seq![' ', 'e', 'l', 's', 'e', ' ', '{', '\n'];
            assert("} else {\n"@ =~= seq!['}'] + turn);
            assert(more =~= seq!['}'] + turn + et);
            lemma_found_split(source, begin + p4.len(), seq!['}'] + turn, et);
            lemma_found_split(source, begin + p4.len(), seq!['}'], turn);
            assert(source[begin + p4.len() + 0] == seq!['}'][0]);
            lemma_scan_sign(source, m5, '}', TokenType::RIGHTBRACE);
            lemma_put_is_moved(m5, shut, 1);
            lemma_then(source, state, a4, n5, close, shut, 1, close);
            let a6 = a4 + shut;
            let m6 = moved(state, a6, n5 + 1, close);
            let start = seq![word("else"@, close), sign(TokenType::LEFTBRACE, '{', close)];
            lemma_scan_else(source, m6);
            let low = below(close);
            let m7 = moved(m6, start, 8, low);
            assert(source[begin + p5.len() + 0] == "}\n"@[0]);
            lemma_scan_branch(source, m7, branch);
            let done_line = end_branch(branch, low);
            lemma_then(source, m6, start, 8, low, branch_tokens(branch, low), et.len() as int, done_line);
            let b8 = start + branch_tokens(branch, low);
            let m8 = moved(m6, b8, 8 + (et.len() as int), done_line);
            lemma_scan_close(source, m8);
            let last = seq![sign(TokenType::RIGHTBRACE, '}', done_line)];
            lemma_then(source, m6, b8, 8 + (et.len() as int), done_line, last, 2, below(done_line));
            lemma_then(source, state, a6, n5 + 1, close, b8 + last, 10 + (et.len() as int), below(done_line));
            assert(statement_tokens(s, line) =~= a6 + (b8 + last));
            assert(stmt_text(s).len() == n5 + 11 + (et.len() as int));
        },
        None => {
            assert(p5 =~= p4);
            lemma_scan_close(source, m5);
            lemma_then(source, state, a4, n5, close, shut, 2, below(close));
            assert(statement_tokens(s, line) =~= a4 + shut);
            assert(stmt_text(s).len() == n5 + 2);
        },
    }
}

/// `fun`, a space, a name and an opening parenthesis.
proof fn lemma_scan_named(source: Seq<char>, state: ScanState, name: Seq<char>)
    requires
        is_word(name),
        found(source, state.current, seq!['f', 'u', 'n', ' '] + name + seq!['(']),
    ensures
        same(
            source,
            state,
            moved(
                state,
                seq![
                    word("fun"@, state.line),
                    word(name, state.line),
                    sign(TokenType::LEFTPAREN, '(', state.line),
                ],
                name.len() as int + 5,
                state.line,
            ),
        ),
{
    lemma_keywords();
    reveal_strlit("fun");
    let line = state.line;
    let start = seq!['f', 'u', 'n', ' '];
    lemma_found_split(source, state.current, start + name, seq!['(']);
    lemma_found_split(source, state.current, start, name);
    assert(source[state.current + 0] == start[0]);
    assert(source[state.current + 1] == start[1]);
    assert(source[state.current + 2] == start[2]);
    assert(source[state.current + 3] == start[3]);
    assert(source[state.current + 4 + name.len() + 0] == seq!['('][0]);
    assert(found(source, state.current, "fun"@)) by {
        assert forall|k: int| 0 <= k < 3 implies source[state.current + k] == #[trigger] "fun"@[k] by {}
    }
    let first = word("fun"@, line);
    let second = word(name, line);
    let open = sign(TokenType::LEFTPAREN, '(', line);
    lemma_scan_word_at(source, state, "fun"@);
    let q1 = put(state, seq![first], 3);
    lemma_scan_space(source, q1);
    let q2 = put(q1, Seq::empty(), 1);
    lemma_scan_word_at(source, q2, name);
    let q3 = put(q2, seq![second], name.len() as int);
    lemma_scan_sign(source, q3, '(', TokenType::LEFTPAREN);
    let q4 = put(q3, seq![open], 1);
    assert(state.tokens + seq![first] + Seq::<TokenView>::empty() + seq![second] + seq![open]
        =~= state.tokens + seq![first, second, open]);
    assert(q4 == moved(state, seq![first, second, open], name.len() as int + 5, line));
}

proof fn lemma_scan_function(source: Seq<char>, state: ScanState, s: StmtView)
    requires
        made(s),
        s is Function,
        found(source, state.current, stmt_text(s)),
    ensures
        same(
            source,
            state,
            moved(
                state,
                statement_tokens(s, state.line),
                stmt_text(s).len() as int,
                end_line(s, state.line),
            ),
        ),
    decreases s, 0nat,
{
    lemma_statement_literals();
    reveal_strlit("fun ");
    reveal_strlit("(");
    reveal_strlit("}");
    let name = s->Function_name.lexeme;
    let body = *s->Function_body;
    let line = state.line;
    let inner = below(line);
    let last = end_branch(body, inner);
    let begin = state.current;
    let bt = stmt_text(body);
    let p1 = "fun "@ + name + "("@;
    let p2 = p1 + ") {\n"@;
    let p3 = p2 + bt;
    assert(crate::stmt::params_text(s->Function_params, 0) =~= Seq::<char>::empty());
    assert(stmt_text(s) =~= p3 + "}"@);
    lemma_found_split(source, begin, p3, "}"@);
    lemma_found_split(source, begin, p2, bt);
    lemma_found_split(source, begin, p1, ") {\n"@);
    assert("fun "@ =~= seq!['f', 'u', 'n', ' ']);
    assert("("@ =~= seq!['(']);
    let head = seq![word("fun"@, line), word(name, line), sign(TokenType::LEFTPAREN, '(', line)];
    let mid = seq![sign(TokenType::RIGHTPAREN, ')', line), sign(TokenType::LEFTBRACE, '{', line)];
    let shut = seq![sign(TokenType::RIGHTBRACE, '}', last)];
    let n1: int = name.len() as int + 5;
    lemma_scan_named(source, state, name);
    let m1 = moved(state, head, n1, line);
    lemma_scan_open(source, m1);
    lemma_then(source, state, head, n1, line, mid, 4, inner);
    let a2 = head + mid;
    let m2 = moved(state, a2, n1 + 4, inner);
    assert(source[begin + p3.len() + 0] == "}"@[0]);
    lemma_scan_branch(source, m2, body);
    lemma_then(source, state, a2, n1 + 4, inner, branch_tokens(body, inner), bt.len() as int, last);
    let a3 = a2 + branch_tokens(body, inner);
    let m3 = moved(state, a3, n1 + 4 + (bt.len() as int), last);
    lemma_scan_sign(source, m3, '}', TokenType::RIGHTBRACE);
    lemma_put_is_moved(m3, shut, 1);
    lemma_then(source, state, a3, n1 + 4 + (bt.len() as int), last, shut, 1, last);
    assert(statement_tokens(s, line) =~= a3 + shut);
    assert(stmt_text(s).len() == n1 + 5 + (bt.len() as int));
}

/// A branch of the fragment, scanned in its rendering in front of a line
/// feed or a brace: its tokens.
proof fn lemma_scan_branch(source: Seq<char>, state: ScanState, branch: StmtView)
    requires
        branch_made(branch),
        found(source, state.current, stmt_text(branch)),
        ends(source, state.current + stmt_text(branch).len()),
    ensures
        same(
            source,
            state,
            moved(
                state,
                branch_tokens(branch, state.line),
                stmt_text(branch).len() as int,
                end_branch(branch, state.line),
            ),
        ),
    decreases branch, 3nat,
{
    match branch {
        StmtView::Block(list) => {
            lemma_scan_items(source, state, list, list.len());
        },
        _ => {
            lemma_scan_statement(source, state, branch);
        },
    }
}

/// The first `count` statements of a block of the fragment, scanned in
/// their rendering: their tokens.
proof fn lemma_scan_items(source: Seq<char>, state: ScanState, list: Seq<StmtView>, count: nat)
    requires
        forall|i: int| 0 <= i < list.len() ==> made(#[trigger] list[i]),
        count <= list.len(),
        found(source, state.current, block_text(list, count as int)),
        count >= 1 ==> ends(source, state.current + block_text(list, count as int).len()),
    ensures
        same(
            source,
            state,
            moved(
                state,
                items_tokens(list, count, state.line),
                block_text(list, count as int).len() as int,
                end_items(list, count, state.line),
            ),
        ),
    decreases list, count,
{
    lemma_statement_literals();
    let line = state.line;
    if count == 0 {
        assert(state.tokens + Seq::<TokenView>::empty() =~= state.tokens);
        assert(moved(state, Seq::empty(), 0, line) == state);
    } else if count == 1 {
        lemma_scan_statement(source, state, list[0]);
    } else {
        let before = block_text(list, count - 1);
        let here = stmt_text(list[count - 1]);
        assert(block_text(list, count as int) == before + "\n"@ + here);
        lemma_found_split(source, state.current, before + "\n"@, here);
        lemma_found_split(source, state.current, before, "\n"@);
        assert(source[state.current + (before.len() as int) + 0] == "\n"@[0]);
        lemma_scan_items(source, state, list, (count - 1) as nat);
        let a1 = items_tokens(list, (count - 1) as nat, line);
        let l1 = end_items(list, (count - 1) as nat, line);
        let m1 = moved(state, a1, before.len() as int, l1);
        lemma_scan_newline(source, m1);
        lemma_then(source, state, a1, before.len() as int, l1, Seq::empty(), 1, below(l1));
        assert(a1 + Seq::<TokenView>::empty() =~= a1);
        let m2 = moved(state, a1, (before.len() as int) + 1, below(l1));
        lemma_scan_statement(source, m2, list[count - 1]);
        lemma_then(
            source,
            state,
            a1,
            (before.len() as int) + 1,
            below(l1),
            statement_tokens(list[count - 1], below(l1)),
            here.len() as int,
            end_line(list[count - 1], below(l1)),
        );
        assert(block_text(list, count as int).len() == (before.len() as int) + 1 + (here.len() as int));
    }
}

} // verus!
