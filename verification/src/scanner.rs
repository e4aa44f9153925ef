//! The scanner: one left-to-right pass over the source text that yields the
//! tokens and the lexical errors. An error never stops the pass.
use vstd::prelude::*;
use crate::number::{canonical_number, canonical_number_text, fraction_digits};
use crate::text::{
    chars_of, decimal, digit_char, identifier_part, identifier_start, is_digit,
    is_identifier_part, is_identifier_start, push_decimal, text_of,
};
use crate::token::{LiteralView, Token, TokenLiteral, TokenType, TokenView, token_views};

verus! {

/// The classes of characters that the scanner consumes in runs.
#[derive(Clone, Copy, Debug, PartialEq, Eq, Structural)]
pub enum CharClass {
    /// An ASCII digit.
    Digit,
    /// A letter, a numeral or an underscore.
    IdentifierPart,
    /// Anything but a line feed.
    InComment,
    /// Anything but a double quote.
    InString,
}

/// Whether a character belongs to a class.
pub open spec fn in_class(class: CharClass, c: char) -> bool {
    match class {
        CharClass::Digit => is_digit(c),
        CharClass::IdentifierPart => is_identifier_part(c),
        CharClass::InComment => c != '\n',
        CharClass::InString => c != '"',
    }
}

/// The end of the longest run of `class` characters that starts at `from`.
pub open spec fn run_end(source: Seq<char>, from: int, class: CharClass) -> int
    decreases source.len() - from,
{
    if 0 <= from < source.len() && in_class(class, source[from]) {
        run_end(source, from + 1, class)
    } else {
        from
    }
}

/// The number of line feeds in `source[from..to]`.
pub open spec fn line_feeds(source: Seq<char>, from: int, to: int) -> nat
    decreases to - from,
{
    if from < to {
        line_feeds(source, from, to - 1) + if source[to - 1] == '\n' {
            1nat
        } else {
            0nat
        }
    } else {
        0
    }
}

/// The line number `count` lines below `line`. The counter stops at the
/// largest number that it can hold.
pub open spec fn line_after(line: usize, count: nat) -> usize {
    if line + count > usize::MAX {
        usize::MAX
    } else {
        (line + count) as usize
    }
}

/// The keyword that `text` spells, if any.
pub open spec fn keyword(text: Seq<char>) -> Option<TokenType> {
    if text == "and"@ {
        Some(TokenType::AND)
    } else if text == "class"@ {
        Some(TokenType::CLASS)
    } else if text == "else"@ {
        Some(TokenType::ELSE)
    } else if text == "false"@ {
        Some(TokenType::FALSE)
    } else if text == "for"@ {
        Some(TokenType::FOR)
    } else if text == "fun"@ {
        Some(TokenType::FUN)
    } else if text == "if"@ {
        Some(TokenType::IF)
    } else if text == "nil"@ {
        Some(TokenType::NIL)
    } else if text == "or"@ {
        Some(TokenType::OR)
    } else if text == "print"@ {
        Some(TokenType::PRINT)
    } else if text == "return"@ {
        Some(TokenType::RETURN)
    } else if text == "super"@ {
        Some(TokenType::SUPER)
    } else if text == "this"@ {
        Some(TokenType::THIS)
    } else if text == "true"@ {
        Some(TokenType::TRUE)
    } else if text == "var"@ {
        Some(TokenType::VAR)
    } else if text == "while"@ {
        Some(TokenType::WHILE)
    } else {
        None
    }
}

/// The kind of the word `text`: its keyword, or an identifier.
pub open spec fn word_kind(text: Seq<char>) -> TokenType {
    match keyword(text) {
        Some(kind) => kind,
        None => TokenType::IDENTIFIER,
    }
}

/// How the message of a lexical error on the given line starts.
pub open spec fn line_prefix(line: usize) -> Seq<char> {
    "[line "@ + decimal(line as nat) + "] Error: "@
}

pub open spec fn unexpected_character(line: usize, c: char) -> Seq<char> {
    line_prefix(line) + "Unexpected character: "@ + seq![c]
}

pub open spec fn unterminated_string(line: usize) -> Seq<char> {
    line_prefix(line) + "Unterminated string."@
}

/// What the scanner has produced and where it stands.
pub struct ScanState {
    pub tokens: Seq<TokenView>,
    pub errors: Seq<Seq<char>>,
    /// Where the lexeme being scanned starts.
    pub start: int,
    /// The next character to read.
    pub current: int,
    /// The line of the next character.
    pub line: usize,
}

impl ScanState {
    pub open spec fn fresh() -> ScanState {
        ScanState { tokens: Seq::empty(), errors: Seq::empty(), start: 0, current: 0, line: 1 }
    }

    /// The state after the characters up to `end` were consumed and made into
    /// a token of the given kind and payload.
    pub open spec fn emit(
        self,
        source: Seq<char>,
        end: int,
        kind: TokenType,
        literal: Option<LiteralView>,
    ) -> ScanState {
        ScanState {
            tokens: self.tokens.push(
                TokenView {
                    token_type: kind,
                    lexeme: source.subrange(self.start, end),
                    literal,
                    line: self.line,
                },
            ),
            current: end,
            ..self
        }
    }

    /// The state after the characters up to `end` were consumed without
    /// making a token.
    pub open spec fn skip(self, end: int) -> ScanState {
        ScanState { current: end, ..self }
    }

    pub open spec fn report(self, message: Seq<char>) -> ScanState {
        ScanState { errors: self.errors.push(message), ..self }
    }

    /// The state after a one-character operator, or its two-character form
    /// where an `=` follows.
    pub open spec fn operator(self, source: Seq<char>, single: TokenType, double: TokenType) -> ScanState {
        if self.current + 1 < source.len() && source[self.current + 1] == '=' {
            self.emit(source, self.current + 2, double, None)
        } else {
            self.emit(source, self.current + 1, single, None)
        }
    }

    /// The state after a string literal whose opening quote is the current
    /// character.
    pub open spec fn string(self, source: Seq<char>) -> ScanState {
        let end = run_end(source, self.current + 1, CharClass::InString);
        let line = line_after(self.line, line_feeds(source, self.current + 1, end));
        let moved = ScanState { line, ..self };
        if end >= source.len() {
            moved.skip(end).report(unterminated_string(line))
        } else {
            moved.emit(
                source,
                end + 1,
                TokenType::STRING,
                Some(LiteralView::String(source.subrange(self.start + 1, end))),
            )
        }
    }

    /// Where the numeral ends whose whole part ends at `point`: behind the
    /// fraction, where a point and a digit follow.
    pub open spec fn number_end(source: Seq<char>, point: int) -> int {
        if point + 1 < source.len() && source[point] == '.' && is_digit(source[point + 1]) {
            run_end(source, point + 1, CharClass::Digit)
        } else {
            point
        }
    }

    /// The state after a numeral whose first digit is the current character.
    pub open spec fn number(self, source: Seq<char>) -> ScanState {
        let point = run_end(source, self.current + 1, CharClass::Digit);
        let end = Self::number_end(source, point);
        self.emit(
            source,
            end,
            TokenType::NUMBER,
            Some(
                LiteralView::Number(
                    canonical_number(
                        source.subrange(self.start, point),
                        fraction_digits(source, point, end),
                    ),
                ),
            ),
        )
    }

    /// The state after a word whose first character is the current one.
    pub open spec fn identifier(self, source: Seq<char>) -> ScanState {
        let end = run_end(source, self.current + 1, CharClass::IdentifierPart);
        self.emit(source, end, word_kind(source.subrange(self.start, end)), None)
    }

    /// The state after one scanning step, which consumes at least the
    /// current character.
    pub open spec fn step(self, source: Seq<char>) -> ScanState {
        let c = source[self.current];
        let next = self.current + 1;
        if c == '(' {
            self.emit(source, next, TokenType::LEFTPAREN, None)
        } else if c == ')' {
            self.emit(source, next, TokenType::RIGHTPAREN, None)
        } else if c == '{' {
            self.emit(source, next, TokenType::LEFTBRACE, None)
        } else if c == '}' {
            self.emit(source, next, TokenType::RIGHTBRACE, None)
        } else if c == ',' {
            self.emit(source, next, TokenType::COMMA, None)
        } else if c == '.' {
            self.emit(source, next, TokenType::DOT, None)
        } else if c == '-' {
            self.emit(source, next, TokenType::MINUS, None)
        } else if c == '+' {
            self.emit(source, next, TokenType::PLUS, None)
        } else if c == ';' {
            self.emit(source, next, TokenType::SEMICOLON, None)
        } else if c == '*' {
            self.emit(source, next, TokenType::STAR, None)
        } else if c == '!' {
            self.operator(source, TokenType::BANG, TokenType::NOTEQUAL)
        } else if c == '=' {
            self.operator(source, TokenType::ASSIGN, TokenType::EQUAL)
        } else if c == '<' {
            self.operator(source, TokenType::LESS, TokenType::LESSEQUAL)
        } else if c == '>' {
            self.operator(source, TokenType::GREATER, TokenType::GREATEREQUAL)
        } else if c == '/' {
            if next < source.len() && source[next] == '/' {
                self.skip(run_end(source, next + 1, CharClass::InComment))
            } else {
                self.emit(source, next, TokenType::SLASH, None)
            }
        } else if c == ' ' || c == '\r' || c == '\t' {
            self.skip(next)
        } else if c == '\n' {
            ScanState { line: line_after(self.line, 1), ..self.skip(next) }
        } else if c == '"' {
            self.string(source)
        } else if is_digit(c) {
            self.number(source)
        } else if is_identifier_start(c) {
            self.identifier(source)
        } else {
            self.skip(next).report(unexpected_character(self.line, c))
        }
    }

    /// The state at the end of the text: a step from each lexeme's start
    /// until no character is left.
    pub open spec fn run(self, source: Seq<char>) -> ScanState
        decreases source.len() - self.current,
    {
        if 0 <= self.current < source.len() {
            let next = (ScanState { start: self.current, ..self }).step(source);
            proof {
                lemma_step_advances(ScanState { start: self.current, ..self }, source);
            }
            next.run(source)
        } else {
            self
        }
    }

    /// The tokens, closed by the end-of-input token, and the errors.
    pub open spec fn finish(self) -> (Seq<TokenView>, Seq<Seq<char>>) {
        (
            self.tokens.push(
                TokenView {
                    token_type: TokenType::EOF,
                    lexeme: Seq::empty(),
                    literal: None,
                    line: self.line,
                },
            ),
            self.errors,
        )
    }
}

/// The tokens and the lexical errors of a source text.
pub open spec fn scan(source: Seq<char>) -> (Seq<TokenView>, Seq<Seq<char>>) {
    ScanState::fresh().run(source).finish()
}

/// The token list of every text ends with the end-of-input token, so a
/// parser can read it.
pub proof fn law_scan_ends_with_eof(source: Seq<char>)
    ensures
        crate::grammar::well_formed(scan(source).0),
{
}

/// No error stops the scanner: whatever the text holds, the pass ends
/// behind its last character.
pub proof fn law_scan_reaches_the_end(state: ScanState, source: Seq<char>)
    requires
        0 <= state.current <= source.len(),
    ensures
        state.run(source).current == source.len(),
    decreases source.len() - state.current,
{
    if state.current < source.len() {
        let from = ScanState { start: state.current, ..state };
        lemma_step_advances(from, source);
        law_scan_reaches_the_end(from.step(source), source);
    }
}

/// A run ends at or behind its start and within the text.
pub proof fn lemma_run_end_bounds(source: Seq<char>, from: int, class: CharClass)
    requires
        0 <= from <= source.len(),
    ensures
        from <= run_end(source, from, class) <= source.len(),
        forall|i: int| from <= i < run_end(source, from, class) ==> in_class(class, #[trigger] source[i]),
        run_end(source, from, class) < source.len() ==> !in_class(
            class,
            source[run_end(source, from, class)],
        ),
    decreases source.len() - from,
{
    if from < source.len() && in_class(class, source[from]) {
        lemma_run_end_bounds(source, from + 1, class);
    }
}

/// Every scanning step consumes at least one character and stays within
/// the text.
pub proof fn lemma_step_advances(state: ScanState, source: Seq<char>)
    requires
        0 <= state.current < source.len(),
    ensures
        state.current < state.step(source).current <= source.len(),
        state.step(source).start == state.start,
{
    let next = state.current + 1;
    lemma_run_end_bounds(source, next, CharClass::InString);
    lemma_run_end_bounds(source, next, CharClass::Digit);
    lemma_run_end_bounds(source, next, CharClass::IdentifierPart);
    if next < source.len() {
        lemma_run_end_bounds(source, next + 1, CharClass::InComment);
    }
    let point = run_end(source, next, CharClass::Digit);
    if point + 1 < source.len() {
        lemma_run_end_bounds(source, point + 1, CharClass::Digit);
    }
}

/// The contents of a list of texts, one for one.
pub open spec fn texts(list: Seq<String>) -> Seq<Seq<char>> {
    Seq::new(list.len(), |i: int| list[i]@)
}

/// The scanner over one source text.
pub struct Scanner {
    pub source: Vec<char>,
    pub tokens: Vec<Token>,
    pub errors: Vec<String>,
    /// Where the lexeme being scanned starts.
    pub start: usize,
    /// The next character to read.
    pub current: usize,
    /// The line of the next character.
    pub line: usize,
}

fn class_holds(class: CharClass, c: char) -> (r: bool)
    ensures
        r == in_class(class, c),
{
    match class {
        CharClass::Digit => digit_char(c),
        CharClass::IdentifierPart => identifier_part(c),
        CharClass::InComment => c != '\n',
        CharClass::InString => c != '"',
    }
}

/// Whether `source[from..to]` spells `word`.
fn spells(source: &Vec<char>, from: usize, to: usize, word: &str) -> (r: bool)
    requires
        from <= to <= source.len(),
    ensures
        r == (source@.subrange(from as int, to as int) == word@),
{
    let n = word.unicode_len();
    if to - from != n {
        return false;
    }
    let mut i: usize = 0;
    while i < n
        invariant
            from <= to <= source.len(),
            to - from == n,
            n == word@.len(),
            i <= n,
            forall|j: int| 0 <= j < i ==> source@[from + j] == word@[j],
        decreases n - i,
    {
        if source[from + i] != word.get_char(i) {
            assert(source@.subrange(from as int, to as int)[i as int] != word@[i as int]);
            return false;
        }
        i = i + 1;
    }
    assert(source@.subrange(from as int, to as int) =~= word@);
    true
}

fn word_kind_of(source: &Vec<char>, from: usize, to: usize) -> (r: TokenType)
    requires
        from <= to <= source.len(),
    ensures
        r == word_kind(source@.subrange(from as int, to as int)),
{
    if spells(source, from, to, "and") {
        TokenType::AND
    } else if spells(source, from, to, "class") {
        TokenType::CLASS
    } else if spells(source, from, to, "else") {
        TokenType::ELSE
    } else if spells(source, from, to, "false") {
        TokenType::FALSE
    } else if spells(source, from, to, "for") {
        TokenType::FOR
    } else if spells(source, from, to, "fun") {
        TokenType::FUN
    } else if spells(source, from, to, "if") {
        TokenType::IF
    } else if spells(source, from, to, "nil") {
        TokenType::NIL
    } else if spells(source, from, to, "or") {
        TokenType::OR
    } else if spells(source, from, to, "print") {
        TokenType::PRINT
    } else if spells(source, from, to, "return") {
        TokenType::RETURN
    } else if spells(source, from, to, "super") {
        TokenType::SUPER
    } else if spells(source, from, to, "this") {
        TokenType::THIS
    } else if spells(source, from, to, "true") {
        TokenType::TRUE
    } else if spells(source, from, to, "var") {
        TokenType::VAR
    } else if spells(source, from, to, "while") {
        TokenType::WHILE
    } else {
        TokenType::IDENTIFIER
    }
}

fn line_prefix_text(line: usize) -> (r: String)
    ensures
        r@ == line_prefix(line),
{
    let mut out = String::from_str("[line ");
    push_decimal(&mut out, line);
    out.append("] Error: ");
    out
}

impl Scanner {
    /// What the scanner has produced and where it stands.
    pub open spec fn state(&self) -> ScanState {
        ScanState {
            tokens: token_views(self.tokens@),
            errors: texts(self.errors@),
            start: self.start as int,
            current: self.current as int,
            line: self.line,
        }
    }

    /// The lexeme under way lies within the text.
    pub open spec fn wf(&self) -> bool {
        self.start <= self.current <= self.source.len()
    }

    pub fn new(source: String) -> (r: Self)
        ensures
            r.wf(),
            r.source@ == source@,
            r.state() == ScanState::fresh(),
    {
        let r = Scanner {
            source: chars_of(source.as_str()),
            tokens: Vec::new(),
            errors: Vec::new(),
            start: 0,
            current: 0,
            line: 1,
        };
        assert(r.state().tokens =~= Seq::<TokenView>::empty());
        assert(r.state().errors =~= Seq::<Seq<char>>::empty());
        r
    }

    /// The tokens of the rest of the text, closed by the end-of-input token,
    /// and the lexical errors.
    pub fn scan_tokens(self) -> (r: (Vec<Token>, Vec<String>))
        requires
            self.wf(),
        ensures
            (token_views(r.0@), texts(r.1@)) == self.state().run(self.source@).finish(),
    {
        let ghost source = self.source@;
        let ghost goal = self.state().run(source);
        let mut scanner = self;
        while !scanner.is_at_end()
            invariant
                scanner.wf(),
                scanner.source@ == source,
                scanner.state().run(source) == goal,
            decreases scanner.source.len() - scanner.current,
        {
            scanner.start = scanner.current;
            proof {
                lemma_step_advances(scanner.state(), source);
            }
            scanner.scan_token();
        }
        let ghost before = scanner.state();
        scanner.tokens.push(Token::new(TokenType::EOF, String::new(), None, scanner.line));
        assert(token_views(scanner.tokens@) =~= before.finish().0);
        (scanner.tokens, scanner.errors)
    }

    /// One scanning step: consumes the current character and what belongs
    /// to its lexeme.
    pub fn scan_token(&mut self)
        requires
            old(self).wf(),
            !old(self).is_at_end(),
        ensures
            final(self).wf(),
            final(self).source == old(self).source,
            final(self).state() == old(self).state().step(old(self).source@),
    {
        proof {
            lemma_step_advances(self.state(), self.source@);
        }
        let c = self.advance();
        if c == '(' {
            self.add_token(TokenType::LEFTPAREN, None);
        } else if c == ')' {
            self.add_token(TokenType::RIGHTPAREN, None);
        } else if c == '{' {
            self.add_token(TokenType::LEFTBRACE, None);
        } else if c == '}' {
            self.add_token(TokenType::RIGHTBRACE, None);
        } else if c == ',' {
            self.add_token(TokenType::COMMA, None);
        } else if c == '.' {
            self.add_token(TokenType::DOT, None);
        } else if c == '-' {
            self.add_token(TokenType::MINUS, None);
        } else if c == '+' {
            self.add_token(TokenType::PLUS, None);
        } else if c == ';' {
            self.add_token(TokenType::SEMICOLON, None);
        } else if c == '*' {
            self.add_token(TokenType::STAR, None);
        } else if c == '!' {
            if self.operator_match('=') {
                self.add_token(TokenType::NOTEQUAL, None);
            } else {
                self.add_token(TokenType::BANG, None);
            }
        } else if c == '=' {
            if self.operator_match('=') {
                self.add_token(TokenType::EQUAL, None);
            } else {
                self.add_token(TokenType::ASSIGN, None);
            }
        } else if c == '<' {
            if self.operator_match('=') {
                self.add_token(TokenType::LESSEQUAL, None);
            } else {
                self.add_token(TokenType::LESS, None);
            }
        } else if c == '>' {
            if self.operator_match('=') {
                self.add_token(TokenType::GREATEREQUAL, None);
            } else {
                self.add_token(TokenType::GREATER, None);
            }
        } else if c == '/' {
            if self.operator_match('/') {
                self.advance_run(CharClass::InComment);
            } else {
                self.add_token(TokenType::SLASH, None);
            }
        } else if c == ' ' || c == '\r' || c == '\t' {
        } else if c == '\n' {
            self.next_line();
        } else if c == '"' {
            self.string();
        } else if digit_char(c) {
            self.number();
        } else if identifier_start(c) {
            self.identifier();
        } else {
            let mut message = line_prefix_text(self.line);
            message.append("Unexpected character: ");
            message.push(c);
            assert(message@ =~= unexpected_character(self.line, c));
            self.report(message);
        }
    }

    fn identifier(&mut self)
        requires
            old(self).wf(),
        ensures
            final(self).wf(),
            final(self).source == old(self).source,
            final(self).state() == old(self).state().emit(
                old(self).source@,
                run_end(old(self).source@, old(self).current as int, CharClass::IdentifierPart),
                word_kind(
                    old(self).source@.subrange(
                        old(self).start as int,
                        run_end(old(self).source@, old(self).current as int, CharClass::IdentifierPart),
                    ),
                ),
                None,
            ),
    {
        self.advance_run(CharClass::IdentifierPart);
        let kind = word_kind_of(&self.source, self.start, self.current);
        self.add_token(kind, None);
    }

    fn number(&mut self)
        requires
            old(self).wf(),
            old(self).start < old(self).current,
        ensures
            final(self).wf(),
            final(self).source == old(self).source,
            final(self).state() == ({
                let source = old(self).source@;
                let point = run_end(source, old(self).current as int, CharClass::Digit);
                let end = ScanState::number_end(source, point);
                old(self).state().emit(
                    source,
                    end,
                    TokenType::NUMBER,
                    Some(
                        LiteralView::Number(
                            canonical_number(
                                source.subrange(old(self).start as int, point),
                                fraction_digits(source, point, end),
                            ),
                        ),
                    ),
                )
            }),
    {
        self.advance_run(CharClass::Digit);
        let point = self.current;
        if self.peek() == '.' && digit_char(self.peek_next()) {
            self.current = self.current + 1;
            self.advance_run(CharClass::Digit);
            proof {
                lemma_run_end_bounds(self.source@, point + 1, CharClass::Digit);
                assert(in_class(CharClass::Digit, self.source@[point + 1]));
            }
        }
        let text = canonical_number_text(&self.source, self.start, point, self.current);
        self.add_token(TokenType::NUMBER, Some(TokenLiteral::Number(text)));
    }

    fn string(&mut self)
        requires
            old(self).wf(),
            old(self).start < old(self).current,
        ensures
            final(self).wf(),
            final(self).source == old(self).source,
            final(self).state() == ({
                let source = old(self).source@;
                let before = old(self).state();
                let end = run_end(source, before.current, CharClass::InString);
                let line = line_after(before.line, line_feeds(source, before.current, end));
                let moved = ScanState { line, ..before };
                if end >= source.len() {
                    moved.skip(end).report(unterminated_string(line))
                } else {
                    moved.emit(
                        source,
                        end + 1,
                        TokenType::STRING,
                        Some(LiteralView::String(source.subrange(before.start + 1, end))),
                    )
                }
            }),
    {
        let ghost from = self.current as int;
        let ghost first_line = self.line;
        let ghost before = self.state();
        while self.current < self.source.len() && self.source[self.current] != '"'
            invariant
                self.wf(),
                self.source == old(self).source,
                from <= self.current,
                self.start == old(self).start,
                self.tokens == old(self).tokens,
                self.errors == old(self).errors,
                run_end(self.source@, self.current as int, CharClass::InString) == run_end(
                    self.source@,
                    from,
                    CharClass::InString,
                ),
                self.line == line_after(first_line, line_feeds(self.source@, from, self.current as int)),
            decreases self.source.len() - self.current,
        {
            if self.source[self.current] == '\n' {
                self.next_line();
            }
            self.current = self.current + 1;
        }
        if self.is_at_end() {
            let mut message = line_prefix_text(self.line);
            message.append("Unterminated string.");
            assert(message@ =~= unterminated_string(self.line));
            self.report(message);
            return ;
        }
        self.current = self.current + 1;
        let literal = text_of(&self.source, self.start + 1, self.current - 1);
        self.add_token(TokenType::STRING, Some(TokenLiteral::String(literal)));
    }

    /// Consumes the longest run of `class` characters.
    fn advance_run(&mut self, class: CharClass)
        requires
            old(self).wf(),
        ensures
            final(self).wf(),
            final(self).source == old(self).source,
            final(self).state() == old(self).state().skip(
                run_end(old(self).source@, old(self).current as int, class),
            ),
            old(self).current <= final(self).current,
    {
        while self.current < self.source.len() && class_holds(class, self.source[self.current])
            invariant
                self.wf(),
                self.source == old(self).source,
                old(self).current <= self.current,
                self.start == old(self).start,
                self.line == old(self).line,
                self.tokens == old(self).tokens,
                self.errors == old(self).errors,
                run_end(self.source@, self.current as int, class) == run_end(
                    self.source@,
                    old(self).current as int,
                    class,
                ),
            decreases self.source.len() - self.current,
        {
            self.current = self.current + 1;
        }
    }

    /// Consumes the current character if it is `expected`.
    fn operator_match(&mut self, expected: char) -> (r: bool)
        requires
            old(self).wf(),
        ensures
            final(self).wf(),
            final(self).source == old(self).source,
            r == (old(self).current < old(self).source.len() && old(self).source@[old(
                self,
            ).current as int] == expected),
            final(self).state() == old(self).state().skip(
                if r {
                    old(self).current + 1
                } else {
                    old(self).current as int
                },
            ),
    {
        if self.is_at_end() {
            return false;
        }
        if self.source[self.current] != expected {
            return false;
        }
        self.current = self.current + 1;
        true
    }

    /// The current character, or NUL at the end of the text.
    fn peek(&self) -> (c: char)
        requires
            self.wf(),
        ensures
            c == (if self.current < self.source.len() {
                self.source@[self.current as int]
            } else {
                '\0'
            }),
    {
        if self.current < self.source.len() {
            self.source[self.current]
        } else {
            '\0'
        }
    }

    /// The character behind the current one, or NUL where there is none.
    fn peek_next(&self) -> (c: char)
        requires
            self.wf(),
        ensures
            c == (if self.current + 1 < self.source.len() {
                self.source@[self.current + 1]
            } else {
                '\0'
            }),
    {
        if self.current < self.source.len() && self.current + 1 < self.source.len() {
            self.source[self.current + 1]
        } else {
            '\0'
        }
    }

    fn advance(&mut self) -> (c: char)
        requires
            old(self).wf(),
            !old(self).is_at_end(),
        ensures
            final(self).wf(),
            final(self).source == old(self).source,
            c == old(self).source@[old(self).current as int],
            final(self).state() == old(self).state().skip(old(self).current + 1),
    {
        let c = self.source[self.current];
        self.current = self.current + 1;
        c
    }

    fn next_line(&mut self)
        ensures
            final(self).line == line_after(old(self).line, 1),
            final(self).source == old(self).source,
            final(self).tokens == old(self).tokens,
            final(self).errors == old(self).errors,
            final(self).start == old(self).start,
            final(self).current == old(self).current,
    {
        if self.line < usize::MAX {
            self.line = self.line + 1;
        }
    }

    fn report(&mut self, message: String)
        requires
            old(self).wf(),
        ensures
            final(self).wf(),
            final(self).source == old(self).source,
            final(self).state() == old(self).state().report(message@),
    {
        self.errors.push(message);
        assert(texts(self.errors@) =~= texts(old(self).errors@).push(message@));
    }

    fn add_token(&mut self, token_type: TokenType, literal: Option<TokenLiteral>)
        requires
            old(self).wf(),
        ensures
            final(self).wf(),
            final(self).source == old(self).source,
            final(self).state() == old(self).state().emit(
                old(self).source@,
                old(self).current as int,
                token_type,
                crate::token::literal_view(literal),
            ),
    {
        let text = text_of(&self.source, self.start, self.current);
        let token = Token::new(token_type, text, literal, self.line);
        self.tokens.push(token);
        assert(token_views(self.tokens@) =~= token_views(old(self).tokens@).push(token@));
    }

    #[verifier::when_used_as_spec(at_end)]
    pub fn is_at_end(&self) -> (r: bool)
        ensures
            r == self.at_end(),
    {
        self.current >= self.source.len()
    }

    /// No character is left to read.
    pub open spec fn at_end(&self) -> bool {
        self.current >= self.source.len()
    }
}

} // verus!
