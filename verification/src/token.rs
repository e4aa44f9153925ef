//! Tokens: the closed set of kinds, the literal payload and the source line.
use vstd::prelude::*;

verus! {

/// The kind of a token: punctuation, operators, literals, keywords and the
/// end-of-input marker.
#[allow(non_camel_case_types)]
#[derive(Clone, Copy, Debug, PartialEq, Eq, Hash, Structural)]
pub enum TokenType {
    LEFTPAREN,
    RIGHTPAREN,
    LEFTBRACE,
    RIGHTBRACE,
    COMMA,
    DOT,
    MINUS,
    PLUS,
    SEMICOLON,
    STAR,
    ASSIGN,
    BANG,
    EQUAL,
    NOTEQUAL,
    LESS,
    LESSEQUAL,
    GREATER,
    GREATEREQUAL,
    SLASH,
    STRING,
    NUMBER,
    IDENTIFIER,
    AND,
    CLASS,
    ELSE,
    FALSE,
    FOR,
    FUN,
    IF,
    NIL,
    OR,
    PRINT,
    RETURN,
    SUPER,
    THIS,
    TRUE,
    VAR,
    WHILE,
    EOF,
}

/// The name under which each kind is displayed. The assignment operator
/// displays as `EQUAL` and the equality operator as `EQUAL_EQUAL`.
pub open spec fn kind_name(token_type: TokenType) -> Seq<char> {
    match token_type {
        TokenType::LEFTPAREN => "LEFT_PAREN"@,
        TokenType::RIGHTPAREN => "RIGHT_PAREN"@,
        TokenType::LEFTBRACE => "LEFT_BRACE"@,
        TokenType::RIGHTBRACE => "RIGHT_BRACE"@,
        TokenType::COMMA => "COMMA"@,
        TokenType::DOT => "DOT"@,
        TokenType::MINUS => "MINUS"@,
        TokenType::PLUS => "PLUS"@,
        TokenType::SEMICOLON => "SEMICOLON"@,
        TokenType::STAR => "STAR"@,
        TokenType::ASSIGN => "EQUAL"@,
        TokenType::BANG => "BANG"@,
        TokenType::EQUAL => "EQUAL_EQUAL"@,
        TokenType::NOTEQUAL => "BANG_EQUAL"@,
        TokenType::LESS => "LESS"@,
        TokenType::LESSEQUAL => "LESS_EQUAL"@,
        TokenType::GREATER => "GREATER"@,
        TokenType::GREATEREQUAL => "GREATER_EQUAL"@,
        TokenType::SLASH => "SLASH"@,
        TokenType::STRING => "STRING"@,
        TokenType::NUMBER => "NUMBER"@,
        TokenType::IDENTIFIER => "IDENTIFIER"@,
        TokenType::AND => "AND"@,
        TokenType::CLASS => "CLASS"@,
        TokenType::ELSE => "ELSE"@,
        TokenType::FALSE => "FALSE"@,
        TokenType::FOR => "FOR"@,
        TokenType::FUN => "FUN"@,
        TokenType::IF => "IF"@,
        TokenType::NIL => "NIL"@,
        TokenType::OR => "OR"@,
        TokenType::PRINT => "PRINT"@,
        TokenType::RETURN => "RETURN"@,
        TokenType::SUPER => "SUPER"@,
        TokenType::THIS => "THIS"@,
        TokenType::TRUE => "TRUE"@,
        TokenType::VAR => "VAR"@,
        TokenType::WHILE => "WHILE"@,
        TokenType::EOF => "EOF"@,
    }
}

impl TokenType {
    /// The display name of this kind.
    pub fn name(&self) -> (r: &'static str)
        ensures
            r@ == kind_name(*self),
    {
        match self {
            TokenType::LEFTPAREN => "LEFT_PAREN",
            TokenType::RIGHTPAREN => "RIGHT_PAREN",
            TokenType::LEFTBRACE => "LEFT_BRACE",
            TokenType::RIGHTBRACE => "RIGHT_BRACE",
            TokenType::COMMA => "COMMA",
            TokenType::DOT => "DOT",
            TokenType::MINUS => "MINUS",
            TokenType::PLUS => "PLUS",
            TokenType::SEMICOLON => "SEMICOLON",
            TokenType::STAR => "STAR",
            TokenType::ASSIGN => "EQUAL",
            TokenType::BANG => "BANG",
            TokenType::EQUAL => "EQUAL_EQUAL",
            TokenType::NOTEQUAL => "BANG_EQUAL",
            TokenType::LESS => "LESS",
            TokenType::LESSEQUAL => "LESS_EQUAL",
            TokenType::GREATER => "GREATER",
            TokenType::GREATEREQUAL => "GREATER_EQUAL",
            TokenType::SLASH => "SLASH",
            TokenType::STRING => "STRING",
            TokenType::NUMBER => "NUMBER",
            TokenType::IDENTIFIER => "IDENTIFIER",
            TokenType::AND => "AND",
            TokenType::CLASS => "CLASS",
            TokenType::ELSE => "ELSE",
            TokenType::FALSE => "FALSE",
            TokenType::FOR => "FOR",
            TokenType::FUN => "FUN",
            TokenType::IF => "IF",
            TokenType::NIL => "NIL",
            TokenType::OR => "OR",
            TokenType::PRINT => "PRINT",
            TokenType::RETURN => "RETURN",
            TokenType::SUPER => "SUPER",
            TokenType::THIS => "THIS",
            TokenType::TRUE => "TRUE",
            TokenType::VAR => "VAR",
            TokenType::WHILE => "WHILE",
            TokenType::EOF => "EOF",
        }
    }
}

/// The payload of a literal token. A number is held as the canonical
/// decimal text of its written digits, which is not the display of the
/// float that they round to where they are more than a float holds; a
/// string is held as the characters between its quotes.
#[derive(Debug, PartialEq, Eq, Hash)]
pub enum TokenLiteral {
    Number(String),
    String(String),
}

/// The mathematical content of a `TokenLiteral`.
pub enum LiteralView {
    Number(Seq<char>),
    String(Seq<char>),
}

impl View for TokenLiteral {
    type V = LiteralView;

    open spec fn view(&self) -> LiteralView {
        match self {
            TokenLiteral::Number(text) => LiteralView::Number(text@),
            TokenLiteral::String(text) => LiteralView::String(text@),
        }
    }
}

impl Clone for TokenLiteral {
    fn clone(&self) -> (r: Self)
        ensures
            r == *self,
    {
        match self {
            TokenLiteral::Number(text) => TokenLiteral::Number(text.clone()),
            TokenLiteral::String(text) => TokenLiteral::String(text.clone()),
        }
    }
}

/// One lexical unit of the source text.
#[derive(Debug, PartialEq, Eq, Hash)]
pub struct Token {
    pub token_type: TokenType,
    pub lexeme: String,
    pub literal: Option<TokenLiteral>,
    pub line: usize,
}

/// The mathematical content of a `Token`.
pub struct TokenView {
    pub token_type: TokenType,
    pub lexeme: Seq<char>,
    pub literal: Option<LiteralView>,
    pub line: usize,
}

/// The content of an optional literal.
pub open spec fn literal_view(literal: Option<TokenLiteral>) -> Option<LiteralView> {
    match literal {
        Some(l) => Some(l@),
        None => None,
    }
}

impl View for Token {
    type V = TokenView;

    open spec fn view(&self) -> TokenView {
        TokenView {
            token_type: self.token_type,
            lexeme: self.lexeme@,
            literal: literal_view(self.literal),
            line: self.line,
        }
    }
}

/// The contents of a list of tokens, one for one.
pub open spec fn token_views(tokens: Seq<Token>) -> Seq<TokenView> {
    Seq::new(tokens.len(), |i: int| tokens[i]@)
}

/// What a token displays as: its kind's name, its lexeme and its literal
/// (`null` where it has none), separated by single spaces.
pub open spec fn token_text(token: TokenView) -> Seq<char> {
    kind_name(token.token_type) + seq![' '] + token.lexeme + seq![' '] + match token.literal {
        Some(LiteralView::Number(text)) => text,
        Some(LiteralView::String(text)) => text,
        None => "null"@,
    }
}

impl Clone for Token {
    fn clone(&self) -> (r: Self)
        ensures
            r == *self,
    {
        let literal = match &self.literal {
            Some(l) => Some(l.clone()),
            None => None,
        };
        Token { token_type: self.token_type, lexeme: self.lexeme.clone(), literal, line: self.line }
    }
}

impl Token {
    pub fn new(token_type: TokenType, lexeme: String, literal: Option<TokenLiteral>, line: usize) -> (r: Self)
        ensures
            r == (Token { token_type, lexeme, literal, line }),
    {
        Token { token_type, lexeme, literal, line }
    }

    /// Appends what this token displays as to `out`.
    pub fn render_into(&self, out: &mut String)
        ensures
            final(out)@ == old(out)@ + token_text(self@),
    {
        out.append(self.token_type.name());
        out.push(' ');
        out.append(self.lexeme.as_str());
        out.push(' ');
        match &self.literal {
            Some(TokenLiteral::Number(text)) => out.append(text.as_str()),
            Some(TokenLiteral::String(text)) => out.append(text.as_str()),
            None => out.append("null"),
        }
        assert(final(out)@ =~= old(out)@ + token_text(self@));
    }

    /// What this token displays as.
    pub fn render(&self) -> (r: String)
        ensures
            r@ == token_text(self@),
    {
        let mut out = String::new();
        self.render_into(&mut out);
        out
    }
}

} // verus!
