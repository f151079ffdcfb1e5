use vstd::prelude::*;

verus! {

/// The vocabulary of lexical units.
#[derive(Debug, Clone, Copy, PartialEq, Eq, Structural)]
pub enum TokenKind {
    NumberToken,
    Plus,
    Minus,
    Star,
    Slash,
    Percent,
    DoubleStar,
    Caret,
    OpenParenthesis,
    CloseParenthesis,
    Pipe,
    FunctionCall,
    Comma,
    EndOfFile,
    WhiteSpace,
    BadSymbol,
}

/// A lexical unit: its kind, the byte offset where it starts in the source, and
/// the source text it covers.
#[derive(Debug, PartialEq, Eq, Clone)]
pub struct Token {
    pub kind: TokenKind,
    pub index: usize,
    pub value: String,
}

/// The mathematical view of a token.
pub struct TokenView {
    pub kind: TokenKind,
    pub index: usize,
    pub value: Seq<char>,
}

impl View for Token {
    type V = TokenView;

    open spec fn view(&self) -> TokenView {
        TokenView { kind: self.kind, index: self.index, value: self.value@ }
    }
}

/// The views of a sequence of tokens.
pub open spec fn views(v: Seq<Token>) -> Seq<TokenView> {
    v.map_values(|t: Token| t@)
}

/// Whether the parser reads tokens of this kind; whitespace, bad symbols and
/// commas are dropped before parsing.
pub open spec fn is_usable(kind: TokenKind) -> bool {
    !(kind == TokenKind::WhiteSpace || kind == TokenKind::BadSymbol || kind == TokenKind::Comma)
}

/// Binding strength of a binary operator; 0 for a token that is none.
pub open spec fn binary_precedence(kind: TokenKind) -> u8 {
    match kind {
        TokenKind::DoubleStar | TokenKind::Caret => 3,
        TokenKind::Star | TokenKind::Slash | TokenKind::Percent => 2,
        TokenKind::Plus | TokenKind::Minus => 1,
        _ => 0,
    }
}

/// Binding strength of a prefix operator; 0 for a token that is none.
pub open spec fn unary_precedence(kind: TokenKind) -> u8 {
    match kind {
        TokenKind::Plus | TokenKind::Minus => 1,
        _ => 0,
    }
}

/// The name of a token kind, as diagnostics print it.
pub open spec fn kind_name(kind: TokenKind) -> Seq<char> {
    match kind {
        TokenKind::NumberToken => "NumberToken"@,
        TokenKind::Plus => "Plus"@,
        TokenKind::Minus => "Minus"@,
        TokenKind::Star => "Star"@,
        TokenKind::Slash => "Slash"@,
        TokenKind::Percent => "Percent"@,
        TokenKind::DoubleStar => "DoubleStar"@,
        TokenKind::Caret => "Caret"@,
        TokenKind::OpenParenthesis => "OpenParenthesis"@,
        TokenKind::CloseParenthesis => "CloseParenthesis"@,
        TokenKind::Pipe => "Pipe"@,
        TokenKind::FunctionCall => "FunctionCall"@,
        TokenKind::Comma => "Comma"@,
        TokenKind::EndOfFile => "EndOfFile"@,
        TokenKind::WhiteSpace => "WhiteSpace"@,
        TokenKind::BadSymbol => "BadSymbol"@,
    }
}

/// The name of a token kind.
pub fn kind_text(kind: TokenKind) -> (r: &'static str)
    ensures
        r@ == kind_name(kind),
{
    match kind {
        TokenKind::NumberToken => "NumberToken",
        TokenKind::Plus => "Plus",
        TokenKind::Minus => "Minus",
        TokenKind::Star => "Star",
        TokenKind::Slash => "Slash",
        TokenKind::Percent => "Percent",
        TokenKind::DoubleStar => "DoubleStar",
        TokenKind::Caret => "Caret",
        TokenKind::OpenParenthesis => "OpenParenthesis",
        TokenKind::CloseParenthesis => "CloseParenthesis",
        TokenKind::Pipe => "Pipe",
        TokenKind::FunctionCall => "FunctionCall",
        TokenKind::Comma => "Comma",
        TokenKind::EndOfFile => "EndOfFile",
        TokenKind::WhiteSpace => "WhiteSpace",
        TokenKind::BadSymbol => "BadSymbol",
    }
}

impl Token {
    pub fn new(kind: TokenKind, index: usize, value: String) -> (r: Token)
        ensures
            r@ == (TokenView { kind, index, value: value@ }),
    {
        Token { kind, index, value }
    }

    pub fn is_usable_token(token: &Token) -> (r: bool)
        ensures
            r == is_usable(token.kind),
    {
        match token.kind {
            TokenKind::WhiteSpace | TokenKind::BadSymbol | TokenKind::Comma => false,
            _ => true,
        }
    }

    pub fn get_binary_precedence(&self) -> (r: u8)
        ensures
            r == binary_precedence(self.kind),
    {
        match self.kind {
            TokenKind::DoubleStar | TokenKind::Caret => 3,
            TokenKind::Star | TokenKind::Slash | TokenKind::Percent => 2,
            TokenKind::Plus | TokenKind::Minus => 1,
            _ => 0,
        }
    }

    pub fn get_unary_precedence(&self) -> (r: u8)
        ensures
            r == unary_precedence(self.kind),
    {
        match self.kind {
            TokenKind::Plus | TokenKind::Minus => 1,
            _ => 0,
        }
    }

    /// A copy of the token with the same view.
    pub fn duplicate(&self) -> (r: Token)
        ensures
            r@ == self@,
    {
        Token { kind: self.kind, index: self.index, value: self.value.clone() }
    }
}

} // verus!
