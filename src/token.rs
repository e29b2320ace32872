use vstd::prelude::*;

verus! {

/// The kind of a token, without the text that a word carries.
#[derive(Clone, Copy, Debug, PartialEq, Eq, Structural)]
pub enum TokenKind {
    Regular,
    Expansion,
    SingleQuote,
    DoubleQuote,
    Assignment,
    LRedirect,
    RRedirect,
    RAppend,
    Pipe,
    CommandSeparator,
    SubshellStart,
    SubshellEnd,
    Home,
    Background,
    EOF,
}

/// One lexical unit of a command line.
#[derive(Clone, Debug, PartialEq)]
pub enum Token {
    /// A bareword or the contents of a quoted region.
    Regular(String),
    Expansion,
    SingleQuote,
    DoubleQuote,
    Assignment,
    /// `<`
    LRedirect,
    /// `>`
    RRedirect,
    /// `>>`
    RAppend,
    /// `|`
    Pipe,
    /// `;`
    CommandSeparator,
    SubshellStart,
    SubshellEnd,
    Home,
    Background,
    /// Ends every scanned line.
    EOF,
}

/// What a token means: its kind, and for a word its text (empty otherwise).
pub type TokenView = (TokenKind, Seq<char>);

/// The view of a token that carries no text.
pub open spec fn mark(k: TokenKind) -> TokenView {
    (k, Seq::empty())
}

/// The view of a word.
pub open spec fn word(s: Seq<char>) -> TokenView {
    (TokenKind::Regular, s)
}

pub open spec fn kind_of(t: Token) -> TokenKind {
    match t {
        Token::Regular(_) => TokenKind::Regular,
        Token::Expansion => TokenKind::Expansion,
        Token::SingleQuote => TokenKind::SingleQuote,
        Token::DoubleQuote => TokenKind::DoubleQuote,
        Token::Assignment => TokenKind::Assignment,
        Token::LRedirect => TokenKind::LRedirect,
        Token::RRedirect => TokenKind::RRedirect,
        Token::RAppend => TokenKind::RAppend,
        Token::Pipe => TokenKind::Pipe,
        Token::CommandSeparator => TokenKind::CommandSeparator,
        Token::SubshellStart => TokenKind::SubshellStart,
        Token::SubshellEnd => TokenKind::SubshellEnd,
        Token::Home => TokenKind::Home,
        Token::Background => TokenKind::Background,
        Token::EOF => TokenKind::EOF,
    }
}

impl View for Token {
    type V = TokenView;

    open spec fn view(&self) -> TokenView {
        match self {
            Token::Regular(s) => word(s@),
            _ => mark(kind_of(*self)),
        }
    }
}

/// The views of a sequence of tokens.
pub open spec fn views(ts: Seq<Token>) -> Seq<TokenView> {
    ts.map_values(|t: Token| t@)
}

impl Token {
    /// The kind of this token.
    pub fn kind(&self) -> (k: TokenKind)
        ensures
            k == kind_of(*self),
            k == self@.0,
    {
        match self {
            Token::Regular(_) => TokenKind::Regular,
            Token::Expansion => TokenKind::Expansion,
            Token::SingleQuote => TokenKind::SingleQuote,
            Token::DoubleQuote => TokenKind::DoubleQuote,
            Token::Assignment => TokenKind::Assignment,
            Token::LRedirect => TokenKind::LRedirect,
            Token::RRedirect => TokenKind::RRedirect,
            Token::RAppend => TokenKind::RAppend,
            Token::Pipe => TokenKind::Pipe,
            Token::CommandSeparator => TokenKind::CommandSeparator,
            Token::SubshellStart => TokenKind::SubshellStart,
            Token::SubshellEnd => TokenKind::SubshellEnd,
            Token::Home => TokenKind::Home,
            Token::Background => TokenKind::Background,
            Token::EOF => TokenKind::EOF,
        }
    }
}

} // verus!
