use vstd::prelude::*;

verus! {

/// Tokens shared by every language front end.
#[derive(Clone, Debug, PartialEq, Eq)]
pub enum CommonToken {
    Identifier(String),
    Dot,
    Colon,
    Equals,
    Lbrace,
    Rbrace,
    Lbracket,
    Rbracket,
    Semicolon,
    Lparentheses,
    Rparentheses,
    EOF,
}

/// A token of a language: either a shared token or a language-specific keyword.
#[derive(Clone, Debug, PartialEq, Eq)]
pub enum Token<Extension> {
    Common(CommonToken),
    Extended(Extension),
}

/// The mathematical value of a `CommonToken`: identifiers carry their characters.
pub enum CommonTokenView {
    Identifier(Seq<char>),
    Dot,
    Colon,
    Equals,
    Lbrace,
    Rbrace,
    Lbracket,
    Rbracket,
    Semicolon,
    Lparentheses,
    Rparentheses,
    EOF,
}

/// The mathematical value of a `Token`.
pub enum TokenView<Extension> {
    Common(CommonTokenView),
    Extended(Extension),
}

impl View for CommonToken {
    type V = CommonTokenView;

    open spec fn view(&self) -> CommonTokenView {
        match self {
            CommonToken::Identifier(s) => CommonTokenView::Identifier(s@),
            CommonToken::Dot => CommonTokenView::Dot,
            CommonToken::Colon => CommonTokenView::Colon,
            CommonToken::Equals => CommonTokenView::Equals,
            CommonToken::Lbrace => CommonTokenView::Lbrace,
            CommonToken::Rbrace => CommonTokenView::Rbrace,
            CommonToken::Lbracket => CommonTokenView::Lbracket,
            CommonToken::Rbracket => CommonTokenView::Rbracket,
            CommonToken::Semicolon => CommonTokenView::Semicolon,
            CommonToken::Lparentheses => CommonTokenView::Lparentheses,
            CommonToken::Rparentheses => CommonTokenView::Rparentheses,
            CommonToken::EOF => CommonTokenView::EOF,
        }
    }
}

impl<Extension> View for Token<Extension> {
    type V = TokenView<Extension>;

    open spec fn view(&self) -> TokenView<Extension> {
        match self {
            Token::Common(c) => TokenView::Common(c@),
            Token::Extended(e) => TokenView::Extended(*e),
        }
    }
}

/// The end-of-input token.
pub open spec fn eof<Extension>() -> TokenView<Extension> {
    TokenView::Common(CommonTokenView::EOF)
}

/// A language keyword set: plain values compared by their variant.
pub trait Keyword: Sized + Copy {
    fn same(&self, other: &Self) -> (r: bool)
        ensures
            r == (*self == *other),
    ;
}

impl CommonToken {
    /// An equal copy of the token.
    pub fn duplicate(&self) -> (r: CommonToken)
        ensures
            r@ == self@,
    {
        match self {
            CommonToken::Identifier(s) => CommonToken::Identifier(s.clone()),
            CommonToken::Dot => CommonToken::Dot,
            CommonToken::Colon => CommonToken::Colon,
            CommonToken::Equals => CommonToken::Equals,
            CommonToken::Lbrace => CommonToken::Lbrace,
            CommonToken::Rbrace => CommonToken::Rbrace,
            CommonToken::Lbracket => CommonToken::Lbracket,
            CommonToken::Rbracket => CommonToken::Rbracket,
            CommonToken::Semicolon => CommonToken::Semicolon,
            CommonToken::Lparentheses => CommonToken::Lparentheses,
            CommonToken::Rparentheses => CommonToken::Rparentheses,
            CommonToken::EOF => CommonToken::EOF,
        }
    }

    /// Whether two tokens are the same token (same variant and, for identifiers, same text).
    pub fn same(&self, other: &CommonToken) -> (r: bool)
        ensures
            r == (self@ == other@),
    {
        match (self, other) {
            (CommonToken::Identifier(a), CommonToken::Identifier(b)) => *a == *b,
            (CommonToken::Dot, CommonToken::Dot) => true,
            (CommonToken::Colon, CommonToken::Colon) => true,
            (CommonToken::Equals, CommonToken::Equals) => true,
            (CommonToken::Lbrace, CommonToken::Lbrace) => true,
            (CommonToken::Rbrace, CommonToken::Rbrace) => true,
            (CommonToken::Lbracket, CommonToken::Lbracket) => true,
            (CommonToken::Rbracket, CommonToken::Rbracket) => true,
            (CommonToken::Semicolon, CommonToken::Semicolon) => true,
            (CommonToken::Lparentheses, CommonToken::Lparentheses) => true,
            (CommonToken::Rparentheses, CommonToken::Rparentheses) => true,
            (CommonToken::EOF, CommonToken::EOF) => true,
            _ => false,
        }
    }
}

impl<Extension: Keyword> Token<Extension> {
    /// An equal copy of the token.
    pub fn duplicate(&self) -> (r: Token<Extension>)
        ensures
            r@ == self@,
    {
        match self {
            Token::Common(c) => Token::Common(c.duplicate()),
            Token::Extended(e) => Token::Extended(*e),
        }
    }

    /// Whether two tokens are the same token.
    pub fn same(&self, other: &Token<Extension>) -> (r: bool)
        ensures
            r == (self@ == other@),
    {
        match (self, other) {
            (Token::Common(a), Token::Common(b)) => a.same(b),
            (Token::Extended(a), Token::Extended(b)) => a.same(b),
            _ => false,
        }
    }
}

} // verus!
