use vstd::prelude::*;

use crate::modules::common::token::{CommonToken, CommonTokenView, Token as SharedToken, TokenView};
use crate::modules::speadl::token::{SpeadlTokenExtension, Tok};

verus! {

/// A SpeADL token, with keywords and punctuation in one enum.
#[derive(Clone, Debug, PartialEq, Eq)]
pub enum Token {
    Identifier(String),
    Dot,
    Colon,
    Equals,
    Lbrace,
    Rbrace,
    Lbracket,
    Rbracket,
    Import,
    Namespace,
    Component,
    Specializes,
    Provides,
    Requires,
    Part,
    Bind,
    To,
    EOF,
}

impl View for Token {
    type V = Tok;

    open spec fn view(&self) -> Tok {
        match self {
            Token::Identifier(s) => TokenView::Common(CommonTokenView::Identifier(s@)),
            Token::Dot => TokenView::Common(CommonTokenView::Dot),
            Token::Colon => TokenView::Common(CommonTokenView::Colon),
            Token::Equals => TokenView::Common(CommonTokenView::Equals),
            Token::Lbrace => TokenView::Common(CommonTokenView::Lbrace),
            Token::Rbrace => TokenView::Common(CommonTokenView::Rbrace),
            Token::Lbracket => TokenView::Common(CommonTokenView::Lbracket),
            Token::Rbracket => TokenView::Common(CommonTokenView::Rbracket),
            Token::Import => TokenView::Extended(SpeadlTokenExtension::Import),
            Token::Namespace => TokenView::Extended(SpeadlTokenExtension::Namespace),
            Token::Component => TokenView::Extended(SpeadlTokenExtension::Component),
            Token::Specializes => TokenView::Extended(SpeadlTokenExtension::Specializes),
            Token::Provides => TokenView::Extended(SpeadlTokenExtension::Provides),
            Token::Requires => TokenView::Extended(SpeadlTokenExtension::Requires),
            Token::Part => TokenView::Extended(SpeadlTokenExtension::Part),
            Token::Bind => TokenView::Extended(SpeadlTokenExtension::Bind),
            Token::To => TokenView::Extended(SpeadlTokenExtension::To),
            Token::EOF => TokenView::Common(CommonTokenView::EOF),
        }
    }
}

/// The SpeADL tokens that this enum can hold.
pub open spec fn representable(t: Tok) -> bool {
    match t {
        TokenView::Common(c) => match c {
            CommonTokenView::Semicolon => false,
            CommonTokenView::Lparentheses => false,
            CommonTokenView::Rparentheses => false,
            _ => true,
        },
        TokenView::Extended(_) => true,
    }
}

impl Token {
    /// The same token, from its shared-token form.
    pub fn from_shared(t: SharedToken<SpeadlTokenExtension>) -> (r: Token)
        requires
            representable(t@),
        ensures
            r@ == t@,
    {
        match t {
            SharedToken::Common(CommonToken::Identifier(s)) => Token::Identifier(s),
            SharedToken::Common(CommonToken::Dot) => Token::Dot,
            SharedToken::Common(CommonToken::Colon) => Token::Colon,
            SharedToken::Common(CommonToken::Equals) => Token::Equals,
            SharedToken::Common(CommonToken::Lbrace) => Token::Lbrace,
            SharedToken::Common(CommonToken::Rbrace) => Token::Rbrace,
            SharedToken::Common(CommonToken::Lbracket) => Token::Lbracket,
            SharedToken::Common(CommonToken::Rbracket) => Token::Rbracket,
            SharedToken::Extended(SpeadlTokenExtension::Import) => Token::Import,
            SharedToken::Extended(SpeadlTokenExtension::Namespace) => Token::Namespace,
            SharedToken::Extended(SpeadlTokenExtension::Component) => Token::Component,
            SharedToken::Extended(SpeadlTokenExtension::Specializes) => Token::Specializes,
            SharedToken::Extended(SpeadlTokenExtension::Provides) => Token::Provides,
            SharedToken::Extended(SpeadlTokenExtension::Requires) => Token::Requires,
            SharedToken::Extended(SpeadlTokenExtension::Part) => Token::Part,
            SharedToken::Extended(SpeadlTokenExtension::Bind) => Token::Bind,
            SharedToken::Extended(SpeadlTokenExtension::To) => Token::To,
            _ => Token::EOF,
        }
    }

    /// An equal copy of the token.
    pub fn duplicate(&self) -> (r: Token)
        ensures
            r@ == self@,
    {
        match self {
            Token::Identifier(s) => Token::Identifier(s.clone()),
            Token::Dot => Token::Dot,
            Token::Colon => Token::Colon,
            Token::Equals => Token::Equals,
            Token::Lbrace => Token::Lbrace,
            Token::Rbrace => Token::Rbrace,
            Token::Lbracket => Token::Lbracket,
            Token::Rbracket => Token::Rbracket,
            Token::Import => Token::Import,
            Token::Namespace => Token::Namespace,
            Token::Component => Token::Component,
            Token::Specializes => Token::Specializes,
            Token::Provides => Token::Provides,
            Token::Requires => Token::Requires,
            Token::Part => Token::Part,
            Token::Bind => Token::Bind,
            Token::To => Token::To,
            Token::EOF => Token::EOF,
        }
    }

    /// Whether two tokens are the same token.
    pub fn same(&self, other: &Token) -> (r: bool)
        ensures
            r == (self@ == other@),
    {
        match (self, other) {
            (Token::Identifier(a), Token::Identifier(b)) => *a == *b,
            (Token::Dot, Token::Dot) => true,
            (Token::Colon, Token::Colon) => true,
            (Token::Equals, Token::Equals) => true,
            (Token::Lbrace, Token::Lbrace) => true,
            (Token::Rbrace, Token::Rbrace) => true,
            (Token::Lbracket, Token::Lbracket) => true,
            (Token::Rbracket, Token::Rbracket) => true,
            (Token::Import, Token::Import) => true,
            (Token::Namespace, Token::Namespace) => true,
            (Token::Component, Token::Component) => true,
            (Token::Specializes, Token::Specializes) => true,
            (Token::Provides, Token::Provides) => true,
            (Token::Requires, Token::Requires) => true,
            (Token::Part, Token::Part) => true,
            (Token::Bind, Token::Bind) => true,
            (Token::To, Token::To) => true,
            (Token::EOF, Token::EOF) => true,
            _ => false,
        }
    }
}

} // verus!
