use vstd::prelude::*;

use crate::modules::common::token::{CommonToken, CommonTokenView, Token as SharedToken, TokenView};
use crate::modules::java::token::{JavaTokenExtension, Tok};

verus! {

/// A token of the Java subset, with keywords and punctuation in one enum.
#[derive(Clone, Debug, PartialEq, Eq)]
pub enum Token {
    Identifier(String),
    Public,
    Package,
    Class,
    Semicolon,
    Lbrace,
    Rbrace,
    Lparentheses,
    Rparentheses,
    EOF,
}

impl View for Token {
    type V = Tok;

    open spec fn view(&self) -> Tok {
        match self {
            Token::Identifier(s) => TokenView::Common(CommonTokenView::Identifier(s@)),
            Token::Public => TokenView::Extended(JavaTokenExtension::Public),
            Token::Package => TokenView::Extended(JavaTokenExtension::Package),
            Token::Class => TokenView::Extended(JavaTokenExtension::Class),
            Token::Semicolon => TokenView::Common(CommonTokenView::Semicolon),
            Token::Lbrace => TokenView::Common(CommonTokenView::Lbrace),
            Token::Rbrace => TokenView::Common(CommonTokenView::Rbrace),
            Token::Lparentheses => TokenView::Common(CommonTokenView::Lparentheses),
            Token::Rparentheses => TokenView::Common(CommonTokenView::Rparentheses),
            Token::EOF => TokenView::Common(CommonTokenView::EOF),
        }
    }
}

/// The Java tokens that this enum can hold.
pub open spec fn representable(t: Tok) -> bool {
    match t {
        TokenView::Common(c) => match c {
            CommonTokenView::Identifier(_) => true,
            CommonTokenView::Semicolon => true,
            CommonTokenView::Lbrace => true,
            CommonTokenView::Rbrace => true,
            CommonTokenView::Lparentheses => true,
            CommonTokenView::Rparentheses => true,
            CommonTokenView::EOF => true,
            _ => false,
        },
        TokenView::Extended(_) => true,
    }
}

impl Token {
    /// The same token, from its shared-token form.
    pub fn from_shared(t: SharedToken<JavaTokenExtension>) -> (r: Token)
        requires
            representable(t@),
        ensures
            r@ == t@,
    {
        match t {
            SharedToken::Common(CommonToken::Identifier(s)) => Token::Identifier(s),
            SharedToken::Common(CommonToken::Semicolon) => Token::Semicolon,
            SharedToken::Common(CommonToken::Lbrace) => Token::Lbrace,
            SharedToken::Common(CommonToken::Rbrace) => Token::Rbrace,
            SharedToken::Common(CommonToken::Lparentheses) => Token::Lparentheses,
            SharedToken::Common(CommonToken::Rparentheses) => Token::Rparentheses,
            SharedToken::Extended(JavaTokenExtension::Public) => Token::Public,
            SharedToken::Extended(JavaTokenExtension::Package) => Token::Package,
            SharedToken::Extended(JavaTokenExtension::Class) => Token::Class,
            _ => Token::EOF,
        }
    }

    /// An equal copy of the token.
    pub fn duplicate(&self) -> (r: Token)
        ensures
            r@ == self@,
    {
        match self {
            Token::Identifier(s) => Token::Identifier(s.clone()),
            Token::Public => Token::Public,
            Token::Package => Token::Package,
            Token::Class => Token::Class,
            Token::Semicolon => Token::Semicolon,
            Token::Lbrace => Token::Lbrace,
            Token::Rbrace => Token::Rbrace,
            Token::Lparentheses => Token::Lparentheses,
            Token::Rparentheses => Token::Rparentheses,
            Token::EOF => Token::EOF,
        }
    }

    /// Whether two tokens are the same token.
    pub fn same(&self, other: &Token) -> (r: bool)
        ensures
            r == (self@ == other@),
    {
        match (self, other) {
            (Token::Identifier(a), Token::Identifier(b)) => *a == *b,
            (Token::Public, Token::Public) => true,
            (Token::Package, Token::Package) => true,
            (Token::Class, Token::Class) => true,
            (Token::Semicolon, Token::Semicolon) => true,
            (Token::Lbrace, Token::Lbrace) => true,
            (Token::Rbrace, Token::Rbrace) => true,
            (Token::Lparentheses, Token::Lparentheses) => true,
            (Token::Rparentheses, Token::Rparentheses) => true,
            (Token::EOF, Token::EOF) => true,
            _ => false,
        }
    }
}

} // verus!
