//! The grammar of the Java subset, read as a parser over the lexer's states.
//!
//! A parser state is the current token together with the position of the lexer
//! after it. Every function below takes the source text and a state, and yields
//! what the grammar rule builds together with the state after it, or the error at
//! which parsing stops.
use vstd::prelude::*;

use super::lexer::{keyword, punctuation, step};
use super::token::{JavaTokenExtension, Tok};
use crate::ast::AstView;
use crate::modules::common::error::SyntaxError;
use crate::modules::common::lexer::{
    char_at,
    is_word_char,
    lemma_skip_ws,
    lemma_word_end,
    skip_ws,
    word_at,
};
use crate::modules::common::token::{CommonTokenView, TokenView};

verus! {

/// The places in the Java grammar where one given token must follow.
#[derive(Clone, Copy, Debug, PartialEq, Eq, Structural)]
pub enum Context {
    AfterFunctionName,
    AfterFunctionParameterList,
    BeforeFunctionBody,
    AfterFunctionBody,
    AfterPackageDeclaration,
    BeforeClassName,
    BeforeClassBody,
    AfterClassBody,
}

/// The value of a Java syntax error.
pub type Fault = SyntaxError<Tok, Context>;

/// A parser state: the current token and the lexer's position after it.
pub type State = (Tok, int);

/// A keyword token.
pub open spec fn kw(k: JavaTokenExtension) -> Tok {
    TokenView::Extended(k)
}

/// A shared token.
pub open spec fn sym(c: CommonTokenView) -> Tok {
    TokenView::Common(c)
}

/// How much input is left to read from a state; reading a token other than the
/// end of input makes it smaller.
pub open spec fn measure(chars: Seq<char>, s: State) -> nat {
    (if s.1 <= chars.len() {
        2 * (chars.len() - s.1) as nat
    } else {
        0nat
    }) + (if s.0 == sym(CommonTokenView::EOF) {
        0nat
    } else {
        1nat
    })
}

/// Reads the next token.
pub open spec fn advance(chars: Seq<char>, s: State) -> Result<State, Fault> {
    match step(chars, s.1) {
        Ok((t, p)) => Ok((t, p)),
        Err(c) => Err(SyntaxError::InvalidCharacter(c)),
    }
}

/// Consumes the token `t`, which must be the current one.
pub open spec fn expect(chars: Seq<char>, s: State, t: Tok, context: Context) -> Result<State, Fault> {
    if s.0 == t {
        advance(chars, s)
    } else {
        Err(SyntaxError::Unexpected { found: s.0, expected: t, context })
    }
}

/// Consumes an identifier, which must be the current token.
pub open spec fn ident(chars: Seq<char>, s: State) -> Result<(Seq<char>, State), Fault> {
    match s.0 {
        TokenView::Common(CommonTokenView::Identifier(name)) => match advance(chars, s) {
            Ok(s1) => Ok((name, s1)),
            Err(e) => Err(e),
        },
        _ => Err(SyntaxError::ExpectedIdentifier { found: s.0 }),
    }
}

pub proof fn lemma_step(chars: Seq<char>, pos: int)
    ensures
        step(chars, pos) matches Ok((t, p)) ==> {
            &&& pos <= p
            &&& pos <= chars.len() ==> p <= chars.len()
            &&& pos > chars.len() ==> p == pos
            &&& t != sym(CommonTokenView::EOF) ==> pos < p <= chars.len()
        },
{
    lemma_skip_ws(chars, pos);
    let p = skip_ws(chars, pos);
    lemma_word_end(chars, p);
    if let Some(c) = char_at(chars, p) {
        if punctuation(c) is None && is_word_char(c) {
            let w = word_at(chars, p);
            if keyword(w) == sym(CommonTokenView::EOF) {
                assert(false);
            }
        }
    }
}

pub proof fn lemma_advance(chars: Seq<char>, s: State)
    ensures
        advance(chars, s) matches Ok(s1) ==> {
            &&& measure(chars, s1) <= measure(chars, s)
            &&& s.0 != sym(CommonTokenView::EOF) ==> measure(chars, s1) < measure(chars, s)
        },
{
    lemma_step(chars, s.1);
}

pub proof fn lemma_expect(chars: Seq<char>, s: State, t: Tok, context: Context)
    requires
        t != sym(CommonTokenView::EOF),
    ensures
        expect(chars, s, t, context) matches Ok(s1) ==> measure(chars, s1) < measure(chars, s),
{
    lemma_advance(chars, s);
}

pub proof fn lemma_ident(chars: Seq<char>, s: State)
    ensures
        ident(chars, s) matches Ok((_, s1)) ==> measure(chars, s1) < measure(chars, s),
{
    lemma_advance(chars, s);
}

/// An optional access modifier `public`.
pub open spec fn access(chars: Seq<char>, s: State) -> Result<(Option<Seq<char>>, State), Fault> {
    if s.0 == kw(JavaTokenExtension::Public) {
        match advance(chars, s) {
            Ok(s1) => Ok((Some("public"@), s1)),
            Err(e) => Err(e),
        }
    } else {
        Ok((None, s))
    }
}

/// A method with no parameters and an empty body: `public Type name() {}`.
pub open spec fn function(chars: Seq<char>, s: State) -> Result<(AstView, State), Fault> {
    match access(chars, s) {
        Err(e) => Err(e),
        Ok((acc, s1)) => match ident(chars, s1) {
            Err(e) => Err(e),
            Ok((typ, s2)) => match ident(chars, s2) {
                Err(e) => Err(e),
                Ok((name, s3)) => match expect(
                    chars,
                    s3,
                    sym(CommonTokenView::Lparentheses),
                    Context::AfterFunctionName,
                ) {
                    Err(e) => Err(e),
                    Ok(s4) => match expect(
                        chars,
                        s4,
                        sym(CommonTokenView::Rparentheses),
                        Context::AfterFunctionParameterList,
                    ) {
                        Err(e) => Err(e),
                        Ok(s5) => match expect(
                            chars,
                            s5,
                            sym(CommonTokenView::Lbrace),
                            Context::BeforeFunctionBody,
                        ) {
                            Err(e) => Err(e),
                            Ok(s6) => match expect(
                                chars,
                                s6,
                                sym(CommonTokenView::Rbrace),
                                Context::AfterFunctionBody,
                            ) {
                                Ok(s7) => Ok(
                                    (
                                        AstView::Function { name, typ, access: acc, body: None },
                                        s7,
                                    ),
                                ),
                                Err(e) => Err(e),
                            },
                        },
                    },
                },
            },
        },
    }
}

/// The package declarations `package name;` that open a file.
pub open spec fn packages(chars: Seq<char>, s: State) -> Result<(Seq<AstView>, State), Fault>
    decreases measure(chars, s),
{
    if s.0 == kw(JavaTokenExtension::Package) {
        match advance(chars, s) {
            Err(e) => Err(e),
            Ok(s1) => match ident(chars, s1) {
                Err(e) => Err(e),
                Ok((name, s2)) => match expect(
                    chars,
                    s2,
                    sym(CommonTokenView::Semicolon),
                    Context::AfterPackageDeclaration,
                ) {
                    Err(e) => Err(e),
                    Ok(s3) => {
                        proof {
                            lemma_advance(chars, s);
                            lemma_ident(chars, s1);
                            lemma_expect(
                                chars,
                                s2,
                                sym(CommonTokenView::Semicolon),
                                Context::AfterPackageDeclaration,
                            );
                        }
                        match packages(chars, s3) {
                            Ok((rest, s4)) => Ok((seq![AstView::Package { name }] + rest, s4)),
                            Err(e) => Err(e),
                        }
                    },
                },
            },
        }
    } else {
        Ok((Seq::empty(), s))
    }
}

/// A file: package declarations, then `public class Name { method }`.
pub open spec fn class(chars: Seq<char>, s: State) -> Result<(AstView, State), Fault> {
    match packages(chars, s) {
        Err(e) => Err(e),
        Ok((ps, s1)) => match access(chars, s1) {
            Err(e) => Err(e),
            Ok((acc, s2)) => match expect(
                chars,
                s2,
                kw(JavaTokenExtension::Class),
                Context::BeforeClassName,
            ) {
                Err(e) => Err(e),
                Ok(s3) => match ident(chars, s3) {
                    Err(e) => Err(e),
                    Ok((name, s4)) => match expect(
                        chars,
                        s4,
                        sym(CommonTokenView::Lbrace),
                        Context::BeforeClassBody,
                    ) {
                        Err(e) => Err(e),
                        Ok(s5) => match function(chars, s5) {
                            Err(e) => Err(e),
                            Ok((f, s6)) => match expect(
                                chars,
                                s6,
                                sym(CommonTokenView::Rbrace),
                                Context::AfterClassBody,
                            ) {
                                Ok(s7) => Ok(
                                    (
                                        AstView::SEQ(
                                            ps + seq![
                                                AstView::Class {
                                                    name,
                                                    access: acc,
                                                    body: Box::new(f),
                                                },
                                            ],
                                        ),
                                        s7,
                                    ),
                                ),
                                Err(e) => Err(e),
                            },
                        },
                    },
                },
            },
        },
    }
}

} // verus!
