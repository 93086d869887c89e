//! The SpeADL grammar, read as a parser over the lexer's states.
//!
//! A parser state is the current token together with the position of the lexer
//! after it. Every function below takes the source text and a state, and yields
//! what the grammar rule builds together with the state after it, or the error at
//! which parsing stops.
use vstd::prelude::*;

use super::lexer::{keyword, punctuation, step};
use super::token::{SpeadlTokenExtension, Tok};
use crate::ast::{AstView, ImplementationView};
use crate::modules::common::error::SyntaxError;
use crate::modules::common::lexer::{
    char_at,
    is_word_char,
    lemma_skip_ws,
    lemma_word_end,
    skip_ws,
    word_at,
};
use crate::modules::common::token::{CommonTokenView, TokenView};

verus! {

/// The places in the SpeADL grammar where one given token must follow.
#[derive(Clone, Copy, Debug, PartialEq, Eq, Structural)]
pub enum Context {
    AfterGenericParameterName,
    AfterPartName,
    BeforePartBody,
    AfterBindName,
    AfterPartBody,
    AfterProvidedServiceName,
    BetweenDelegatedPartAndServiceName,
    AfterRequiredServiceName,
    BeforeComponentName,
    BeforeComponentBody,
    AfterComponentBody,
    BeforeNamespacePath,
    BeforeNamespaceBody,
    AfterNamespaceBody,
}

/// The value of a SpeADL syntax error.
pub type Fault = SyntaxError<Tok, Context>;

/// A parser state: the current token and the lexer's position after it.
pub type State = (Tok, int);

/// A keyword token.
pub open spec fn kw(k: SpeadlTokenExtension) -> Tok {
    TokenView::Extended(k)
}

/// A shared token.
pub open spec fn sym(c: CommonTokenView) -> Tok {
    TokenView::Common(c)
}

/// How much input is left to read from a state; reading a token other than the
/// end of input makes it smaller.
pub open spec fn measure(chars: Seq<char>, s: State) -> nat {
    (if s.1 <= chars.len() {
        2 * (chars.len() - s.1) as nat
    } else {
        0nat
    }) + (if s.0 == sym(CommonTokenView::EOF) {
        0nat
    } else {
        1nat
    })
}

/// Reads the next token.
pub open spec fn advance(chars: Seq<char>, s: State) -> Result<State, Fault> {
    match step(chars, s.1) {
        Ok((t, p)) => Ok((t, p)),
        Err(c) => Err(SyntaxError::InvalidCharacter(c)),
    }
}

/// Consumes the token `t`, which must be the current one.
pub open spec fn expect(chars: Seq<char>, s: State, t: Tok, context: Context) -> Result<State, Fault> {
    if s.0 == t {
        advance(chars, s)
    } else {
        Err(SyntaxError::Unexpected { found: s.0, expected: t, context })
    }
}

/// Consumes an identifier, which must be the current token.
pub open spec fn ident(chars: Seq<char>, s: State) -> Result<(Seq<char>, State), Fault> {
    match s.0 {
        TokenView::Common(CommonTokenView::Identifier(name)) => match advance(chars, s) {
            Ok(s1) => Ok((name, s1)),
            Err(e) => Err(e),
        },
        _ => Err(SyntaxError::ExpectedIdentifier { found: s.0 }),
    }
}

pub proof fn lemma_step(chars: Seq<char>, pos: int)
    ensures
        step(chars, pos) matches Ok((t, p)) ==> {
            &&& pos <= p
            &&& pos <= chars.len() ==> p <= chars.len()
            &&& pos > chars.len() ==> p == pos
            &&& t != sym(CommonTokenView::EOF) ==> pos < p <= chars.len()
        },
{
    lemma_skip_ws(chars, pos);
    let p = skip_ws(chars, pos);
    lemma_word_end(chars, p);
    if let Some(c) = char_at(chars, p) {
        if punctuation(c) is None && is_word_char(c) {
            let w = word_at(chars, p);
            if keyword(w) == sym(CommonTokenView::EOF) {
                assert(false);
            }
        }
    }
}

pub proof fn lemma_advance(chars: Seq<char>, s: State)
    ensures
        advance(chars, s) matches Ok(s1) ==> {
            &&& measure(chars, s1) <= measure(chars, s)
            &&& s.0 != sym(CommonTokenView::EOF) ==> measure(chars, s1) < measure(chars, s)
        },
{
    lemma_step(chars, s.1);
}

pub proof fn lemma_expect(chars: Seq<char>, s: State, t: Tok, context: Context)
    requires
        t != sym(CommonTokenView::EOF),
    ensures
        expect(chars, s, t, context) matches Ok(s1) ==> measure(chars, s1) < measure(chars, s),
{
    lemma_advance(chars, s);
}

pub proof fn lemma_ident(chars: Seq<char>, s: State)
    ensures
        ident(chars, s) matches Ok((_, s1)) ==> measure(chars, s1) < measure(chars, s),
{
    lemma_advance(chars, s);
}

/// The segments `. name` that follow the first name of a dotted path.
pub open spec fn path_tail(chars: Seq<char>, s: State) -> Result<(Seq<Seq<char>>, State), Fault>
    decreases measure(chars, s),
{
    if s.0 == sym(CommonTokenView::Dot) {
        match advance(chars, s) {
            Err(e) => Err(e),
            Ok(s1) => match ident(chars, s1) {
                Err(e) => Err(e),
                Ok((name, s2)) => {
                    proof {
                        lemma_advance(chars, s);
                        lemma_ident(chars, s1);
                    }
                    match path_tail(chars, s2) {
                        Ok((rest, s3)) => Ok((seq![name] + rest, s3)),
                        Err(e) => Err(e),
                    }
                },
            },
        }
    } else {
        Ok((Seq::empty(), s))
    }
}

/// A dotted path `a.b.c`.
pub open spec fn path(chars: Seq<char>, s: State) -> Result<(Seq<Seq<char>>, State), Fault> {
    match ident(chars, s) {
        Err(e) => Err(e),
        Ok((first, s1)) => match path_tail(chars, s1) {
            Ok((rest, s2)) => Ok((seq![first] + rest, s2)),
            Err(e) => Err(e),
        },
    }
}

/// An optional generic parameter `[T]`.
pub open spec fn generic(chars: Seq<char>, s: State) -> Result<(Option<Seq<char>>, State), Fault> {
    if s.0 == sym(CommonTokenView::Lbracket) {
        match advance(chars, s) {
            Err(e) => Err(e),
            Ok(s1) => match ident(chars, s1) {
                Err(e) => Err(e),
                Ok((name, s2)) => match expect(
                    chars,
                    s2,
                    sym(CommonTokenView::Rbracket),
                    Context::AfterGenericParameterName,
                ) {
                    Ok(s3) => Ok((Some(name), s3)),
                    Err(e) => Err(e),
                },
            },
        }
    } else {
        Ok((None, s))
    }
}

/// The target of a binding: `part` or `part.service`.
pub open spec fn bind_target(chars: Seq<char>, s: State) -> Result<(Seq<Seq<char>>, State), Fault> {
    match ident(chars, s) {
        Err(e) => Err(e),
        Ok((first, s1)) => if s1.0 == sym(CommonTokenView::Dot) {
            match advance(chars, s1) {
                Err(e) => Err(e),
                Ok(s2) => match ident(chars, s2) {
                    Ok((second, s3)) => Ok((seq![first, second], s3)),
                    Err(e) => Err(e),
                },
            }
        } else {
            Ok((seq![first], s1))
        },
    }
}

/// The bindings `bind name to target` of a part body.
pub open spec fn binds(chars: Seq<char>, s: State) -> Result<(Seq<AstView>, State), Fault>
    decreases measure(chars, s),
{
    if s.0 == kw(SpeadlTokenExtension::Bind) {
        match advance(chars, s) {
            Err(e) => Err(e),
            Ok(s1) => match ident(chars, s1) {
                Err(e) => Err(e),
                Ok((name, s2)) => match expect(
                    chars,
                    s2,
                    kw(SpeadlTokenExtension::To),
                    Context::AfterBindName,
                ) {
                    Err(e) => Err(e),
                    Ok(s3) => match bind_target(chars, s3) {
                        Err(e) => Err(e),
                        Ok((target, s4)) => {
                            proof {
                                lemma_advance(chars, s);
                                lemma_ident(chars, s1);
                                lemma_expect(
                                    chars,
                                    s2,
                                    kw(SpeadlTokenExtension::To),
                                    Context::AfterBindName,
                                );
                                lemma_bind_target(chars, s3);
                            }
                            match binds(chars, s4) {
                                Ok((rest, s5)) => Ok(
                                    (seq![AstView::Bind { name, target }] + rest, s5),
                                ),
                                Err(e) => Err(e),
                            }
                        },
                    },
                },
            },
        }
    } else {
        Ok((Seq::empty(), s))
    }
}

/// The part declarations `part name: Type[G] { binds }` that close a component body.
pub open spec fn parts(chars: Seq<char>, s: State) -> Result<(Seq<AstView>, State), Fault>
    decreases measure(chars, s),
{
    if s.0 == kw(SpeadlTokenExtension::Part) {
        match advance(chars, s) {
            Err(e) => Err(e),
            Ok(s1) => match part_declaration(chars, s1) {
                Err(e) => Err(e),
                Ok((part, s2)) => {
                    proof {
                        lemma_advance(chars, s);
                        lemma_part_declaration(chars, s1);
                    }
                    match parts(chars, s2) {
                        Ok((rest, s3)) => Ok((seq![part] + rest, s3)),
                        Err(e) => Err(e),
                    }
                },
            },
        }
    } else {
        Ok((Seq::empty(), s))
    }
}

/// What follows the keyword `part`: `name: Type[G] { binds }`.
pub open spec fn part_declaration(chars: Seq<char>, s: State) -> Result<(AstView, State), Fault> {
    match ident(chars, s) {
        Err(e) => Err(e),
        Ok((name, s1)) => match expect(
            chars,
            s1,
            sym(CommonTokenView::Colon),
            Context::AfterPartName,
        ) {
            Err(e) => Err(e),
            Ok(s2) => match ident(chars, s2) {
                Err(e) => Err(e),
                Ok((typ, s3)) => match generic(chars, s3) {
                    Err(e) => Err(e),
                    Ok((g, s4)) => match expect(
                        chars,
                        s4,
                        sym(CommonTokenView::Lbrace),
                        Context::BeforePartBody,
                    ) {
                        Err(e) => Err(e),
                        Ok(s5) => match binds(chars, s5) {
                            Err(e) => Err(e),
                            Ok((bs, s6)) => match expect(
                                chars,
                                s6,
                                sym(CommonTokenView::Rbrace),
                                Context::AfterPartBody,
                            ) {
                                Ok(s7) => Ok(
                                    (
                                        AstView::Part {
                                            name,
                                            typ,
                                            generic: g,
                                            body: Box::new(AstView::SEQ(bs)),
                                        },
                                        s7,
                                    ),
                                ),
                                Err(e) => Err(e),
                            },
                        },
                    },
                },
            },
        },
    }
}

/// One provided service `name: Type` or `name: Type = part.service`.
pub open spec fn provided(chars: Seq<char>, s: State) -> Result<(AstView, State), Fault> {
    match ident(chars, s) {
        Err(e) => Err(e),
        Ok((name, s1)) => match expect(
            chars,
            s1,
            sym(CommonTokenView::Colon),
            Context::AfterProvidedServiceName,
        ) {
            Err(e) => Err(e),
            Ok(s2) => match ident(chars, s2) {
                Err(e) => Err(e),
                Ok((typ, s3)) => if s3.0 == sym(CommonTokenView::Equals) {
                    match advance(chars, s3) {
                        Err(e) => Err(e),
                        Ok(s4) => match ident(chars, s4) {
                            Err(e) => Err(e),
                            Ok((part_name, s5)) => match expect(
                                chars,
                                s5,
                                sym(CommonTokenView::Dot),
                                Context::BetweenDelegatedPartAndServiceName,
                            ) {
                                Err(e) => Err(e),
                                Ok(s6) => match ident(chars, s6) {
                                    Err(e) => Err(e),
                                    Ok((service_name, s7)) => Ok(
                                        (
                                            AstView::Provides {
                                                name,
                                                typ,
                                                implementation: ImplementationView::Delegated {
                                                    part_name,
                                                    service_name,
                                                },
                                            },
                                            s7,
                                        ),
                                    ),
                                },
                            },
                        },
                    }
                } else {
                    Ok(
                        (
                            AstView::Provides {
                                name,
                                typ,
                                implementation: ImplementationView::Local,
                            },
                            s3,
                        ),
                    )
                },
            },
        },
    }
}

/// Provided services separated by the keyword `provides`, after a first `provides`.
pub open spec fn provided_list(chars: Seq<char>, s: State) -> Result<(Seq<AstView>, State), Fault>
    decreases measure(chars, s),
{
    match provided(chars, s) {
        Err(e) => Err(e),
        Ok((service, s1)) => if s1.0 == kw(SpeadlTokenExtension::Provides) {
            match advance(chars, s1) {
                Err(e) => Err(e),
                Ok(s2) => {
                    proof {
                        lemma_provided(chars, s);
                        lemma_advance(chars, s1);
                    }
                    match provided_list(chars, s2) {
                        Ok((rest, s3)) => Ok((seq![service] + rest, s3)),
                        Err(e) => Err(e),
                    }
                },
            }
        } else {
            Ok((seq![service], s1))
        },
    }
}

/// At least one provided service, then the parts of the component.
pub open spec fn provides(chars: Seq<char>, s: State) -> Result<(Seq<AstView>, State), Fault> {
    if s.0 == kw(SpeadlTokenExtension::Provides) {
        match advance(chars, s) {
            Err(e) => Err(e),
            Ok(s1) => match provided_list(chars, s1) {
                Err(e) => Err(e),
                Ok((services, s2)) => match parts(chars, s2) {
                    Ok((ps, s3)) => Ok((services + ps, s3)),
                    Err(e) => Err(e),
                },
            },
        }
    } else {
        Err(SyntaxError::MissingProvides { found: s.0 })
    }
}

/// The required services `requires name: Type` that open a component body.
pub open spec fn requirements(chars: Seq<char>, s: State) -> Result<(Seq<AstView>, State), Fault>
    decreases measure(chars, s),
{
    if s.0 == kw(SpeadlTokenExtension::Requires) {
        match advance(chars, s) {
            Err(e) => Err(e),
            Ok(s1) => match ident(chars, s1) {
                Err(e) => Err(e),
                Ok((name, s2)) => match expect(
                    chars,
                    s2,
                    sym(CommonTokenView::Colon),
                    Context::AfterRequiredServiceName,
                ) {
                    Err(e) => Err(e),
                    Ok(s3) => match ident(chars, s3) {
                        Err(e) => Err(e),
                        Ok((typ, s4)) => {
                            proof {
                                lemma_advance(chars, s);
                                lemma_ident(chars, s1);
                                lemma_expect(
                                    chars,
                                    s2,
                                    sym(CommonTokenView::Colon),
                                    Context::AfterRequiredServiceName,
                                );
                                lemma_ident(chars, s3);
                            }
                            match requirements(chars, s4) {
                                Ok((rest, s5)) => Ok(
                                    (seq![AstView::Requires { name, typ }] + rest, s5),
                                ),
                                Err(e) => Err(e),
                            }
                        },
                    },
                },
            },
        }
    } else {
        Ok((Seq::empty(), s))
    }
}

/// A component body: required services, then provided services and parts.
pub open spec fn component_body(chars: Seq<char>, s: State) -> Result<(Seq<AstView>, State), Fault> {
    match requirements(chars, s) {
        Err(e) => Err(e),
        Ok((rs, s1)) => match provides(chars, s1) {
            Ok((ps, s2)) => Ok((rs + ps, s2)),
            Err(e) => Err(e),
        },
    }
}

/// An optional `specializes Parent`; the parent's file is not looked up here.
pub open spec fn specialization(chars: Seq<char>, s: State) -> Result<
    (Option<(Seq<char>, Option<Box<AstView>>)>, State),
    Fault,
> {
    if s.0 == kw(SpeadlTokenExtension::Specializes) {
        match advance(chars, s) {
            Err(e) => Err(e),
            Ok(s1) => match ident(chars, s1) {
                Ok((parent, s2)) => Ok((Some((parent, None)), s2)),
                Err(e) => Err(e),
            },
        }
    } else {
        Ok((None, s))
    }
}

/// `component Name specializes Parent[G] { body }`.
pub open spec fn component(chars: Seq<char>, s: State) -> Result<(AstView, State), Fault> {
    match expect(
        chars,
        s,
        kw(SpeadlTokenExtension::Component),
        Context::BeforeComponentName,
    ) {
        Err(e) => Err(e),
        Ok(s1) => match ident(chars, s1) {
            Err(e) => Err(e),
            Ok((name, s2)) => match specialization(chars, s2) {
                Err(e) => Err(e),
                Ok((specializes, s3)) => match generic(chars, s3) {
                    Err(e) => Err(e),
                    Ok((g, s4)) => match expect(
                        chars,
                        s4,
                        sym(CommonTokenView::Lbrace),
                        Context::BeforeComponentBody,
                    ) {
                        Err(e) => Err(e),
                        Ok(s5) => match component_body(chars, s5) {
                            Err(e) => Err(e),
                            Ok((items, s6)) => match expect(
                                chars,
                                s6,
                                sym(CommonTokenView::Rbrace),
                                Context::AfterComponentBody,
                            ) {
                                Ok(s7) => Ok(
                                    (
                                        AstView::Component {
                                            name,
                                            specializes,
                                            generic: g,
                                            body: Box::new(AstView::SEQ(items)),
                                        },
                                        s7,
                                    ),
                                ),
                                Err(e) => Err(e),
                            },
                        },
                    },
                },
            },
        },
    }
}

/// The paths of the `import a.b.c` declarations that open a file.
pub open spec fn imports(chars: Seq<char>, s: State) -> Result<(Seq<Seq<Seq<char>>>, State), Fault>
    decreases measure(chars, s),
{
    if s.0 == kw(SpeadlTokenExtension::Import) {
        match advance(chars, s) {
            Err(e) => Err(e),
            Ok(s1) => match path(chars, s1) {
                Err(e) => Err(e),
                Ok((p, s2)) => {
                    proof {
                        lemma_advance(chars, s);
                        lemma_path(chars, s1);
                    }
                    match imports(chars, s2) {
                        Ok((rest, s3)) => Ok((seq![p] + rest, s3)),
                        Err(e) => Err(e),
                    }
                },
            },
        }
    } else {
        Ok((Seq::empty(), s))
    }
}

/// The import nodes of a sequence of import paths.
pub open spec fn import_nodes(paths: Seq<Seq<Seq<char>>>) -> Seq<AstView> {
    paths.map_values(|p: Seq<Seq<char>>| AstView::Import { path: p, ast: None })
}

/// A file: imports, then `namespace a.b { component }`.
pub open spec fn namespace(chars: Seq<char>, s: State) -> Result<(AstView, State), Fault> {
    match imports(chars, s) {
        Err(e) => Err(e),
        Ok((ps, s1)) => match expect(
            chars,
            s1,
            kw(SpeadlTokenExtension::Namespace),
            Context::BeforeNamespacePath,
        ) {
            Err(e) => Err(e),
            Ok(s2) => match path(chars, s2) {
                Err(e) => Err(e),
                Ok((np, s3)) => match expect(
                    chars,
                    s3,
                    sym(CommonTokenView::Lbrace),
                    Context::BeforeNamespaceBody,
                ) {
                    Err(e) => Err(e),
                    Ok(s4) => match component(chars, s4) {
                        Err(e) => Err(e),
                        Ok((c, s5)) => match expect(
                            chars,
                            s5,
                            sym(CommonTokenView::Rbrace),
                            Context::AfterNamespaceBody,
                        ) {
                            Ok(s6) => Ok(
                                (
                                    AstView::SEQ(
                                        import_nodes(ps) + seq![
                                            AstView::Namespace { path: np, body: Box::new(c) },
                                        ],
                                    ),
                                    s6,
                                ),
                            ),
                            Err(e) => Err(e),
                        },
                    },
                },
            },
        },
    }
}

// Each rule, when it succeeds, leaves no more input than it found; the rules that
// must consume a token leave strictly less.

pub proof fn lemma_path_tail(chars: Seq<char>, s: State)
    ensures
        path_tail(chars, s) matches Ok((_, s1)) ==> measure(chars, s1) <= measure(chars, s),
    decreases measure(chars, s),
{
    if s.0 == sym(CommonTokenView::Dot) {
        lemma_advance(chars, s);
        if let Ok(s1) = advance(chars, s) {
            lemma_ident(chars, s1);
            if let Ok((_, s2)) = ident(chars, s1) {
                lemma_path_tail(chars, s2);
            }
        }
    }
}

pub proof fn lemma_path(chars: Seq<char>, s: State)
    ensures
        path(chars, s) matches Ok((_, s1)) ==> measure(chars, s1) < measure(chars, s),
{
    lemma_ident(chars, s);
    if let Ok((_, s1)) = ident(chars, s) {
        lemma_path_tail(chars, s1);
    }
}

pub proof fn lemma_generic(chars: Seq<char>, s: State)
    ensures
        generic(chars, s) matches Ok((_, s1)) ==> measure(chars, s1) <= measure(chars, s),
{
    lemma_advance(chars, s);
    if let Ok(s1) = advance(chars, s) {
        lemma_ident(chars, s1);
        if let Ok((_, s2)) = ident(chars, s1) {
            lemma_expect(
                chars,
                s2,
                sym(CommonTokenView::Rbracket),
                Context::AfterGenericParameterName,
            );
        }
    }
}

pub proof fn lemma_bind_target(chars: Seq<char>, s: State)
    ensures
        bind_target(chars, s) matches Ok((_, s1)) ==> measure(chars, s1) < measure(chars, s),
{
    lemma_ident(chars, s);
    if let Ok((_, s1)) = ident(chars, s) {
        lemma_advance(chars, s1);
        if let Ok(s2) = advance(chars, s1) {
            lemma_ident(chars, s2);
        }
    }
}

pub proof fn lemma_binds(chars: Seq<char>, s: State)
    ensures
        binds(chars, s) matches Ok((_, s1)) ==> measure(chars, s1) <= measure(chars, s),
    decreases measure(chars, s),
{
    if s.0 == kw(SpeadlTokenExtension::Bind) {
        lemma_advance(chars, s);
        if let Ok(s1) = advance(chars, s) {
            lemma_ident(chars, s1);
            if let Ok((_, s2)) = ident(chars, s1) {
                lemma_expect(chars, s2, kw(SpeadlTokenExtension::To), Context::AfterBindName);
                if let Ok(s3) = expect(
                    chars,
                    s2,
                    kw(SpeadlTokenExtension::To),
                    Context::AfterBindName,
                ) {
                    lemma_bind_target(chars, s3);
                    if let Ok((_, s4)) = bind_target(chars, s3) {
                        lemma_binds(chars, s4);
                    }
                }
            }
        }
    }
}

pub proof fn lemma_part_declaration(chars: Seq<char>, s: State)
    ensures
        part_declaration(chars, s) matches Ok((_, s1)) ==> measure(chars, s1) < measure(
            chars,
            s,
        ),
{
    lemma_ident(chars, s);
    if let Ok((_, s1)) = ident(chars, s) {
        lemma_expect(chars, s1, sym(CommonTokenView::Colon), Context::AfterPartName);
        if let Ok(s2) = expect(chars, s1, sym(CommonTokenView::Colon), Context::AfterPartName) {
            lemma_ident(chars, s2);
            if let Ok((_, s3)) = ident(chars, s2) {
                lemma_generic(chars, s3);
                if let Ok((_, s4)) = generic(chars, s3) {
                    lemma_expect(chars, s4, sym(CommonTokenView::Lbrace), Context::BeforePartBody);
                    if let Ok(s5) = expect(
                        chars,
                        s4,
                        sym(CommonTokenView::Lbrace),
                        Context::BeforePartBody,
                    ) {
                        lemma_binds(chars, s5);
                        if let Ok((_, s6)) = binds(chars, s5) {
                            lemma_expect(
                                chars,
                                s6,
                                sym(CommonTokenView::Rbrace),
                                Context::AfterPartBody,
                            );
                        }
                    }
                }
            }
        }
    }
}

pub proof fn lemma_provided(chars: Seq<char>, s: State)
    ensures
        provided(chars, s) matches Ok((_, s1)) ==> measure(chars, s1) < measure(chars, s),
{
    lemma_ident(chars, s);
    if let Ok((_, s1)) = ident(chars, s) {
        lemma_expect(chars, s1, sym(CommonTokenView::Colon), Context::AfterProvidedServiceName);
        if let Ok(s2) = expect(
            chars,
            s1,
            sym(CommonTokenView::Colon),
            Context::AfterProvidedServiceName,
        ) {
            lemma_ident(chars, s2);
            if let Ok((_, s3)) = ident(chars, s2) {
                lemma_advance(chars, s3);
                if let Ok(s4) = advance(chars, s3) {
                    lemma_ident(chars, s4);
                    if let Ok((_, s5)) = ident(chars, s4) {
                        lemma_expect(
                            chars,
                            s5,
                            sym(CommonTokenView::Dot),
                            Context::BetweenDelegatedPartAndServiceName,
                        );
                        if let Ok(s6) = expect(
                            chars,
                            s5,
                            sym(CommonTokenView::Dot),
                            Context::BetweenDelegatedPartAndServiceName,
                        ) {
                            lemma_ident(chars, s6);
                        }
                    }
                }
            }
        }
    }
}

} // verus!
