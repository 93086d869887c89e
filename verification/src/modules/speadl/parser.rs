use vstd::prelude::*;

use super::grammar::{
    advance,
    bind_target,
    binds,
    component,
    component_body,
    expect,
    generic,
    ident,
    import_nodes,
    imports,
    lemma_advance,
    lemma_bind_target,
    lemma_ident,
    lemma_part_declaration,
    lemma_path,
    lemma_provided,
    measure,
    namespace,
    part_declaration,
    parts,
    path,
    path_tail,
    provided,
    provided_list,
    provides,
    requirements,
    specialization,
    Context,
    Fault,
    State,
};
use super::lexer::Lexer;
use super::token::{SpeadlTokenExtension, Token};
use crate::ast::{
    copy_strings,
    opt_value,
    lemma_seq_value,
    texts,
    values,
    Ast,
    AstView,
    ProvidedServiceImplementation,
    ServiceReference,
    Specializes,
};
use crate::modules::common::error::SyntaxError;
use crate::modules::common::token::{CommonToken, Token as SharedToken};

verus! {

/// A SpeADL syntax error.
pub type ParseError = SyntaxError<Token, Context>;

/// `r` is the error `e`.
pub open spec fn fails_with<A>(r: Result<A, ParseError>, e: Fault) -> bool {
    r matches Err(x) && x@ == e
}

/// `r` with `pre` put before the items it yields.
pub open spec fn prefixed<A>(pre: Seq<A>, r: Result<(Seq<A>, State), Fault>) -> Result<
    (Seq<A>, State),
    Fault,
> {
    match r {
        Ok((v, s)) => Ok((pre + v, s)),
        Err(e) => Err(e),
    }
}

/// The recursive-descent SpeADL parser.
pub struct Parser {
    pub lexer: Lexer,
    pub token: Token,
    source_dir: Option<String>,
    imports: Vec<Vec<String>>,
}

impl Parser {
    /// The source text.
    pub closed spec fn text(&self) -> Seq<char> {
        self.lexer.text()
    }

    /// The current token and the lexer's position after it.
    pub closed spec fn state(&self) -> State {
        (self.token@, self.lexer.position())
    }

    /// The paths of the imports read so far.
    pub closed spec fn imported(&self) -> Seq<Seq<Seq<char>>> {
        self.imports@.map_values(|p: Vec<String>| texts(p@))
    }

    /// The directory of the source file, where one was given.
    pub closed spec fn directory(&self) -> Option<Seq<char>> {
        match self.source_dir {
            Some(d) => Some(d@),
            None => None,
        }
    }

    /// Same text and directory.
    pub open spec fn same_file(&self, other: &Parser) -> bool {
        &&& self.text() == other.text()
        &&& self.directory() == other.directory()
    }

    /// Only the state moved: same text, imports and directory.
    pub open spec fn same_source(&self, other: &Parser) -> bool {
        &&& self.same_file(other)
        &&& self.imported() == other.imported()
    }

    /// A parser at the start of `file`; its current token is the end of input until
    /// `next_token` reads the first one.
    pub fn new(file: &str) -> (r: Parser)
        ensures
            r.text() == file@,
            r.state() == (SharedToken::<SpeadlTokenExtension>::Common(CommonToken::EOF)@, 0int),
            r.imported() == Seq::<Seq<Seq<char>>>::empty(),
            r.directory() == None::<Seq<char>>,
    {
        let r = Parser {
            lexer: Lexer::new(file),
            token: SharedToken::Common(CommonToken::EOF),
            source_dir: None,
            imports: Vec::new(),
        };
        assert(r.imported() =~= Seq::<Seq<Seq<char>>>::empty());
        r
    }

    /// A parser at the start of `file`, a file in the directory `source_dir`.
    pub fn new_with_path(file: &str, source_dir: Option<String>) -> (r: Parser)
        ensures
            r.text() == file@,
            r.state() == (SharedToken::<SpeadlTokenExtension>::Common(CommonToken::EOF)@, 0int),
            r.imported() == Seq::<Seq<Seq<char>>>::empty(),
            r.directory() == match source_dir {
                Some(d) => Some(d@),
                None => None,
            },
    {
        let mut parser = Self::new(file);
        parser.source_dir = source_dir;
        parser
    }

    /// The directory of the source file, where one was given.
    pub fn source_dir(&self) -> (r: Option<&String>)
        ensures
            self.directory() == match r {
                Some(d) => Some(d@),
                None => None::<Seq<char>>,
            },
    {
        match &self.source_dir {
            Some(d) => Some(d),
            None => None,
        }
    }

    /// Reads the next token into `token`.
    pub fn try_next_token(&mut self) -> (r: Result<(), ParseError>)
        ensures
            final(self).same_source(old(self)),
            match advance(old(self).text(), old(self).state()) {
                Ok(s) => r is Ok && final(self).state() == s,
                Err(e) => fails_with(r, e),
            },
    {
        match self.lexer.try_next_token() {
            Ok(t) => {
                self.token = t;
                Ok(())
            },
            Err(c) => Err(SyntaxError::InvalidCharacter(c)),
        }
    }

    /// Reads the next token into `token`; the text at the cursor must start a token.
    pub fn next_token(&mut self)
        requires
            advance(old(self).text(), old(self).state()) is Ok,
        ensures
            final(self).same_source(old(self)),
            final(self).state() == advance(old(self).text(), old(self).state())->Ok_0,
    {
        let _ = self.try_next_token();
    }

    /// Consumes the current token if it is `t`.
    fn accept(&mut self, t: &Token) -> (r: Result<bool, ParseError>)
        ensures
            final(self).same_source(old(self)),
            if old(self).token@ == t@ {
                match advance(old(self).text(), old(self).state()) {
                    Ok(s) => r == Ok::<bool, ParseError>(true) && final(self).state() == s,
                    Err(e) => fails_with(r, e),
                }
            } else {
                r == Ok::<bool, ParseError>(false) && final(self).state() == old(self).state()
            },
    {
        if self.token.same(t) {
            match self.try_next_token() {
                Ok(()) => Ok(true),
                Err(e) => Err(e),
            }
        } else {
            Ok(false)
        }
    }

    /// Consumes the token `expected`, which must be the current one.
    fn expect(&mut self, expected: Token, context: Context) -> (r: Result<(), ParseError>)
        ensures
            final(self).same_source(old(self)),
            match expect(old(self).text(), old(self).state(), expected@, context) {
                Ok(s) => r is Ok && final(self).state() == s,
                Err(e) => fails_with(r, e),
            },
    {
        match self.accept(&expected) {
            Ok(true) => Ok(()),
            Ok(false) => Err(
                SyntaxError::Unexpected { found: self.token.duplicate(), expected, context },
            ),
            Err(e) => Err(e),
        }
    }

    /// Consumes an identifier, which must be the current token.
    fn ident(&mut self) -> (r: Result<String, ParseError>)
        ensures
            final(self).same_source(old(self)),
            match ident(old(self).text(), old(self).state()) {
                Ok((name, s)) => r matches Ok(x) && x@ == name && final(self).state() == s,
                Err(e) => fails_with(r, e),
            },
    {
        let name = match &self.token {
            SharedToken::Common(CommonToken::Identifier(name)) => name.clone(),
            _ => {
                return Err(SyntaxError::ExpectedIdentifier { found: self.token.duplicate() });
            },
        };
        match self.try_next_token() {
            Ok(()) => Ok(name),
            Err(e) => Err(e),
        }
    }

    /// A dotted path `a.b.c`.
    fn path(&mut self) -> (r: Result<Vec<String>, ParseError>)
        ensures
            final(self).same_source(old(self)),
            match path(old(self).text(), old(self).state()) {
                Ok((p, s)) => r matches Ok(x) && texts(x@) == p && final(self).state() == s,
                Err(e) => fails_with(r, e),
            },
    {
        let ghost text = self.text();
        let ghost start = self.state();
        let first = match self.ident() {
            Ok(n) => n,
            Err(e) => return Err(e),
        };
        let mut names: Vec<String> = Vec::new();
        names.push(first);
        assert(texts(names@) =~= seq![ident(text, start)->Ok_0.0]);
        loop
            invariant
                self.same_source(old(self)),
                text == self.text(),
                text == old(self).text(),
                start == old(self).state(),
                prefixed(texts(names@), path_tail(text, self.state())) == path(text, start),
            decreases measure(text, self.state()),
        {
            let ghost s0 = self.state();
            match self.accept(&SharedToken::Common(CommonToken::Dot)) {
                Err(e) => return Err(e),
                Ok(false) => {
                    assert(texts(names@) + Seq::<Seq<char>>::empty() =~= texts(names@));
                    return Ok(names);
                },
                Ok(true) => {},
            }
            let ghost s1 = self.state();
            let name = match self.ident() {
                Ok(n) => n,
                Err(e) => return Err(e),
            };
            proof {
                lemma_advance(text, s0);
                lemma_ident(text, s1);
            }
            let ghost before = names@;
            names.push(name);
            proof {
                assert(texts(names@) =~= texts(before).push(name@));
                match path_tail(text, self.state()) {
                    Ok((rest, _)) => {
                        assert(texts(before) + (seq![name@] + rest) =~= texts(names@) + rest);
                    },
                    Err(_) => {},
                }
            }
        }
    }

    /// An optional generic parameter `[T]`.
    fn generic(&mut self) -> (r: Result<Option<String>, ParseError>)
        ensures
            final(self).same_source(old(self)),
            match generic(old(self).text(), old(self).state()) {
                Ok((g, s)) => r matches Ok(x) && final(self).state() == s && match x {
                    Some(n) => g == Some(n@),
                    None => g is None,
                },
                Err(e) => fails_with(r, e),
            },
    {
        match self.accept(&SharedToken::Common(CommonToken::Lbracket)) {
            Err(e) => Err(e),
            Ok(false) => Ok(None),
            Ok(true) => {
                let name = match self.ident() {
                    Ok(n) => n,
                    Err(e) => return Err(e),
                };
                match self.expect(
                    SharedToken::Common(CommonToken::Rbracket),
                    Context::AfterGenericParameterName,
                ) {
                    Ok(()) => Ok(Some(name)),
                    Err(e) => Err(e),
                }
            },
        }
    }

    /// The target of a binding: `part` or `part.service`.
    fn bind_target(&mut self) -> (r: Result<Vec<String>, ParseError>)
        ensures
            final(self).same_source(old(self)),
            match bind_target(old(self).text(), old(self).state()) {
                Ok((t, s)) => r matches Ok(x) && texts(x@) == t && final(self).state() == s,
                Err(e) => fails_with(r, e),
            },
    {
        let first = match self.ident() {
            Ok(n) => n,
            Err(e) => return Err(e),
        };
        let mut target: Vec<String> = Vec::new();
        target.push(first);
        match self.accept(&SharedToken::Common(CommonToken::Dot)) {
            Err(e) => Err(e),
            Ok(false) => {
                assert(texts(target@) =~= seq![first@]);
                Ok(target)
            },
            Ok(true) => {
                let second = match self.ident() {
                    Ok(n) => n,
                    Err(e) => return Err(e),
                };
                target.push(second);
                assert(texts(target@) =~= seq![first@, second@]);
                Ok(target)
            },
        }
    }

    /// The bindings of a part body.
    fn binds(&mut self) -> (r: Result<Vec<Ast>, ParseError>)
        ensures
            final(self).same_source(old(self)),
            match binds(old(self).text(), old(self).state()) {
                Ok((bs, s)) => r matches Ok(x) && values(x@) == bs && final(self).state() == s,
                Err(e) => fails_with(r, e),
            },
    {
        let ghost text = self.text();
        let ghost start = self.state();
        let mut nodes: Vec<Ast> = Vec::new();
        assert(values(nodes@) + binds(text, start)->Ok_0.0 =~= binds(text, start)->Ok_0.0);
        loop
            invariant
                self.same_source(old(self)),
                text == self.text(),
                text == old(self).text(),
                start == old(self).state(),
                prefixed(values(nodes@), binds(text, self.state())) == binds(text, start),
            decreases measure(text, self.state()),
        {
            let ghost s0 = self.state();
            match self.accept(&SharedToken::Extended(SpeadlTokenExtension::Bind)) {
                Err(e) => return Err(e),
                Ok(false) => {
                    assert(values(nodes@) + Seq::<AstView>::empty() =~= values(nodes@));
                    return Ok(nodes);
                },
                Ok(true) => {},
            }
            let ghost s1 = self.state();
            let name = match self.ident() {
                Ok(n) => n,
                Err(e) => return Err(e),
            };
            let ghost s2 = self.state();
            match self.expect(SharedToken::Extended(SpeadlTokenExtension::To), Context::AfterBindName) {
                Ok(()) => {},
                Err(e) => return Err(e),
            }
            let ghost s3 = self.state();
            let target = match self.bind_target() {
                Ok(t) => t,
                Err(e) => return Err(e),
            };
            proof {
                lemma_advance(text, s0);
                lemma_ident(text, s1);
                super::grammar::lemma_expect(
                    text,
                    s2,
                    SharedToken::<SpeadlTokenExtension>::Extended(SpeadlTokenExtension::To)@,
                    Context::AfterBindName,
                );
                lemma_bind_target(text, s3);
            }
            let node = Ast::Bind { name, target };
            let ghost before = nodes@;
            nodes.push(node);
            proof {
                assert(values(nodes@) =~= values(before).push(node@));
                match binds(text, self.state()) {
                    Ok((rest, _)) => {
                        assert(values(before) + (seq![node@] + rest) =~= values(nodes@) + rest);
                    },
                    Err(_) => {},
                }
            }
        }
    }

    /// What follows the keyword `part`: `name: Type[G] { binds }`.
    fn part_declaration(&mut self) -> (r: Result<Ast, ParseError>)
        ensures
            final(self).same_source(old(self)),
            match part_declaration(old(self).text(), old(self).state()) {
                Ok((a, s)) => r matches Ok(x) && x@ == a && final(self).state() == s,
                Err(e) => fails_with(r, e),
            },
    {
        let name = match self.ident() {
            Ok(n) => n,
            Err(e) => return Err(e),
        };
        match self.expect(SharedToken::Common(CommonToken::Colon), Context::AfterPartName) {
            Ok(()) => {},
            Err(e) => return Err(e),
        }
        let typ = match self.ident() {
            Ok(n) => n,
            Err(e) => return Err(e),
        };
        let generic = match self.generic() {
            Ok(g) => g,
            Err(e) => return Err(e),
        };
        match self.expect(SharedToken::Common(CommonToken::Lbrace), Context::BeforePartBody) {
            Ok(()) => {},
            Err(e) => return Err(e),
        }
        let bs = match self.binds() {
            Ok(b) => b,
            Err(e) => return Err(e),
        };
        match self.expect(SharedToken::Common(CommonToken::Rbrace), Context::AfterPartBody) {
            Ok(()) => {},
            Err(e) => return Err(e),
        }
        proof {
            lemma_seq_value(bs);
        }
        Ok(Ast::Part { name, typ, generic, body: Box::new(Ast::SEQ(bs)) })
    }

    /// The part declarations that close a component body.
    fn parts(&mut self) -> (r: Result<Vec<Ast>, ParseError>)
        ensures
            final(self).same_source(old(self)),
            match parts(old(self).text(), old(self).state()) {
                Ok((ps, s)) => r matches Ok(x) && values(x@) == ps && final(self).state() == s,
                Err(e) => fails_with(r, e),
            },
    {
        let ghost text = self.text();
        let ghost start = self.state();
        let mut nodes: Vec<Ast> = Vec::new();
        assert(values(nodes@) + parts(text, start)->Ok_0.0 =~= parts(text, start)->Ok_0.0);
        loop
            invariant
                self.same_source(old(self)),
                text == self.text(),
                text == old(self).text(),
                start == old(self).state(),
                prefixed(values(nodes@), parts(text, self.state())) == parts(text, start),
            decreases measure(text, self.state()),
        {
            let ghost s0 = self.state();
            match self.accept(&SharedToken::Extended(SpeadlTokenExtension::Part)) {
                Err(e) => return Err(e),
                Ok(false) => {
                    assert(values(nodes@) + Seq::<AstView>::empty() =~= values(nodes@));
                    return Ok(nodes);
                },
                Ok(true) => {},
            }
            let ghost s1 = self.state();
            let node = match self.part_declaration() {
                Ok(n) => n,
                Err(e) => return Err(e),
            };
            proof {
                lemma_advance(text, s0);
                lemma_part_declaration(text, s1);
            }
            let ghost before = nodes@;
            nodes.push(node);
            proof {
                assert(values(nodes@) =~= values(before).push(node@));
                match parts(text, self.state()) {
                    Ok((rest, _)) => {
                        assert(values(before) + (seq![node@] + rest) =~= values(nodes@) + rest);
                    },
                    Err(_) => {},
                }
            }
        }
    }

    /// One provided service `name: Type` or `name: Type = part.service`.
    fn provided(&mut self) -> (r: Result<Ast, ParseError>)
        ensures
            final(self).same_source(old(self)),
            match provided(old(self).text(), old(self).state()) {
                Ok((a, s)) => r matches Ok(x) && x@ == a && final(self).state() == s,
                Err(e) => fails_with(r, e),
            },
    {
        let name = match self.ident() {
            Ok(n) => n,
            Err(e) => return Err(e),
        };
        match self.expect(
            SharedToken::Common(CommonToken::Colon),
            Context::AfterProvidedServiceName,
        ) {
            Ok(()) => {},
            Err(e) => return Err(e),
        }
        let typ = match self.ident() {
            Ok(n) => n,
            Err(e) => return Err(e),
        };
        let implementation = match self.accept(&SharedToken::Common(CommonToken::Equals)) {
            Err(e) => return Err(e),
            Ok(false) => ProvidedServiceImplementation::Local,
            Ok(true) => {
                let part_name = match self.ident() {
                    Ok(n) => n,
                    Err(e) => return Err(e),
                };
                match self.expect(
                    SharedToken::Common(CommonToken::Dot),
                    Context::BetweenDelegatedPartAndServiceName,
                ) {
                    Ok(()) => {},
                    Err(e) => return Err(e),
                }
                let service_name = match self.ident() {
                    Ok(n) => n,
                    Err(e) => return Err(e),
                };
                ProvidedServiceImplementation::Delegated(ServiceReference { part_name, service_name })
            },
        };
        Ok(Ast::Provides { name, typ, implementation })
    }

    /// Provided services separated by `provides`, after a first `provides`.
    fn provided_list(&mut self) -> (r: Result<Vec<Ast>, ParseError>)
        ensures
            final(self).same_source(old(self)),
            match provided_list(old(self).text(), old(self).state()) {
                Ok((ps, s)) => r matches Ok(x) && values(x@) == ps && final(self).state() == s,
                Err(e) => fails_with(r, e),
            },
    {
        let ghost text = self.text();
        let ghost start = self.state();
        let mut nodes: Vec<Ast> = Vec::new();
        assert(values(nodes@) + provided_list(text, start)->Ok_0.0 =~= provided_list(
            text,
            start,
        )->Ok_0.0);
        loop
            invariant
                self.same_source(old(self)),
                text == self.text(),
                text == old(self).text(),
                start == old(self).state(),
                prefixed(values(nodes@), provided_list(text, self.state())) == provided_list(
                    text,
                    start,
                ),
            decreases measure(text, self.state()),
        {
            let ghost s0 = self.state();
            let node = match self.provided() {
                Ok(n) => n,
                Err(e) => return Err(e),
            };
            let ghost s1 = self.state();
            let ghost before = nodes@;
            nodes.push(node);
            assert(values(nodes@) =~= values(before).push(node@));
            match self.accept(&SharedToken::Extended(SpeadlTokenExtension::Provides)) {
                Err(e) => return Err(e),
                Ok(false) => {
                    assert(values(before) + seq![node@] =~= values(nodes@));
                    return Ok(nodes);
                },
                Ok(true) => {},
            }
            proof {
                lemma_provided(text, s0);
                lemma_advance(text, s1);
                match provided_list(text, self.state()) {
                    Ok((rest, _)) => {
                        assert(values(before) + (seq![node@] + rest) =~= values(nodes@) + rest);
                    },
                    Err(_) => {},
                }
            }
        }
    }

    /// At least one provided service, then the parts of the component.
    fn provides(&mut self) -> (r: Result<Vec<Ast>, ParseError>)
        ensures
            final(self).same_source(old(self)),
            match provides(old(self).text(), old(self).state()) {
                Ok((ps, s)) => r matches Ok(x) && values(x@) == ps && final(self).state() == s,
                Err(e) => fails_with(r, e),
            },
    {
        match self.accept(&SharedToken::Extended(SpeadlTokenExtension::Provides)) {
            Err(e) => Err(e),
            Ok(false) => Err(SyntaxError::MissingProvides { found: self.token.duplicate() }),
            Ok(true) => {
                let mut nodes = match self.provided_list() {
                    Ok(n) => n,
                    Err(e) => return Err(e),
                };
                let mut more = match self.parts() {
                    Ok(p) => p,
                    Err(e) => return Err(e),
                };
                let ghost a = nodes@;
                let ghost b = more@;
                nodes.append(&mut more);
                assert(values(nodes@) =~= values(a) + values(b));
                Ok(nodes)
            },
        }
    }

    /// The required services that open a component body.
    fn requirements(&mut self) -> (r: Result<Vec<Ast>, ParseError>)
        ensures
            final(self).same_source(old(self)),
            match requirements(old(self).text(), old(self).state()) {
                Ok((rs, s)) => r matches Ok(x) && values(x@) == rs && final(self).state() == s,
                Err(e) => fails_with(r, e),
            },
    {
        let ghost text = self.text();
        let ghost start = self.state();
        let mut nodes: Vec<Ast> = Vec::new();
        assert(values(nodes@) + requirements(text, start)->Ok_0.0 =~= requirements(
            text,
            start,
        )->Ok_0.0);
        loop
            invariant
                self.same_source(old(self)),
                text == self.text(),
                text == old(self).text(),
                start == old(self).state(),
                prefixed(values(nodes@), requirements(text, self.state())) == requirements(
                    text,
                    start,
                ),
            decreases measure(text, self.state()),
        {
            let ghost s0 = self.state();
            match self.accept(&SharedToken::Extended(SpeadlTokenExtension::Requires)) {
                Err(e) => return Err(e),
                Ok(false) => {
                    assert(values(nodes@) + Seq::<AstView>::empty() =~= values(nodes@));
                    return Ok(nodes);
                },
                Ok(true) => {},
            }
            let ghost s1 = self.state();
            let name = match self.ident() {
                Ok(n) => n,
                Err(e) => return Err(e),
            };
            let ghost s2 = self.state();
            match self.expect(
                SharedToken::Common(CommonToken::Colon),
                Context::AfterRequiredServiceName,
            ) {
                Ok(()) => {},
                Err(e) => return Err(e),
            }
            let ghost s3 = self.state();
            let typ = match self.ident() {
                Ok(n) => n,
                Err(e) => return Err(e),
            };
            proof {
                lemma_advance(text, s0);
                lemma_ident(text, s1);
                super::grammar::lemma_expect(
                    text,
                    s2,
                    SharedToken::<SpeadlTokenExtension>::Common(CommonToken::Colon)@,
                    Context::AfterRequiredServiceName,
                );
                lemma_ident(text, s3);
            }
            let node = Ast::Requires { name, typ };
            let ghost before = nodes@;
            nodes.push(node);
            proof {
                assert(values(nodes@) =~= values(before).push(node@));
                match requirements(text, self.state()) {
                    Ok((rest, _)) => {
                        assert(values(before) + (seq![node@] + rest) =~= values(nodes@) + rest);
                    },
                    Err(_) => {},
                }
            }
        }
    }

    /// `component Name specializes Parent[G] { body }`; the parent's file is left unread.
    fn component(&mut self) -> (r: Result<Ast, ParseError>)
        ensures
            final(self).same_source(old(self)),
            match component(old(self).text(), old(self).state()) {
                Ok((a, s)) => r matches Ok(x) && x@ == a && final(self).state() == s,
                Err(e) => fails_with(r, e),
            },
    {
        let ghost text = self.text();
        match self.expect(
            SharedToken::Extended(SpeadlTokenExtension::Component),
            Context::BeforeComponentName,
        ) {
            Ok(()) => {},
            Err(e) => return Err(e),
        }
        let name = match self.ident() {
            Ok(n) => n,
            Err(e) => return Err(e),
        };
        let ghost s2 = self.state();
        let specializes = match self.accept(
            &SharedToken::Extended(SpeadlTokenExtension::Specializes),
        ) {
            Err(e) => return Err(e),
            Ok(false) => None,
            Ok(true) => {
                let parent = match self.ident() {
                    Ok(n) => n,
                    Err(e) => return Err(e),
                };
                Some(Specializes { parent, parent_file: None })
            },
        };
        assert(specialization(text, s2) matches Ok((sp, s3)) && s3 == self.state() && sp == match specializes {
            Some(x) => Some((x.parent@, None::<Box<AstView>>)),
            None => None,
        });
        let generic = match self.generic() {
            Ok(g) => g,
            Err(e) => return Err(e),
        };
        match self.expect(SharedToken::Common(CommonToken::Lbrace), Context::BeforeComponentBody) {
            Ok(()) => {},
            Err(e) => return Err(e),
        }
        let ghost s5 = self.state();
        let mut items = match self.requirements() {
            Ok(n) => n,
            Err(e) => return Err(e),
        };
        let mut more = match self.provides() {
            Ok(p) => p,
            Err(e) => return Err(e),
        };
        let ghost a = items@;
        let ghost b = more@;
        items.append(&mut more);
        assert(values(items@) =~= values(a) + values(b));
        assert(component_body(text, s5) matches Ok((v, s6)) && v == values(items@) && s6
            == self.state());
        match self.expect(SharedToken::Common(CommonToken::Rbrace), Context::AfterComponentBody) {
            Ok(()) => {},
            Err(e) => return Err(e),
        }
        proof {
            lemma_seq_value(items);
        }
        Ok(Ast::Component { name, specializes, generic, body: Box::new(Ast::SEQ(items)) })
    }

    /// The `import` declarations that open a file; their paths are recorded.
    fn imports(&mut self) -> (r: Result<Vec<Ast>, ParseError>)
        ensures
            final(self).same_file(old(self)),
            match imports(old(self).text(), old(self).state()) {
                Ok((ps, s)) => r matches Ok(x) && values(x@) == import_nodes(ps) && final(self).state() == s && final(self).imported() == old(self).imported() + ps,
                Err(e) => fails_with(r, e),
            },
    {
        let ghost text = self.text();
        let ghost start = self.state();
        let ghost mut done: Seq<Seq<Seq<char>>> = Seq::empty();
        let mut nodes: Vec<Ast> = Vec::new();
        assert(values(nodes@) =~= import_nodes(done));
        assert(old(self).imported() + done =~= old(self).imported());
        assert(done + imports(text, start)->Ok_0.0 =~= imports(text, start)->Ok_0.0);
        loop
            invariant
                self.same_file(old(self)),
                text == self.text(),
                text == old(self).text(),
                start == old(self).state(),
                values(nodes@) == import_nodes(done),
                self.imported() == old(self).imported() + done,
                prefixed(done, imports(text, self.state())) == imports(text, start),
            decreases measure(text, self.state()),
        {
            let ghost s0 = self.state();
            match self.accept(&SharedToken::Extended(SpeadlTokenExtension::Import)) {
                Err(e) => return Err(e),
                Ok(false) => {
                    assert(done + Seq::<Seq<Seq<char>>>::empty() =~= done);
                    return Ok(nodes);
                },
                Ok(true) => {},
            }
            let ghost s1 = self.state();
            let p = match self.path() {
                Ok(p) => p,
                Err(e) => return Err(e),
            };
            proof {
                lemma_advance(text, s0);
                lemma_path(text, s1);
            }
            let ghost imported_before = self.imported();
            self.imports.push(copy_strings(&p));
            assert(self.imported() =~= imported_before.push(texts(p@)));
            let node = Ast::Import { path: p, ast: None };
            let ghost before = nodes@;
            nodes.push(node);
            proof {
                let d = done;
                done = done.push(texts(p@));
                assert(values(nodes@) =~= values(before).push(node@));
                assert(values(nodes@) =~= import_nodes(done));
                assert(self.imported() =~= old(self).imported() + done);
                match imports(text, self.state()) {
                    Ok((rest, _)) => {
                        assert(d + (seq![texts(p@)] + rest) =~= done + rest);
                    },
                    Err(_) => {},
                }
            }
        }
    }

    /// Parses a whole file: imports, then `namespace a.b { component }`.
    ///
    /// The file of the parent that the component specializes is not read here:
    /// `with_parent_file` records it once it has been read and parsed.
    pub fn try_namespace(&mut self) -> (r: Result<Ast, ParseError>)
        ensures
            final(self).same_file(old(self)),
            match namespace(old(self).text(), old(self).state()) {
                Ok((a, s)) => r matches Ok(x) && x@ == a && final(self).state() == s && final(self).imported() == old(self).imported() + imports(
                    old(self).text(),
                    old(self).state(),
                )->Ok_0.0,
                Err(e) => fails_with(r, e),
            },
    {
        let ghost text = self.text();
        let mut nodes = match self.imports() {
            Ok(n) => n,
            Err(e) => return Err(e),
        };
        let ghost paths = imports(text, old(self).state())->Ok_0.0;
        match self.expect(
            SharedToken::Extended(SpeadlTokenExtension::Namespace),
            Context::BeforeNamespacePath,
        ) {
            Ok(()) => {},
            Err(e) => return Err(e),
        }
        let path = match self.path() {
            Ok(p) => p,
            Err(e) => return Err(e),
        };
        match self.expect(SharedToken::Common(CommonToken::Lbrace), Context::BeforeNamespaceBody) {
            Ok(()) => {},
            Err(e) => return Err(e),
        }
        let body = match self.component() {
            Ok(c) => c,
            Err(e) => return Err(e),
        };
        match self.expect(SharedToken::Common(CommonToken::Rbrace), Context::AfterNamespaceBody) {
            Ok(()) => {},
            Err(e) => return Err(e),
        }
        attach_specialized_parent_to_imports(&mut nodes, &body);
        let node = Ast::Namespace { path, body: Box::new(body) };
        let ghost before = nodes@;
        nodes.push(node);
        assert(values(nodes@) =~= import_nodes(paths) + seq![node@]);
        proof {
            lemma_seq_value(nodes);
        }
        Ok(Ast::SEQ(nodes))
    }

    /// Parses a whole file, as `try_namespace`; the file must be well formed.
    pub fn namespace(&mut self) -> (r: Ast)
        requires
            namespace(old(self).text(), old(self).state()) is Ok,
        ensures
            final(self).same_file(old(self)),
            r@ == namespace(old(self).text(), old(self).state())->Ok_0.0,
            final(self).state() == namespace(old(self).text(), old(self).state())->Ok_0.1,
            final(self).imported() == old(self).imported() + imports(
                old(self).text(),
                old(self).state(),
            )->Ok_0.0,
    {
        match self.try_namespace() {
            Ok(a) => a,
            Err(_) => Ast::SEQ(Vec::new()),
        }
    }

    /// The first recorded import path that ends with `name`.
    pub fn find_import(&self, name: &String) -> (r: Option<Vec<String>>)
        ensures
            match r {
                Some(p) => exists|i: int|
                    first_path_ending_with(self.imported(), name@, i) && texts(p@)
                        == self.imported()[i],
                None => forall|i: int|
                    0 <= i < self.imported().len() ==> !ends_with(
                        #[trigger] self.imported()[i],
                        name@,
                    ),
            },
    {
        let mut i: usize = 0;
        while i < self.imports.len()
            invariant
                0 <= i <= self.imports.len(),
                forall|j: int| 0 <= j < i ==> !ends_with(#[trigger] self.imported()[j], name@),
            decreases self.imports.len() - i,
        {
            let p = &self.imports[i];
            assert(self.imported()[i as int] == texts(p@));
            if p.len() > 0 && p[p.len() - 1] == *name {
                assert(first_path_ending_with(self.imported(), name@, i as int));
                return Some(copy_strings(p));
            }
            i = i + 1;
        }
        None
    }
}


/// The path `p` is not empty and its last segment is `name`.
pub open spec fn ends_with(p: Seq<Seq<char>>, name: Seq<char>) -> bool {
    p.len() > 0 && p.last() == name
}

/// `paths[i]` is the first of `paths` that ends with `name`.
pub open spec fn first_path_ending_with(paths: Seq<Seq<Seq<char>>>, name: Seq<char>, i: int) -> bool {
    &&& 0 <= i < paths.len()
    &&& ends_with(paths[i], name)
    &&& forall|j: int| 0 <= j < i ==> !ends_with(#[trigger] paths[j], name)
}

/// `node` imports a path whose last segment is `name`.
pub open spec fn imports_name(node: AstView, name: Seq<char>) -> bool {
    node matches AstView::Import { path, .. } && ends_with(path, name)
}

/// `nodes[i]` is the first of `nodes` that imports a path ending with `name`.
pub open spec fn first_import_of(nodes: Seq<AstView>, name: Seq<char>, i: int) -> bool {
    &&& 0 <= i < nodes.len()
    &&& imports_name(nodes[i], name)
    &&& forall|j: int| 0 <= j < i ==> !imports_name(#[trigger] nodes[j], name)
}

/// `imports` after the parsed file of the component's parent is attached to the
/// first import that names the parent; unchanged where the component specializes
/// no parent, the parent's file is unknown, or no import names it.
pub open spec fn attached(imports: Seq<AstView>, component: AstView) -> Seq<AstView> {
    match component {
        AstView::Component { specializes: Some((parent, Some(file))), .. } => {
            if exists|i: int| first_import_of(imports, parent, i) {
                let i = choose|i: int| first_import_of(imports, parent, i);
                imports.update(
                    i,
                    AstView::Import { path: imports[i]->Import_path, ast: Some(file) },
                )
            } else {
                imports
            }
        },
        _ => imports,
    }
}

/// Attaches the parsed file of the parent that `component` specializes to the first
/// import that names that parent.
#[verifier::loop_isolation(false)]
pub fn attach_specialized_parent_to_imports(imports: &mut Vec<Ast>, component: &Ast)
    ensures
        values(final(imports)@) == attached(values(old(imports)@), component@),
{
    let spec = match component {
        Ast::Component { specializes: Some(s), .. } => s,
        _ => return ,
    };
    let parent_file = match &spec.parent_file {
        Some(f) => f,
        None => return ,
    };
    let parent = &spec.parent;
    let ghost nodes = values(imports@);
    let mut i: usize = 0;
    while i < imports.len()
        invariant
            0 <= i <= imports.len(),
            values(imports@) == nodes,
            imports@ == old(imports)@,
            forall|j: int| 0 <= j < i ==> !imports_name(#[trigger] nodes[j], parent@),
        decreases imports.len() - i,
    {
        let found = match &imports[i] {
            Ast::Import { path, .. } => path.len() > 0 && path[path.len() - 1] == *parent,
            _ => false,
        };
        assert(nodes[i as int] == imports@[i as int]@);
        if found {
            let path = match &imports[i] {
                Ast::Import { path, .. } => copy_strings(path),
                _ => Vec::new(),
            };
            assert(first_import_of(nodes, parent@, i as int));
            proof {
                let k = choose|k: int| first_import_of(nodes, parent@, k);
                if k < i {
                    assert(!imports_name(nodes[k], parent@));
                } else if k > i {
                    assert(!imports_name(nodes[i as int], parent@));
                }
                assert(k == i);
            }
            let node = Ast::Import { path, ast: Some(Box::new(parent_file.duplicate())) };
            let ghost file = component@->Component_specializes->Some_0.1->Some_0;
            assert(node@ == AstView::Import { path: nodes[i as int]->Import_path, ast: Some(file) });
            imports.set(i, node);
            assert(values(imports@) =~= nodes.update(i as int, node@));
            return ;
        }
        i = i + 1;
    }
    assert(!exists|k: int| first_import_of(nodes, parent@, k));
}

/// The tree of a parsed file once the parsed file of the parent that its component
/// specializes is known: the component records it, and so does the first import
/// that names the parent. Trees of another shape are left as they are.
pub open spec fn with_parent(tree: AstView, parent_file: Option<Box<AstView>>) -> AstView {
    match tree {
        AstView::SEQ(nodes) => if nodes.len() == 0 {
            tree
        } else {
            match nodes.last() {
                AstView::Namespace { path, body } => match *body {
                    AstView::Component {
                        name,
                        specializes: Some((parent, _)),
                        generic,
                        body: component_body,
                    } => {
                        let c = AstView::Component {
                            name,
                            specializes: Some((parent, parent_file)),
                            generic,
                            body: component_body,
                        };
                        AstView::SEQ(
                            attached(nodes.drop_last(), c) + seq![
                                AstView::Namespace { path, body: Box::new(c) },
                            ],
                        )
                    },
                    _ => tree,
                },
                _ => tree,
            }
        },
        _ => tree,
    }
}

/// Records `parent_file`, the parsed file of the parent that the component of
/// `tree` specializes, in the component and in the first import that names the parent.
pub fn with_parent_file(tree: Ast, parent_file: Option<Box<Ast>>) -> (r: Ast)
    ensures
        r@ == with_parent(tree@, opt_value(parent_file)),
{
    match tree {
        Ast::SEQ(mut nodes) => {
            proof {
                lemma_seq_value(nodes);
            }
            if nodes.len() == 0 {
                return Ast::SEQ(nodes);
            }
            let ghost all = nodes@;
            let last = match nodes.pop() {
                Some(x) => x,
                None => return Ast::SEQ(nodes),
            };
            assert(nodes@ == all.drop_last());
            assert(values(all).last() == last@);
            assert(values(all).drop_last() =~= values(nodes@));
            let ghost lv = last@;
            assert(tree@ == AstView::SEQ(values(all)));
            match last {
                Ast::Namespace { path, body } => {
                    let inner: Ast = *body;
                    assert(lv->Namespace_body == Box::new(inner@));
                    match inner {
                    Ast::Component {
                        name,
                        specializes: Some(sp),
                        generic,
                        body: component_body,
                    } => {
                        let c = Ast::Component {
                            name,
                            specializes: Some(Specializes { parent: sp.parent, parent_file }),
                            generic,
                            body: component_body,
                        };
                        attach_specialized_parent_to_imports(&mut nodes, &c);
                        assert(values(nodes@) == attached(values(all).drop_last(), c@));
                        let node = Ast::Namespace { path, body: Box::new(c) };
                        let ghost before = nodes@;
                        nodes.push(node);
                        assert(values(nodes@) =~= values(before) + seq![node@]);
                        proof {
                            lemma_seq_value(nodes);
                        }
                        Ast::SEQ(nodes)
                    },
                    other => {
                        let node = Ast::Namespace { path, body: Box::new(other) };
                        nodes.push(node);
                        assert(nodes@ =~= all);
                        proof {
                            lemma_seq_value(nodes);
                        }
                        Ast::SEQ(nodes)
                    },
                }
                },
                other => {
                    nodes.push(other);
                    assert(nodes@ =~= all);
                    proof {
                        lemma_seq_value(nodes);
                    }
                    Ast::SEQ(nodes)
                },
            }
        },
        other => other,
    }
}

} // verus!
