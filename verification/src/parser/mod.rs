pub mod lexer;

use vstd::prelude::*;

use self::lexer::token::Token;
use self::lexer::Lexer;
use crate::modules::common::error::SyntaxError;
use crate::modules::speadl::grammar::{
    advance,
    bind_target,
    binds,
    component,
    component_body,
    expect,
    generic,
    ident,
    imports,
    lemma_advance,
    lemma_bind_target,
    lemma_ident,
    lemma_part_declaration,
    lemma_path,
    lemma_provided,
    measure,
    namespace,
    part_declaration,
    parts,
    path,
    path_tail,
    provided,
    provided_list,
    provides,
    requirements,
    Context,
    Fault,
    State,
};
use crate::modules::speadl::token::Tok;

verus! {

/// The places where the recognizer expects one given token.
#[derive(Clone, Copy, Debug, PartialEq, Eq, Structural)]
pub enum Site {
    Part1,
    Part2,
    Part3,
    Part4,
    Part5,
    Provides1,
    Provides2,
    Requires,
    Component1,
    Component2,
    Component3,
    Component4,
    Namespace1,
    Namespace2,
    Namespace3,
}

/// Why the recognizer rejected its input.
pub type RecognizeError = SyntaxError<Token, Site>;

/// `site` stands at the place `context` of the SpeADL grammar; the closing bracket
/// of a generic parameter is checked in parts and in components alike.
pub open spec fn stands_at(site: Site, context: Context) -> bool {
    match context {
        Context::AfterPartName => site == Site::Part1,
        Context::AfterGenericParameterName => site == Site::Part2 || site == Site::Component2,
        Context::BeforePartBody => site == Site::Part3,
        Context::AfterBindName => site == Site::Part4,
        Context::AfterPartBody => site == Site::Part5,
        Context::AfterProvidedServiceName => site == Site::Provides1,
        Context::BetweenDelegatedPartAndServiceName => site == Site::Provides2,
        Context::AfterRequiredServiceName => site == Site::Requires,
        Context::BeforeComponentName => site == Site::Component1,
        Context::BeforeComponentBody => site == Site::Component3,
        Context::AfterComponentBody => site == Site::Component4,
        Context::BeforeNamespacePath => site == Site::Namespace1,
        Context::BeforeNamespaceBody => site == Site::Namespace2,
        Context::AfterNamespaceBody => site == Site::Namespace3,
    }
}

/// The recognizer's error `e` is the SpeADL parser's error `f`: same kind and
/// tokens, and a site that stands where `f` was raised.
pub open spec fn same_fault(e: SyntaxError<Tok, Site>, f: Fault) -> bool {
    match e {
        SyntaxError::InvalidCharacter(c) => f == SyntaxError::<Tok, Context>::InvalidCharacter(c),
        SyntaxError::Unexpected { found, expected, context: site } => match f {
            SyntaxError::Unexpected { found: f2, expected: e2, context } => found == f2
                && expected == e2 && stands_at(site, context),
            _ => false,
        },
        SyntaxError::ExpectedIdentifier { found } => f
            == SyntaxError::<Tok, Context>::ExpectedIdentifier { found },
        SyntaxError::MissingProvides { found } => f
            == SyntaxError::<Tok, Context>::MissingProvides { found },
    }
}

/// The recognizer's result `r`, with its state `after`, agrees with the outcome `o`
/// of a rule of the SpeADL grammar.
pub open spec fn agrees<A>(r: Result<(), RecognizeError>, after: State, o: Result<(A, State), Fault>) -> bool {
    match o {
        Ok((_, s)) => r is Ok && after == s,
        Err(f) => r matches Err(e) && same_fault(e@, f),
    }
}

/// The two outcomes end alike: both succeed in the same state, or both fail with the
/// same error.
pub open spec fn same_end<A>(a: Result<(A, State), Fault>, b: Result<(A, State), Fault>) -> bool {
    match a {
        Ok((_, s1)) => b matches Ok((_, s2)) && s1 == s2,
        Err(e1) => b matches Err(e2) && e1 == e2,
    }
}

/// A recognizer of SpeADL files: it stands_at the syntax and builds nothing.
pub struct Parser {
    pub lexer: Lexer,
    pub token: Token,
}

impl Parser {
    /// The source text.
    pub closed spec fn text(&self) -> Seq<char> {
        self.lexer.text()
    }

    /// The current token and the lexer's position after it.
    pub closed spec fn state(&self) -> State {
        (self.token@, self.lexer.position())
    }

    /// A recognizer at the start of `file`; its current token is the end of input
    /// until `next_token` reads the first one.
    pub fn new(file: &str) -> (r: Parser)
        ensures
            r.text() == file@,
            r.state() == (Token::EOF@, 0int),
    {
        Parser { lexer: Lexer::new(file), token: Token::EOF }
    }

    /// Reads the next token into `token`.
    pub fn try_next_token(&mut self) -> (r: Result<(), RecognizeError>)
        ensures
            final(self).text() == old(self).text(),
            match advance(old(self).text(), old(self).state()) {
                Ok(s) => r is Ok && final(self).state() == s,
                Err(f) => r matches Err(e) && same_fault(e@, f),
            },
    {
        match self.lexer.try_next_token() {
            Ok(t) => {
                self.token = t;
                Ok(())
            },
            Err(c) => Err(SyntaxError::InvalidCharacter(c)),
        }
    }

    /// Reads the next token into `token`; the text at the cursor must start a token.
    pub fn next_token(&mut self)
        requires
            advance(old(self).text(), old(self).state()) is Ok,
        ensures
            final(self).text() == old(self).text(),
            final(self).state() == advance(old(self).text(), old(self).state())->Ok_0,
    {
        let _ = self.try_next_token();
    }

    /// Consumes the current token if it is `t`.
    fn accept(&mut self, t: &Token) -> (r: Result<bool, RecognizeError>)
        ensures
            final(self).text() == old(self).text(),
            if old(self).token@ == t@ {
                match advance(old(self).text(), old(self).state()) {
                    Ok(s) => r == Ok::<bool, RecognizeError>(true) && final(self).state() == s,
                    Err(f) => r matches Err(e) && same_fault(e@, f),
                }
            } else {
                r == Ok::<bool, RecognizeError>(false) && final(self).state() == old(self).state()
            },
    {
        if self.token.same(t) {
            match self.try_next_token() {
                Ok(()) => Ok(true),
                Err(e) => Err(e),
            }
        } else {
            Ok(false)
        }
    }

    /// Consumes the token `t`, which must be the current one.
    fn expect(&mut self, t: Token, site: Site) -> (r: Result<(), RecognizeError>)
        ensures
            final(self).text() == old(self).text(),
            forall|context: Context|
                stands_at(site, context) ==> match #[trigger] expect(
                    old(self).text(),
                    old(self).state(),
                    t@,
                    context,
                ) {
                    Ok(s) => r is Ok && final(self).state() == s,
                    Err(f) => r matches Err(e) && same_fault(e@, f),
                },
    {
        match self.accept(&t) {
            Ok(true) => Ok(()),
            Ok(false) => Err(
                SyntaxError::Unexpected { found: self.token.duplicate(), expected: t, context: site },
            ),
            Err(e) => Err(e),
        }
    }

    /// Consumes an identifier, which must be the current token.
    fn ident(&mut self) -> (r: Result<(), RecognizeError>)
        ensures
            final(self).text() == old(self).text(),
            agrees(r, final(self).state(), ident(old(self).text(), old(self).state())),
    {
        match &self.token {
            Token::Identifier(_) => {},
            _ => {
                return Err(SyntaxError::ExpectedIdentifier { found: self.token.duplicate() });
            },
        }
        self.try_next_token()
    }

    /// A dotted path `a.b.c`.
    fn path(&mut self) -> (r: Result<(), RecognizeError>)
        ensures
            final(self).text() == old(self).text(),
            agrees(r, final(self).state(), path(old(self).text(), old(self).state())),
    {
        let ghost text = self.text();
        let ghost start = self.state();
        match self.ident() {
            Ok(()) => {},
            Err(e) => return Err(e),
        }
        loop
            invariant
                text == self.text(),
                text == old(self).text(),
                start == old(self).state(),
                ident(text, start) is Ok,
                same_end(path_tail(text, self.state()), path_tail(text, ident(text, start)->Ok_0.1)),
            decreases measure(text, self.state()),
        {
            let ghost s0 = self.state();
            match self.accept(&Token::Dot) {
                Err(e) => return Err(e),
                Ok(false) => return Ok(()),
                Ok(true) => {},
            }
            let ghost s1 = self.state();
            match self.ident() {
                Ok(()) => {},
                Err(e) => return Err(e),
            }
            proof {
                lemma_advance(text, s0);
                lemma_ident(text, s1);
            }
        }
    }

    /// An optional generic parameter `[T]`, whose closing bracket is checked by `site`.
    fn generic(&mut self, site: Site) -> (r: Result<(), RecognizeError>)
        requires
            stands_at(site, Context::AfterGenericParameterName),
        ensures
            final(self).text() == old(self).text(),
            agrees(r, final(self).state(), generic(old(self).text(), old(self).state())),
    {
        match self.accept(&Token::Lbracket) {
            Err(e) => Err(e),
            Ok(false) => Ok(()),
            Ok(true) => {
                match self.ident() {
                    Ok(()) => {},
                    Err(e) => return Err(e),
                }
                self.expect(Token::Rbracket, site)
            },
        }
    }

    /// The target of a binding: `part` or `part.service`.
    fn bind_target(&mut self) -> (r: Result<(), RecognizeError>)
        ensures
            final(self).text() == old(self).text(),
            agrees(r, final(self).state(), bind_target(old(self).text(), old(self).state())),
    {
        match self.ident() {
            Ok(()) => {},
            Err(e) => return Err(e),
        }
        match self.accept(&Token::Dot) {
            Err(e) => Err(e),
            Ok(false) => Ok(()),
            Ok(true) => self.ident(),
        }
    }

    /// The bindings of a part body.
    fn binds(&mut self) -> (r: Result<(), RecognizeError>)
        ensures
            final(self).text() == old(self).text(),
            agrees(r, final(self).state(), binds(old(self).text(), old(self).state())),
    {
        let ghost text = self.text();
        let ghost start = self.state();
        loop
            invariant
                text == self.text(),
                text == old(self).text(),
                start == old(self).state(),
                same_end(binds(text, self.state()), binds(text, start)),
            decreases measure(text, self.state()),
        {
            let ghost s0 = self.state();
            match self.accept(&Token::Bind) {
                Err(e) => return Err(e),
                Ok(false) => return Ok(()),
                Ok(true) => {},
            }
            let ghost s1 = self.state();
            match self.ident() {
                Ok(()) => {},
                Err(e) => return Err(e),
            }
            let ghost s2 = self.state();
            match self.expect(Token::To, Site::Part4) {
                Ok(()) => {},
                Err(e) => return Err(e),
            }
            let ghost s3 = self.state();
            match self.bind_target() {
                Ok(()) => {},
                Err(e) => return Err(e),
            }
            proof {
                lemma_advance(text, s0);
                lemma_ident(text, s1);
                crate::modules::speadl::grammar::lemma_expect(
                    text,
                    s2,
                    Token::To@,
                    Context::AfterBindName,
                );
                lemma_bind_target(text, s3);
            }
        }
    }

    /// What follows the keyword `part`: `name: Type[G] { binds }`.
    fn part_declaration(&mut self) -> (r: Result<(), RecognizeError>)
        ensures
            final(self).text() == old(self).text(),
            agrees(r, final(self).state(), part_declaration(old(self).text(), old(self).state())),
    {
        match self.ident() {
            Ok(()) => {},
            Err(e) => return Err(e),
        }
        match self.expect(Token::Colon, Site::Part1) {
            Ok(()) => {},
            Err(e) => return Err(e),
        }
        match self.ident() {
            Ok(()) => {},
            Err(e) => return Err(e),
        }
        match self.generic(Site::Part2) {
            Ok(()) => {},
            Err(e) => return Err(e),
        }
        match self.expect(Token::Lbrace, Site::Part3) {
            Ok(()) => {},
            Err(e) => return Err(e),
        }
        match self.binds() {
            Ok(()) => {},
            Err(e) => return Err(e),
        }
        self.expect(Token::Rbrace, Site::Part5)
    }

    /// The part declarations that close a component body.
    fn part(&mut self) -> (r: Result<(), RecognizeError>)
        ensures
            final(self).text() == old(self).text(),
            agrees(r, final(self).state(), parts(old(self).text(), old(self).state())),
    {
        let ghost text = self.text();
        let ghost start = self.state();
        loop
            invariant
                text == self.text(),
                text == old(self).text(),
                start == old(self).state(),
                same_end(parts(text, self.state()), parts(text, start)),
            decreases measure(text, self.state()),
        {
            let ghost s0 = self.state();
            match self.accept(&Token::Part) {
                Err(e) => return Err(e),
                Ok(false) => return Ok(()),
                Ok(true) => {},
            }
            let ghost s1 = self.state();
            match self.part_declaration() {
                Ok(()) => {},
                Err(e) => return Err(e),
            }
            proof {
                lemma_advance(text, s0);
                lemma_part_declaration(text, s1);
            }
        }
    }

    /// One provided service `name: Type` or `name: Type = part.service`.
    fn provided(&mut self) -> (r: Result<(), RecognizeError>)
        ensures
            final(self).text() == old(self).text(),
            agrees(r, final(self).state(), provided(old(self).text(), old(self).state())),
    {
        match self.ident() {
            Ok(()) => {},
            Err(e) => return Err(e),
        }
        match self.expect(Token::Colon, Site::Provides1) {
            Ok(()) => {},
            Err(e) => return Err(e),
        }
        match self.ident() {
            Ok(()) => {},
            Err(e) => return Err(e),
        }
        match self.accept(&Token::Equals) {
            Err(e) => Err(e),
            Ok(false) => Ok(()),
            Ok(true) => {
                match self.ident() {
                    Ok(()) => {},
                    Err(e) => return Err(e),
                }
                match self.expect(Token::Dot, Site::Provides2) {
                    Ok(()) => {},
                    Err(e) => return Err(e),
                }
                self.ident()
            },
        }
    }

    /// Provided services separated by `provides`, after a first `provides`.
    fn provided_list(&mut self) -> (r: Result<(), RecognizeError>)
        ensures
            final(self).text() == old(self).text(),
            agrees(r, final(self).state(), provided_list(old(self).text(), old(self).state())),
    {
        let ghost text = self.text();
        let ghost start = self.state();
        loop
            invariant
                text == self.text(),
                text == old(self).text(),
                start == old(self).state(),
                same_end(provided_list(text, self.state()), provided_list(text, start)),
            decreases measure(text, self.state()),
        {
            let ghost s0 = self.state();
            match self.provided() {
                Ok(()) => {},
                Err(e) => return Err(e),
            }
            let ghost s1 = self.state();
            match self.accept(&Token::Provides) {
                Err(e) => return Err(e),
                Ok(false) => return Ok(()),
                Ok(true) => {},
            }
            proof {
                lemma_provided(text, s0);
                lemma_advance(text, s1);
            }
        }
    }

    /// At least one provided service, then the parts of the component.
    fn provides(&mut self) -> (r: Result<(), RecognizeError>)
        ensures
            final(self).text() == old(self).text(),
            agrees(r, final(self).state(), provides(old(self).text(), old(self).state())),
    {
        match self.accept(&Token::Provides) {
            Err(e) => Err(e),
            Ok(false) => Err(SyntaxError::MissingProvides { found: self.token.duplicate() }),
            Ok(true) => {
                match self.provided_list() {
                    Ok(()) => {},
                    Err(e) => return Err(e),
                }
                self.part()
            },
        }
    }

    /// The required services that open a component body.
    fn requirements(&mut self) -> (r: Result<(), RecognizeError>)
        ensures
            final(self).text() == old(self).text(),
            agrees(r, final(self).state(), requirements(old(self).text(), old(self).state())),
    {
        let ghost text = self.text();
        let ghost start = self.state();
        loop
            invariant
                text == self.text(),
                text == old(self).text(),
                start == old(self).state(),
                same_end(requirements(text, self.state()), requirements(text, start)),
            decreases measure(text, self.state()),
        {
            let ghost s0 = self.state();
            match self.accept(&Token::Requires) {
                Err(e) => return Err(e),
                Ok(false) => return Ok(()),
                Ok(true) => {},
            }
            let ghost s1 = self.state();
            match self.ident() {
                Ok(()) => {},
                Err(e) => return Err(e),
            }
            let ghost s2 = self.state();
            match self.expect(Token::Colon, Site::Requires) {
                Ok(()) => {},
                Err(e) => return Err(e),
            }
            let ghost s3 = self.state();
            match self.ident() {
                Ok(()) => {},
                Err(e) => return Err(e),
            }
            proof {
                lemma_advance(text, s0);
                lemma_ident(text, s1);
                crate::modules::speadl::grammar::lemma_expect(
                    text,
                    s2,
                    Token::Colon@,
                    Context::AfterRequiredServiceName,
                );
                lemma_ident(text, s3);
            }
        }
    }

    /// A component body: required services, then provided services and parts.
    fn required_services(&mut self) -> (r: Result<(), RecognizeError>)
        ensures
            final(self).text() == old(self).text(),
            agrees(r, final(self).state(), component_body(old(self).text(), old(self).state())),
    {
        match self.requirements() {
            Ok(()) => {},
            Err(e) => return Err(e),
        }
        self.provides()
    }

    /// `component Name specializes Parent[G] { body }`.
    fn component(&mut self) -> (r: Result<(), RecognizeError>)
        ensures
            final(self).text() == old(self).text(),
            agrees(r, final(self).state(), component(old(self).text(), old(self).state())),
    {
        match self.expect(Token::Component, Site::Component1) {
            Ok(()) => {},
            Err(e) => return Err(e),
        }
        match self.ident() {
            Ok(()) => {},
            Err(e) => return Err(e),
        }
        match self.accept(&Token::Specializes) {
            Err(e) => return Err(e),
            Ok(false) => {},
            Ok(true) => match self.ident() {
                Ok(()) => {},
                Err(e) => return Err(e),
            },
        }
        match self.generic(Site::Component2) {
            Ok(()) => {},
            Err(e) => return Err(e),
        }
        match self.expect(Token::Lbrace, Site::Component3) {
            Ok(()) => {},
            Err(e) => return Err(e),
        }
        match self.required_services() {
            Ok(()) => {},
            Err(e) => return Err(e),
        }
        self.expect(Token::Rbrace, Site::Component4)
    }

    /// The `import` declarations that open a file.
    fn imports(&mut self) -> (r: Result<(), RecognizeError>)
        ensures
            final(self).text() == old(self).text(),
            agrees(r, final(self).state(), imports(old(self).text(), old(self).state())),
    {
        let ghost text = self.text();
        let ghost start = self.state();
        loop
            invariant
                text == self.text(),
                text == old(self).text(),
                start == old(self).state(),
                same_end(imports(text, self.state()), imports(text, start)),
            decreases measure(text, self.state()),
        {
            let ghost s0 = self.state();
            match self.accept(&Token::Import) {
                Err(e) => return Err(e),
                Ok(false) => return Ok(()),
                Ok(true) => {},
            }
            let ghost s1 = self.state();
            match self.path() {
                Ok(()) => {},
                Err(e) => return Err(e),
            }
            proof {
                lemma_advance(text, s0);
                lemma_path(text, s1);
            }
        }
    }

    /// Checks a whole file: imports, then `namespace a.b { component }`. It accepts
    /// exactly the files that the SpeADL parser parses, and stops where it stops.
    pub fn try_namespace(&mut self) -> (r: Result<(), RecognizeError>)
        ensures
            final(self).text() == old(self).text(),
            agrees(r, final(self).state(), namespace(old(self).text(), old(self).state())),
    {
        match self.imports() {
            Ok(()) => {},
            Err(e) => return Err(e),
        }
        match self.expect(Token::Namespace, Site::Namespace1) {
            Ok(()) => {},
            Err(e) => return Err(e),
        }
        match self.path() {
            Ok(()) => {},
            Err(e) => return Err(e),
        }
        match self.expect(Token::Lbrace, Site::Namespace2) {
            Ok(()) => {},
            Err(e) => return Err(e),
        }
        match self.component() {
            Ok(()) => {},
            Err(e) => return Err(e),
        }
        self.expect(Token::Rbrace, Site::Namespace3)
    }

    /// Checks a whole file, as `try_namespace`; the file must be well formed.
    pub fn namespace(&mut self)
        requires
            namespace(old(self).text(), old(self).state()) is Ok,
        ensures
            final(self).text() == old(self).text(),
            final(self).state() == namespace(old(self).text(), old(self).state())->Ok_0.1,
    {
        let _ = self.try_namespace();
    }
}

} // verus!
