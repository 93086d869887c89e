use vstd::prelude::*;

use crate::modules::java::grammar::{
    access,
    advance,
    class,
    expect,
    function,
    ident,
    lemma_advance,
    lemma_expect,
    lemma_ident,
    measure,
    packages,
    Context,
    Fault,
    State,
};
use self::lexer::token::Token;
use self::lexer::Lexer;
use crate::ast::{lemma_seq_value, values, Ast, AstView};
use crate::modules::common::error::SyntaxError;

pub mod lexer;

verus! {

/// A syntax error of the Java subset.
pub type ParseError = SyntaxError<Token, Context>;

/// `r` is the error `e`.
pub open spec fn fails_with<A>(r: Result<A, ParseError>, e: Fault) -> bool {
    r matches Err(x) && x@ == e
}

/// `r` with `pre` put before the items it yields.
pub open spec fn prefixed<A>(pre: Seq<A>, r: Result<(Seq<A>, State), Fault>) -> Result<
    (Seq<A>, State),
    Fault,
> {
    match r {
        Ok((v, s)) => Ok((pre + v, s)),
        Err(e) => Err(e),
    }
}

/// The recursive-descent parser of the Java subset, over one-enum tokens.
pub struct Parser {
    pub lexer: Lexer,
    pub token: Token,
}

impl Parser {
    /// The source text.
    pub closed spec fn text(&self) -> Seq<char> {
        self.lexer.text()
    }

    /// The current token and the lexer's position after it.
    pub closed spec fn state(&self) -> State {
        (self.token@, self.lexer.position())
    }

    /// A parser at the start of `file`; its current token is the end of input until
    /// `next_token` reads the first one.
    pub fn new(file: &str) -> (r: Parser)
        ensures
            r.text() == file@,
            r.state() == (Token::EOF@, 0int),
    {
        Parser { lexer: Lexer::new(file), token: Token::EOF }
    }

    /// Reads the next token into `token`.
    pub fn try_next_token(&mut self) -> (r: Result<(), ParseError>)
        ensures
            final(self).text() == old(self).text(),
            match advance(old(self).text(), old(self).state()) {
                Ok(s) => r is Ok && final(self).state() == s,
                Err(e) => fails_with(r, e),
            },
    {
        match self.lexer.try_next_token() {
            Ok(t) => {
                self.token = t;
                Ok(())
            },
            Err(c) => Err(SyntaxError::InvalidCharacter(c)),
        }
    }

    /// Reads the next token into `token`; the text at the cursor must start a token.
    pub fn next_token(&mut self)
        requires
            advance(old(self).text(), old(self).state()) is Ok,
        ensures
            final(self).text() == old(self).text(),
            final(self).state() == advance(old(self).text(), old(self).state())->Ok_0,
    {
        let _ = self.try_next_token();
    }

    /// Consumes the current token if it is `t`.
    fn accept(&mut self, t: &Token) -> (r: Result<bool, ParseError>)
        ensures
            final(self).text() == old(self).text(),
            if old(self).token@ == t@ {
                match advance(old(self).text(), old(self).state()) {
                    Ok(s) => r == Ok::<bool, ParseError>(true) && final(self).state() == s,
                    Err(e) => fails_with(r, e),
                }
            } else {
                r == Ok::<bool, ParseError>(false) && final(self).state() == old(self).state()
            },
    {
        if self.token.same(t) {
            match self.try_next_token() {
                Ok(()) => Ok(true),
                Err(e) => Err(e),
            }
        } else {
            Ok(false)
        }
    }

    /// Consumes the token `expected`, which must be the current one.
    fn expect(&mut self, expected: Token, context: Context) -> (r: Result<(), ParseError>)
        ensures
            final(self).text() == old(self).text(),
            match expect(old(self).text(), old(self).state(), expected@, context) {
                Ok(s) => r is Ok && final(self).state() == s,
                Err(e) => fails_with(r, e),
            },
    {
        match self.accept(&expected) {
            Ok(true) => Ok(()),
            Ok(false) => Err(
                SyntaxError::Unexpected { found: self.token.duplicate(), expected, context },
            ),
            Err(e) => Err(e),
        }
    }

    /// Consumes an identifier, which must be the current token.
    fn ident(&mut self) -> (r: Result<String, ParseError>)
        ensures
            final(self).text() == old(self).text(),
            match ident(old(self).text(), old(self).state()) {
                Ok((name, s)) => r matches Ok(x) && x@ == name && final(self).state() == s,
                Err(e) => fails_with(r, e),
            },
    {
        let name = match &self.token {
            Token::Identifier(name) => name.clone(),
            _ => {
                return Err(SyntaxError::ExpectedIdentifier { found: self.token.duplicate() });
            },
        };
        match self.try_next_token() {
            Ok(()) => Ok(name),
            Err(e) => Err(e),
        }
    }

    /// An optional access modifier `public`.
    fn access(&mut self) -> (r: Result<Option<String>, ParseError>)
        ensures
            final(self).text() == old(self).text(),
            match access(old(self).text(), old(self).state()) {
                Ok((a, s)) => r matches Ok(x) && final(self).state() == s && match x {
                    Some(n) => a == Some(n@),
                    None => a is None,
                },
                Err(e) => fails_with(r, e),
            },
    {
        match self.accept(&Token::Public) {
            Ok(true) => Ok(Some("public".to_owned())),
            Ok(false) => Ok(None),
            Err(e) => Err(e),
        }
    }

    /// A method with no parameters and an empty body.
    fn function(&mut self) -> (r: Result<Ast, ParseError>)
        ensures
            final(self).text() == old(self).text(),
            match function(old(self).text(), old(self).state()) {
                Ok((a, s)) => r matches Ok(x) && x@ == a && final(self).state() == s,
                Err(e) => fails_with(r, e),
            },
    {
        let access = match self.access() {
            Ok(a) => a,
            Err(e) => return Err(e),
        };
        let typ = match self.ident() {
            Ok(n) => n,
            Err(e) => return Err(e),
        };
        let name = match self.ident() {
            Ok(n) => n,
            Err(e) => return Err(e),
        };
        match self.expect(Token::Lparentheses, Context::AfterFunctionName) {
            Ok(()) => {},
            Err(e) => return Err(e),
        }
        match self.expect(
            Token::Rparentheses,
            Context::AfterFunctionParameterList,
        ) {
            Ok(()) => {},
            Err(e) => return Err(e),
        }
        match self.expect(Token::Lbrace, Context::BeforeFunctionBody) {
            Ok(()) => {},
            Err(e) => return Err(e),
        }
        match self.expect(Token::Rbrace, Context::AfterFunctionBody) {
            Ok(()) => {},
            Err(e) => return Err(e),
        }
        Ok(Ast::Function { name, typ, access, body: None })
    }

    /// The package declarations that open a file.
    fn packages(&mut self) -> (r: Result<Vec<Ast>, ParseError>)
        ensures
            final(self).text() == old(self).text(),
            match packages(old(self).text(), old(self).state()) {
                Ok((ps, s)) => r matches Ok(x) && values(x@) == ps && final(self).state() == s,
                Err(e) => fails_with(r, e),
            },
    {
        let ghost text = self.text();
        let ghost start = self.state();
        let mut nodes: Vec<Ast> = Vec::new();
        assert(values(nodes@) + packages(text, start)->Ok_0.0 =~= packages(text, start)->Ok_0.0);
        loop
            invariant
                text == self.text(),
                text == old(self).text(),
                start == old(self).state(),
                prefixed(values(nodes@), packages(text, self.state())) == packages(text, start),
            decreases measure(text, self.state()),
        {
            let ghost s0 = self.state();
            match self.accept(&Token::Package) {
                Err(e) => return Err(e),
                Ok(false) => {
                    assert(values(nodes@) + Seq::<AstView>::empty() =~= values(nodes@));
                    return Ok(nodes);
                },
                Ok(true) => {},
            }
            let ghost s1 = self.state();
            let name = match self.ident() {
                Ok(n) => n,
                Err(e) => return Err(e),
            };
            let node = Ast::Package { name };
            let ghost before = nodes@;
            nodes.push(node);
            let ghost s2 = self.state();
            match self.expect(
                Token::Semicolon,
                Context::AfterPackageDeclaration,
            ) {
                Ok(()) => {},
                Err(e) => return Err(e),
            }
            proof {
                lemma_advance(text, s0);
                lemma_ident(text, s1);
                lemma_expect(
                    text,
                    s2,
                    Token::Semicolon@,
                    Context::AfterPackageDeclaration,
                );
                assert(values(nodes@) =~= values(before).push(node@));
                match packages(text, self.state()) {
                    Ok((rest, _)) => {
                        assert(values(before) + (seq![node@] + rest) =~= values(nodes@) + rest);
                    },
                    Err(_) => {},
                }
            }
        }
    }

    /// Parses a whole file: package declarations, then one class with one method.
    pub fn try_class(&mut self) -> (r: Result<Ast, ParseError>)
        ensures
            final(self).text() == old(self).text(),
            match class(old(self).text(), old(self).state()) {
                Ok((a, s)) => r matches Ok(x) && x@ == a && final(self).state() == s,
                Err(e) => fails_with(r, e),
            },
    {
        let mut nodes = match self.packages() {
            Ok(n) => n,
            Err(e) => return Err(e),
        };
        let access = match self.access() {
            Ok(a) => a,
            Err(e) => return Err(e),
        };
        match self.expect(Token::Class, Context::BeforeClassName) {
            Ok(()) => {},
            Err(e) => return Err(e),
        }
        let name = match self.ident() {
            Ok(n) => n,
            Err(e) => return Err(e),
        };
        match self.expect(Token::Lbrace, Context::BeforeClassBody) {
            Ok(()) => {},
            Err(e) => return Err(e),
        }
        let body = match self.function() {
            Ok(f) => f,
            Err(e) => return Err(e),
        };
        match self.expect(Token::Rbrace, Context::AfterClassBody) {
            Ok(()) => {},
            Err(e) => return Err(e),
        }
        let node = Ast::Class { name, access, body: Box::new(body) };
        let ghost before = nodes@;
        nodes.push(node);
        assert(values(nodes@) =~= values(before) + seq![node@]);
        proof {
            lemma_seq_value(nodes);
        }
        Ok(Ast::SEQ(nodes))
    }

    /// Parses a whole file, as `try_class`; the file must be well formed.
    pub fn class(&mut self) -> (r: Ast)
        requires
            class(old(self).text(), old(self).state()) is Ok,
        ensures
            final(self).text() == old(self).text(),
            r@ == class(old(self).text(), old(self).state())->Ok_0.0,
            final(self).state() == class(old(self).text(), old(self).state())->Ok_0.1,
    {
        match self.try_class() {
            Ok(a) => a,
            Err(_) => Ast::SEQ(Vec::new()),
        }
    }
}

} // verus!
