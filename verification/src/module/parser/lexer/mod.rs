pub mod token;

use vstd::prelude::*;

use self::token::{representable, Token};
use crate::modules::java::lexer::{keyword, punctuation, step, Lexer as JavaLexer};
use crate::modules::common::lexer::{char_at, is_word_char, skip_ws, word_at};

verus! {

/// Every token that the Java lexer reads fits the one-enum token type.
pub proof fn lemma_step_representable(chars: Seq<char>, pos: int)
    ensures
        step(chars, pos) matches Ok((t, _)) ==> representable(t),
{
    let p = skip_ws(chars, pos);
    if let Some(c) = char_at(chars, p) {
        if punctuation(c) is None && is_word_char(c) {
            let w = word_at(chars, p);
            assert(representable(keyword(w)));
        }
    }
}

/// The lexer of the Java subset, yielding one-enum tokens.
pub struct Lexer {
    inner: JavaLexer,
}

impl Lexer {
    /// The source text.
    pub closed spec fn text(&self) -> Seq<char> {
        self.inner.text()
    }

    /// The position of the next character to read.
    pub closed spec fn position(&self) -> int {
        self.inner.position()
    }

    /// A lexer at the start of `file`.
    pub fn new(file: &str) -> (r: Lexer)
        ensures
            r.text() == file@,
            r.position() == 0,
    {
        Lexer { inner: JavaLexer::new(file) }
    }

    /// Reads the next token, or returns the character that starts no token.
    pub fn try_next_token(&mut self) -> (r: Result<Token, char>)
        ensures
            final(self).text() == old(self).text(),
            match step(old(self).text(), old(self).position()) {
                Ok((t, p)) => r matches Ok(x) && x@ == t && final(self).position() == p,
                Err(c) => r matches Err(x) && x == c,
            },
    {
        proof {
            lemma_step_representable(self.text(), self.position());
        }
        match self.inner.try_next_token() {
            Ok(t) => Ok(Token::from_shared(t)),
            Err(c) => Err(c),
        }
    }

    /// Reads the next token; the text at the cursor must start a token.
    pub fn next_token(&mut self) -> (r: Token)
        requires
            step(old(self).text(), old(self).position()) is Ok,
        ensures
            final(self).text() == old(self).text(),
            r@ == step(old(self).text(), old(self).position())->Ok_0.0,
            final(self).position() == step(old(self).text(), old(self).position())->Ok_0.1,
    {
        match self.try_next_token() {
            Ok(t) => t,
            Err(_) => Token::EOF,
        }
    }
}

} // verus!
