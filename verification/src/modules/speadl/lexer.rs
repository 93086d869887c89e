use vstd::prelude::*;

use super::token::{SpeadlTokenExtension, Tok, Token};
use crate::modules::common::lexer::{char_at, is_word_char, is_word_character, skip_ws, word_at, word_end, CharReader};
use crate::modules::common::token::{CommonToken, CommonTokenView, Token as SharedToken, TokenView};

verus! {

/// The token that the word `w` forms: a keyword, or else an identifier.
pub open spec fn keyword(w: Seq<char>) -> Tok {
    if w == "import"@ {
        TokenView::Extended(SpeadlTokenExtension::Import)
    } else if w == "namespace"@ {
        TokenView::Extended(SpeadlTokenExtension::Namespace)
    } else if w == "component"@ {
        TokenView::Extended(SpeadlTokenExtension::Component)
    } else if w == "specializes"@ {
        TokenView::Extended(SpeadlTokenExtension::Specializes)
    } else if w == "provides"@ {
        TokenView::Extended(SpeadlTokenExtension::Provides)
    } else if w == "requires"@ {
        TokenView::Extended(SpeadlTokenExtension::Requires)
    } else if w == "part"@ {
        TokenView::Extended(SpeadlTokenExtension::Part)
    } else if w == "bind"@ {
        TokenView::Extended(SpeadlTokenExtension::Bind)
    } else if w == "to"@ {
        TokenView::Extended(SpeadlTokenExtension::To)
    } else {
        TokenView::Common(CommonTokenView::Identifier(w))
    }
}

/// The punctuation token that `c` forms on its own, if any.
pub open spec fn punctuation(c: char) -> Option<Tok> {
    if c == '.' {
        Some(TokenView::Common(CommonTokenView::Dot))
    } else if c == ':' {
        Some(TokenView::Common(CommonTokenView::Colon))
    } else if c == '=' {
        Some(TokenView::Common(CommonTokenView::Equals))
    } else if c == '{' {
        Some(TokenView::Common(CommonTokenView::Lbrace))
    } else if c == '}' {
        Some(TokenView::Common(CommonTokenView::Rbrace))
    } else if c == '[' {
        Some(TokenView::Common(CommonTokenView::Lbracket))
    } else if c == ']' {
        Some(TokenView::Common(CommonTokenView::Rbracket))
    } else {
        None
    }
}

/// One step of the SpeADL lexer from position `pos` of `chars`: the next token and
/// the position after it, or the character that starts no token.
pub open spec fn step(chars: Seq<char>, pos: int) -> Result<(Tok, int), char> {
    let p = skip_ws(chars, pos);
    match char_at(chars, p) {
        None => Ok((TokenView::Common(CommonTokenView::EOF), p)),
        Some(c) => match punctuation(c) {
            Some(t) => Ok((t, p + 1)),
            None => if is_word_char(c) {
                Ok((keyword(word_at(chars, p)), word_end(chars, p)))
            } else {
                Err(c)
            },
        },
    }
}

/// The token that a word read from the source forms.
fn classify(word: String) -> (t: Token)
    ensures
        t@ == keyword(word@),
{
    if word == "import".to_owned() {
        SharedToken::Extended(SpeadlTokenExtension::Import)
    } else if word == "namespace".to_owned() {
        SharedToken::Extended(SpeadlTokenExtension::Namespace)
    } else if word == "component".to_owned() {
        SharedToken::Extended(SpeadlTokenExtension::Component)
    } else if word == "specializes".to_owned() {
        SharedToken::Extended(SpeadlTokenExtension::Specializes)
    } else if word == "provides".to_owned() {
        SharedToken::Extended(SpeadlTokenExtension::Provides)
    } else if word == "requires".to_owned() {
        SharedToken::Extended(SpeadlTokenExtension::Requires)
    } else if word == "part".to_owned() {
        SharedToken::Extended(SpeadlTokenExtension::Part)
    } else if word == "bind".to_owned() {
        SharedToken::Extended(SpeadlTokenExtension::Bind)
    } else if word == "to".to_owned() {
        SharedToken::Extended(SpeadlTokenExtension::To)
    } else {
        SharedToken::Common(CommonToken::Identifier(word))
    }
}

/// The SpeADL lexer.
pub struct Lexer {
    reader: CharReader,
}

impl Lexer {
    /// The source text.
    pub closed spec fn text(&self) -> Seq<char> {
        self.reader.text()
    }

    /// The position of the next character to read.
    pub closed spec fn position(&self) -> int {
        self.reader.position()
    }

    /// A lexer at the start of `file`.
    pub fn new(file: &str) -> (r: Lexer)
        ensures
            r.text() == file@,
            r.position() == 0,
    {
        Lexer { reader: CharReader::new(file) }
    }

    /// A lexer over the same text as `lexer`, back at its start.
    pub fn from(lexer: &Lexer) -> (r: Lexer)
        ensures
            r.text() == lexer.text(),
            r.position() == 0,
    {
        Lexer { reader: lexer.reader.reset() }
    }

    /// Reads the next token, or returns the character that starts no token.
    pub fn try_next_token(&mut self) -> (r: Result<Token, char>)
        ensures
            final(self).text() == old(self).text(),
            match step(old(self).text(), old(self).position()) {
                Ok((t, p)) => r matches Ok(x) && x@ == t && final(self).position() == p,
                Err(c) => r matches Err(x) && x == c,
            },
    {
        self.reader.skip_whitespace();
        match self.reader.current_char() {
            None => Ok(SharedToken::Common(CommonToken::EOF)),
            Some(c) => {
                if c == '.' {
                    self.reader.next_char();
                    Ok(SharedToken::Common(CommonToken::Dot))
                } else if c == ':' {
                    self.reader.next_char();
                    Ok(SharedToken::Common(CommonToken::Colon))
                } else if c == '=' {
                    self.reader.next_char();
                    Ok(SharedToken::Common(CommonToken::Equals))
                } else if c == '{' {
                    self.reader.next_char();
                    Ok(SharedToken::Common(CommonToken::Lbrace))
                } else if c == '}' {
                    self.reader.next_char();
                    Ok(SharedToken::Common(CommonToken::Rbrace))
                } else if c == '[' {
                    self.reader.next_char();
                    Ok(SharedToken::Common(CommonToken::Lbracket))
                } else if c == ']' {
                    self.reader.next_char();
                    Ok(SharedToken::Common(CommonToken::Rbracket))
                } else if is_word_character(c) {
                    let word = self.reader.read_identifier();
                    Ok(classify(word))
                } else {
                    Err(c)
                }
            },
        }
    }

    /// Reads the next token; the text at the cursor must start a token.
    pub fn next_token(&mut self) -> (r: Token)
        requires
            step(old(self).text(), old(self).position()) is Ok,
        ensures
            final(self).text() == old(self).text(),
            r@ == step(old(self).text(), old(self).position())->Ok_0.0,
            final(self).position() == step(old(self).text(), old(self).position())->Ok_0.1,
    {
        match self.try_next_token() {
            Ok(t) => t,
            Err(_) => SharedToken::Common(CommonToken::EOF),
        }
    }
}

} // verus!
