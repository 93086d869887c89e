use vstd::prelude::*;

verus! {

/// The characters that `char::is_whitespace` accepts (Unicode `White_Space`).
pub open spec fn is_whitespace(c: char) -> bool {
    ||| '\u{9}' <= c <= '\u{D}'
    ||| c == ' '
    ||| c == '\u{85}'
    ||| c == '\u{A0}'
    ||| c == '\u{1680}'
    ||| '\u{2000}' <= c <= '\u{200A}'
    ||| c == '\u{2028}'
    ||| c == '\u{2029}'
    ||| c == '\u{202F}'
    ||| c == '\u{205F}'
    ||| c == '\u{3000}'
}

/// The characters that make up identifiers and keywords: ASCII letters, digits and `_`.
pub open spec fn is_word_char(c: char) -> bool {
    ||| 'a' <= c <= 'z'
    ||| 'A' <= c <= 'Z'
    ||| '0' <= c <= '9'
    ||| c == '_'
}

/// The first position at or after `pos` that does not hold whitespace.
pub open spec fn skip_ws(chars: Seq<char>, pos: int) -> int
    decreases chars.len() - pos,
{
    if 0 <= pos < chars.len() && is_whitespace(chars[pos]) {
        skip_ws(chars, pos + 1)
    } else {
        pos
    }
}

/// The first position at or after `pos` that does not hold a word character.
pub open spec fn word_end(chars: Seq<char>, pos: int) -> int
    decreases chars.len() - pos,
{
    if 0 <= pos < chars.len() && is_word_char(chars[pos]) {
        word_end(chars, pos + 1)
    } else {
        pos
    }
}

/// The word (letters, digits, `_`) that starts at `pos`; empty where none does.
pub open spec fn word_at(chars: Seq<char>, pos: int) -> Seq<char> {
    if 0 <= pos <= chars.len() {
        chars.subrange(pos, word_end(chars, pos))
    } else {
        Seq::empty()
    }
}

/// The character at `pos`, if there is one.
pub open spec fn char_at(chars: Seq<char>, pos: int) -> Option<char> {
    if 0 <= pos < chars.len() {
        Some(chars[pos])
    } else {
        None
    }
}

pub proof fn lemma_skip_ws(chars: Seq<char>, pos: int)
    ensures
        pos <= skip_ws(chars, pos),
        pos <= chars.len() ==> skip_ws(chars, pos) <= chars.len(),
        pos >= chars.len() ==> skip_ws(chars, pos) == pos,
        0 <= pos ==> (skip_ws(chars, pos) < chars.len() ==> !is_whitespace(
            chars[skip_ws(chars, pos)],
        )),
    decreases chars.len() - pos,
{
    if 0 <= pos < chars.len() && is_whitespace(chars[pos]) {
        lemma_skip_ws(chars, pos + 1);
    }
}

pub proof fn lemma_word_end(chars: Seq<char>, pos: int)
    ensures
        pos <= word_end(chars, pos),
        pos <= chars.len() ==> word_end(chars, pos) <= chars.len(),
        0 <= pos < chars.len() && is_word_char(chars[pos]) ==> pos < word_end(chars, pos),
        forall|i: int| pos <= i < word_end(chars, pos) ==> is_word_char(#[trigger] chars[i]),
    decreases chars.len() - pos,
{
    if 0 <= pos < chars.len() && is_word_char(chars[pos]) {
        lemma_word_end(chars, pos + 1);
    }
}

/// The characters of `text`, in order.
pub fn chars_of(text: &str) -> (r: Vec<char>)
    ensures
        r@ == text@,
{
    broadcast use vstd::string::group_string_axioms;

    let mut chars: Vec<char> = Vec::new();
    for c in it: text.chars()
        invariant
            chars@ == it.seq().take(it.index() as int),
    {
        chars.push(c);
    }
    chars
}

/// A cursor over the characters of a source text.
pub struct CharReader {
    chars: Vec<char>,
    pos: usize,
}

impl CharReader {
    /// The characters of the source text.
    pub closed spec fn text(&self) -> Seq<char> {
        self.chars@
    }

    /// The position of the next character to read.
    pub closed spec fn position(&self) -> int {
        self.pos as int
    }

    /// A reader at the start of `file`.
    pub fn new(file: &str) -> (r: CharReader)
        ensures
            r.text() == file@,
            r.position() == 0,
    {
        CharReader { chars: chars_of(file), pos: 0 }
    }

    /// A reader over the same text, back at its start.
    pub fn reset(&self) -> (r: CharReader)
        ensures
            r.text() == self.text(),
            r.position() == 0,
    {
        let chars = self.chars.clone();
        assert(chars@ =~= self.chars@);
        CharReader { chars, pos: 0 }
    }

    /// The character under the cursor, `None` at the end of the text.
    pub fn current_char(&self) -> (r: Option<char>)
        ensures
            r == char_at(self.text(), self.position()),
    {
        if self.pos < self.chars.len() {
            Some(self.chars[self.pos])
        } else {
            None
        }
    }

    /// Moves past the character under the cursor; does nothing at the end of the text.
    pub fn next_char(&mut self)
        ensures
            final(self).text() == old(self).text(),
            final(self).position() == if old(self).position() < old(self).text().len() {
                old(self).position() + 1
            } else {
                old(self).position()
            },
    {
        if self.pos < self.chars.len() {
            self.pos = self.pos + 1;
        }
    }

    /// Moves past every whitespace character under the cursor.
    pub fn skip_whitespace(&mut self)
        ensures
            final(self).text() == old(self).text(),
            final(self).position() == skip_ws(old(self).text(), old(self).position()),
    {
        while self.pos < self.chars.len() && is_whitespace_char(self.chars[self.pos])
            invariant
                self.text() == old(self).text(),
                skip_ws(self.text(), self.position()) == skip_ws(
                    old(self).text(),
                    old(self).position(),
                ),
            decreases self.chars.len() - self.pos,
        {
            self.pos = self.pos + 1;
        }
    }

    /// Reads the word (letters, digits, `_`) that starts under the cursor.
    pub fn read_identifier(&mut self) -> (r: String)
        ensures
            final(self).text() == old(self).text(),
            final(self).position() == word_end(old(self).text(), old(self).position()),
            r@ == word_at(old(self).text(), old(self).position()),
    {
        let mut word = String::new();
        let start = self.pos;
        proof {
            lemma_word_end(self.text(), self.position());
            if start <= self.text().len() {
                assert(word@ =~= self.text().subrange(start as int, start as int));
            }
        }
        while self.pos < self.chars.len() && is_word_character(self.chars[self.pos])
            invariant
                self.text() == old(self).text(),
                start == old(self).position(),
                start <= self.pos <= word_end(self.text(), start as int),
                word_end(self.text(), self.position()) == word_end(self.text(), start as int),
                start <= self.text().len() ==> word@ == self.text().subrange(
                    start as int,
                    self.pos as int,
                ),
                start > self.text().len() ==> word@ == Seq::<char>::empty(),
            decreases self.chars.len() - self.pos,
        {
            proof {
                lemma_word_end(self.text(), self.position());
            }
            word.push(self.chars[self.pos]);
            self.pos = self.pos + 1;
            assert(word@ =~= self.text().subrange(start as int, self.pos as int));
        }
        proof {
            lemma_word_end(self.text(), self.position());
        }
        word
    }
}

/// `char::is_whitespace`, over the Unicode `White_Space` characters.
pub fn is_whitespace_char(c: char) -> (r: bool)
    ensures
        r == is_whitespace(c),
{
    ('\u{9}' <= c && c <= '\u{D}') || c == ' ' || c == '\u{85}' || c == '\u{A0}' || c == '\u{1680}'
        || ('\u{2000}' <= c && c <= '\u{200A}') || c == '\u{2028}' || c == '\u{2029}' || c
        == '\u{202F}' || c == '\u{205F}' || c == '\u{3000}'
}

/// Whether `c` may appear in an identifier or keyword.
pub fn is_word_character(c: char) -> (r: bool)
    ensures
        r == is_word_char(c),
{
    ('a' <= c && c <= 'z') || ('A' <= c && c <= 'Z') || ('0' <= c && c <= '9') || c == '_'
}

/// Trusted: `std::string::String::push` appends `ch` at the end of `s`, as its
/// documentation states; nothing here proves it.
pub assume_specification[ std::string::String::push ](s: &mut std::string::String, ch: char)
    ensures
        final(s)@ == old(s)@.push(ch),
;

} // verus!
