use vstd::prelude::*;

verus! {

/// Why a lexer or parser rejected its input.
///
/// `T` is the token type of the language and `C` names the place in the
/// grammar where a token was expected.
#[derive(Clone, Debug, PartialEq, Eq)]
pub enum SyntaxError<T, C> {
    /// The lexer met a character that starts no token.
    InvalidCharacter(char),
    /// The parser expected the token `expected` and found `found`.
    Unexpected { found: T, expected: T, context: C },
    /// The parser expected an identifier and found `found`.
    ExpectedIdentifier { found: T },
    /// A component body holds no `provides` declaration; `found` stands where it was expected.
    MissingProvides { found: T },
}

impl<T: View, C> View for SyntaxError<T, C> {
    type V = SyntaxError<T::V, C>;

    open spec fn view(&self) -> SyntaxError<T::V, C> {
        match self {
            SyntaxError::InvalidCharacter(c) => SyntaxError::InvalidCharacter(*c),
            SyntaxError::Unexpected { found, expected, context } => SyntaxError::Unexpected {
                found: found@,
                expected: expected@,
                context: *context,
            },
            SyntaxError::ExpectedIdentifier { found } => SyntaxError::ExpectedIdentifier {
                found: found@,
            },
            SyntaxError::MissingProvides { found } => SyntaxError::MissingProvides {
                found: found@,
            },
        }
    }
}

} // verus!
