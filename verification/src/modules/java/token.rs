use vstd::prelude::*;

use crate::modules::common::token::{Keyword, Token as SharedToken, TokenView};

verus! {

/// The keywords of the Java subset.
#[derive(Clone, Copy, Debug, PartialEq, Eq, Structural)]
pub enum JavaTokenExtension {
    Package,
    Public,
    Class,
}

impl Keyword for JavaTokenExtension {
    fn same(&self, other: &Self) -> (r: bool) {
        *self == *other
    }
}

/// A Java token.
pub type Token = SharedToken<JavaTokenExtension>;

/// The value of a Java token.
pub type Tok = TokenView<JavaTokenExtension>;

} // verus!
