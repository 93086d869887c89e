use vstd::prelude::*;

use crate::modules::common::token::{Keyword, Token as SharedToken, TokenView};

verus! {

/// The keywords of SpeADL.
#[derive(Clone, Copy, Debug, PartialEq, Eq, Structural)]
pub enum SpeadlTokenExtension {
    Import,
    Namespace,
    Component,
    Specializes,
    Provides,
    Requires,
    Part,
    Bind,
    To,
}

impl Keyword for SpeadlTokenExtension {
    fn same(&self, other: &Self) -> (r: bool) {
        *self == *other
    }
}

/// A SpeADL token.
pub type Token = SharedToken<SpeadlTokenExtension>;

/// The value of a SpeADL token.
pub type Tok = TokenView<SpeadlTokenExtension>;

} // verus!
