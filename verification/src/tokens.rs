//! Tokens, as the token reader hands them out.

use vstd::prelude::*;

verus! {

/// A token: what it is, and the line and the column where it stands.
#[derive(Debug)]
pub struct Token {
    pub _data: Data,
    pub _line: usize,
    pub _char: usize,
}

/// What a token is.
#[derive(PartialEq, Eq, Clone, Hash, Debug)]
pub enum Data {
    Integer(String),
    Iden(String),
    Add,
    Sub,
    Div,
    Illegal,
}

} // verus!
