//! The lexical tokens that the parser consumes.

use crate::located::Located;
use vstd::prelude::*;

verus! {

/// What a token is, with its payload.
#[derive(Clone, Debug, PartialEq)]
pub enum TokenData {
    Boolean(bool),
    Integer(i32),
    /// An inexact literal, kept as written.
    Real(String),
    Rational(i32, u32),
    Identifier(String),
    Character(char),
    String(String),
    LeftParen,
    RightParen,
    /// The opener `#(` of a vector literal.
    VecConsIntro,
    /// The prefix `'`.
    Quote,
    /// The separator `.`.
    Period,
}

/// A token and its position in the source.
pub type Token = Located<TokenData>;

/// The mathematical content of a [`TokenData`].
pub enum TokenDataView {
    Boolean(bool),
    Integer(i32),
    Real(Seq<char>),
    Rational(i32, u32),
    Identifier(Seq<char>),
    Character(char),
    String(Seq<char>),
    LeftParen,
    RightParen,
    VecConsIntro,
    Quote,
    Period,
}

pub type TokenView = Located<TokenDataView>;

impl View for TokenData {
    type V = TokenDataView;

    open spec fn view(&self) -> TokenDataView {
        match self {
            TokenData::Boolean(b) => TokenDataView::Boolean(*b),
            TokenData::Integer(n) => TokenDataView::Integer(*n),
            TokenData::Real(text) => TokenDataView::Real(text@),
            TokenData::Rational(n, d) => TokenDataView::Rational(*n, *d),
            TokenData::Identifier(name) => TokenDataView::Identifier(name@),
            TokenData::Character(c) => TokenDataView::Character(*c),
            TokenData::String(text) => TokenDataView::String(text@),
            TokenData::LeftParen => TokenDataView::LeftParen,
            TokenData::RightParen => TokenDataView::RightParen,
            TokenData::VecConsIntro => TokenDataView::VecConsIntro,
            TokenData::Quote => TokenDataView::Quote,
            TokenData::Period => TokenDataView::Period,
        }
    }
}

} // verus!
