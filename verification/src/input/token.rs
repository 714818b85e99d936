use super::position::Position;
use crate::error::MismatchElement;
use vstd::prelude::*;

verus! {

/// An element of an input stream: a token together with its position in the source.
pub trait InputToken: Sized {
    /// The token that parsers match against.
    type Token;

    /// The token this element carries.
    spec fn spec_token(&self) -> Self::Token;

    /// The position of this element in the source.
    spec fn spec_position(&self) -> Position;

    /// The text that describes a token in error messages.
    spec fn spec_token_text(token: Self::Token) -> Seq<char>;

    /// Returns a reference to the token.
    fn token(&self) -> (t: &Self::Token)
        ensures
            *t == self.spec_token(),
    ;

    /// Returns the token, consuming this element.
    fn token_owned(self) -> (t: Self::Token)
        ensures
            t == self.spec_token(),
    ;

    /// Returns the position of this element in the source.
    fn position(&self) -> (p: Position)
        ensures
            p == self.spec_position(),
    ;

    /// Returns a copy of this element.
    fn duplicate(&self) -> (c: Self)
        ensures
            c == *self,
    ;

    /// Returns a copy of a token.
    fn duplicate_token(token: &Self::Token) -> (c: Self::Token)
        ensures
            c == *token,
    ;

    /// Whether two tokens are equal.
    fn same_token(a: &Self::Token, b: &Self::Token) -> (r: bool)
        ensures
            r == (*a == *b),
    ;

    /// Returns the text that describes a token in error messages.
    fn token_text(token: &Self::Token) -> (s: String)
        ensures
            s@ == Self::spec_token_text(*token),
    ;
}

/// A character read from a string input, together with its position.
#[derive(Clone, Copy, PartialEq, Eq, Debug, Structural)]
pub struct CharToken {
    pub token: char,
    pub position: Position,
}

impl CharToken {
    /// Creates a character token at the given position.
    pub fn new(token: char, position: Position) -> (t: CharToken)
        ensures
            t.token == token,
            t.position == position,
    {
        CharToken { token, position }
    }
}

impl InputToken for CharToken {
    type Token = char;

    open spec fn spec_token(&self) -> char {
        self.token
    }

    open spec fn spec_position(&self) -> Position {
        self.position
    }

    open spec fn spec_token_text(token: char) -> Seq<char> {
        seq![token]
    }

    fn token(&self) -> (t: &char) {
        &self.token
    }

    fn token_owned(self) -> (t: char) {
        self.token
    }

    fn position(&self) -> (p: Position) {
        self.position
    }

    fn duplicate(&self) -> (c: CharToken) {
        *self
    }

    fn duplicate_token(token: &char) -> (c: char) {
        *token
    }

    fn same_token(a: &char, b: &char) -> (r: bool) {
        *a == *b
    }

    fn token_text(token: &char) -> (s: String) {
        token.text()
    }
}

} // verus!
