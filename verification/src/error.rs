//! The error type returned by parsers, and the mismatch detail that it may carry.
use crate::input::{position_text, Position};
use vstd::prelude::*;
use vstd::string::StringExecFns;

verus! {

broadcast use vstd::string::to_string_from_display_ensures_for_str;

/// The text of a character, as `char`'s `Display` writes it.
/// Trusted: `char::to_string` returns a string made of that one character.
#[verifier::external_body]
fn char_text(c: char) -> (s: String)
    ensures
        s@ == seq![c],
{
    c.to_string()
}

/// The decimal digits of a natural number, most significant first.
pub open spec fn decimal(n: nat) -> Seq<char>
    decreases n,
{
    if n < 10 {
        seq![digit_char(n)]
    } else {
        decimal(n / 10).push(digit_char(n % 10))
    }
}

/// The character of a decimal digit.
pub open spec fn digit_char(d: nat) -> char {
    if d == 0 {
        '0'
    } else if d == 1 {
        '1'
    } else if d == 2 {
        '2'
    } else if d == 3 {
        '3'
    } else if d == 4 {
        '4'
    } else if d == 5 {
        '5'
    } else if d == 6 {
        '6'
    } else if d == 7 {
        '7'
    } else if d == 8 {
        '8'
    } else {
        '9'
    }
}

/// The decimal text of a `usize`.
/// Trusted: `usize::to_string` writes the number in decimal, without sign or leading zeros.
#[verifier::external_body]
pub(crate) fn usize_text(n: usize) -> (s: String)
    ensures
        s@ == decimal(n as nat),
{
    n.to_string()
}

/// Concatenates two strings.
pub(crate) fn concat(a: String, b: &str) -> (s: String)
    ensures
        s@ == a@ + b@,
{
    a.concat(b)
}

/// A value that can describe what a parser expected or found.
pub trait MismatchElement {
    /// The text that describes this value.
    spec fn spec_text(&self) -> Seq<char>;

    /// Returns the text that describes this value.
    fn text(&self) -> (s: String)
        ensures
            s@ == self.spec_text(),
    ;
}

impl MismatchElement for char {
    open spec fn spec_text(&self) -> Seq<char> {
        seq![*self]
    }

    fn text(&self) -> (s: String) {
        char_text(*self)
    }
}

impl<'a> MismatchElement for &'a str {
    open spec fn spec_text(&self) -> Seq<char> {
        (**self)@
    }

    fn text(&self) -> (s: String) {
        (**self).to_string()
    }
}

impl MismatchElement for String {
    open spec fn spec_text(&self) -> Seq<char> {
        self@
    }

    fn text(&self) -> (s: String) {
        self.clone()
    }
}

/// What a [`Mismatch`] holds: what was expected and what was found, each as text.
pub struct MismatchView {
    pub expected: Option<Seq<char>>,
    pub found: Option<Seq<char>>,
}

/// Details of a failed match: what was expected and what was found.
#[derive(PartialEq, Debug)]
pub struct Mismatch {
    expected: Option<String>,
    found: Option<String>,
}

/// The text of an optional string.
pub open spec fn opt_text(s: Option<String>) -> Option<Seq<char>> {
    match s {
        Some(s) => Some(s@),
        None => None,
    }
}

impl View for Mismatch {
    type V = MismatchView;

    closed spec fn view(&self) -> MismatchView {
        MismatchView { expected: opt_text(self.expected), found: opt_text(self.found) }
    }
}

impl Mismatch {
    /// A mismatch with both an expectation and what was found.
    pub fn new<E1: MismatchElement, E2: MismatchElement>(expected: E1, found: E2) -> (m: Mismatch)
        ensures
            m@ == (MismatchView { expected: Some(expected.spec_text()), found: Some(found.spec_text()) }),
    {
        Mismatch { expected: Some(expected.text()), found: Some(found.text()) }
    }

    /// A mismatch that only states what was expected.
    pub fn without_found<E: MismatchElement>(expected: E) -> (m: Mismatch)
        ensures
            m@ == (MismatchView { expected: Some(expected.spec_text()), found: None }),
    {
        Mismatch { expected: Some(expected.text()), found: None }
    }

    /// A mismatch that only states what was found.
    pub fn without_expectation<E: MismatchElement>(found: E) -> (m: Mismatch)
        ensures
            m@ == (MismatchView { expected: None, found: Some(found.spec_text()) }),
    {
        Mismatch { expected: None, found: Some(found.text()) }
    }

    /// Replaces what this mismatch expected, keeping what it found.
    pub fn replace_expectation<E: MismatchElement>(&mut self, expected: E)
        ensures
            final(self)@ == (MismatchView { expected: Some(expected.spec_text()), found: old(self)@.found }),
    {
        self.expected = Some(expected.text());
    }

    /// The human-readable description of this mismatch.
    pub fn text(&self) -> (s: String)
        requires
            self@.expected is Some || self@.found is Some,
        ensures
            s@ == mismatch_text(self@),
    {
        match &self.expected {
            Some(expected) => match &self.found {
                Some(found) => {
                    let s = concat("Expected: ".to_string(), expected.as_str());
                    let s = concat(s, ", found: ");
                    concat(s, found.as_str())
                },
                None => concat("Expected: ".to_string(), expected.as_str()),
            },
            None => match &self.found {
                Some(found) => concat("Found: ".to_string(), found.as_str()),
                None => String::new(),
            },
        }
    }
}

/// The description of a mismatch, as [`Mismatch::text`] writes it.
pub open spec fn mismatch_text(m: MismatchView) -> Seq<char> {
    match m.expected {
        Some(e) => match m.found {
            Some(f) => "Expected: "@ + e + ", found: "@ + f,
            None => "Expected: "@ + e,
        },
        None => match m.found {
            Some(f) => "Found: "@ + f,
            None => Seq::empty(),
        },
    }
}

/// The error type returned by all parsers.
#[derive(Debug, PartialEq)]
pub enum Error {
    /// The next token did not satisfy the parser: the optional source name, the position of the
    /// offending token and an optional mismatch describing what was expected and found.
    UnexpectedToken(Option<String>, Position, Option<Mismatch>),
    /// The input was exhausted before the parser could match; optionally, what was expected.
    EndOfInput(Option<String>),
    /// A repetition's parser succeeded without consuming input, which would loop forever: the
    /// optional source name and the position where it happened.
    NonConsumingLoop(Option<String>, Position),
}

/// What an [`Error`] holds, with texts in place of strings.
pub enum ErrorView {
    UnexpectedToken(Option<Seq<char>>, Position, Option<MismatchView>),
    EndOfInput(Option<Seq<char>>),
    NonConsumingLoop(Option<Seq<char>>, Position),
}

impl Error {
    /// The human-readable description of this error.
    pub fn text(&self) -> (s: String)
        requires
            self@ matches ErrorView::UnexpectedToken(_, _, Some(m)) ==> m.expected is Some || m.found is Some,
        ensures
            s@ == error_text(self@),
    {
        match self {
            Error::UnexpectedToken(source_name, position, mismatch) => {
                let s = concat("Unexpected token at ".to_string(), located(source_name, position).as_str());
                match mismatch {
                    Some(mismatch) => {
                        let s = concat(s, ". ");
                        concat(s, mismatch.text().as_str())
                    },
                    None => concat(s, "."),
                }
            },
            Error::EndOfInput(Some(expected)) => {
                let s = concat("End of input reached when expected ".to_string(), expected.as_str());
                concat(s, ".")
            },
            Error::EndOfInput(None) => "End of input reached.".to_string(),
            Error::NonConsumingLoop(source_name, position) => {
                let s = concat(
                    "Non-consuming parser loop at ".to_string(),
                    located(source_name, position).as_str(),
                );
                concat(s, ".")
            },
        }
    }
}

/// The text of a place in the source: the source name, when there is one, and the position,
/// separated by a colon.
fn located(source_name: &Option<String>, position: &Position) -> (s: String)
    ensures
        s@ == location_text(opt_text(*source_name), *position),
{
    match source_name {
        Some(name) => {
            let s = concat(name.clone(), ":");
            concat(s, position.text().as_str())
        },
        None => position.text(),
    }
}

/// The text of a place in the source, as [`Error::text`] writes it.
pub open spec fn location_text(source_name: Option<Seq<char>>, position: Position) -> Seq<char> {
    match source_name {
        Some(name) => name + ":"@ + position_text(position),
        None => position_text(position),
    }
}

/// The description of an error, as [`Error::text`] writes it.
pub open spec fn error_text(e: ErrorView) -> Seq<char> {
    match e {
        ErrorView::UnexpectedToken(name, position, None) => "Unexpected token at "@ + location_text(
            name,
            position,
        ) + "."@,
        ErrorView::UnexpectedToken(name, position, Some(m)) => "Unexpected token at "@
            + location_text(name, position) + ". "@ + mismatch_text(m),
        ErrorView::EndOfInput(Some(expected)) => "End of input reached when expected "@ + expected
            + "."@,
        ErrorView::EndOfInput(None) => "End of input reached."@,
        ErrorView::NonConsumingLoop(name, position) => "Non-consuming parser loop at "@ + location_text(
            name,
            position,
        ) + "."@,
    }
}

/// The view of an optional mismatch.
pub open spec fn opt_mismatch(m: Option<Mismatch>) -> Option<MismatchView> {
    match m {
        Some(m) => Some(m@),
        None => None,
    }
}

impl View for Error {
    type V = ErrorView;

    open spec fn view(&self) -> ErrorView {
        match self {
            Error::UnexpectedToken(s, p, m) => ErrorView::UnexpectedToken(opt_text(*s), *p, opt_mismatch(*m)),
            Error::EndOfInput(e) => ErrorView::EndOfInput(opt_text(*e)),
            Error::NonConsumingLoop(s, p) => ErrorView::NonConsumingLoop(opt_text(*s), *p),
        }
    }
}

} // verus!
