//! A parser combinator library whose combinators are verified with Verus.
//!
//! Parsers are closures `Fn(&mut Input<IT>) -> Result<O, Error>`. Every combinator states, in
//! its contract, how the returned parser's outcome and its effect on the input follow from the
//! runs of its argument parsers.
pub mod combinators;
pub mod error;
pub mod input;
pub mod laws;
pub mod parser;

pub use error::{Error, Mismatch, MismatchElement};
pub use input::{CharToken, Input, InputToken, StringInput};
pub use parser::{and, and_then, discard, exhaustive, with_expectation, Parser, StringParser};
pub use combinators::{
    any, at_least, at_least_collect, attempt, between, chain_left, chain_right, choice, count,
    count_collect, either, end_of_input, is, look_ahead, many, many0, many0_up_to, many1,
    many1_up_to, many_collect, many_until, many_until_collect, maybe, not_followed_by, once_or_more,
    once_or_more_collect, once_or_more_until_collect, once_up_to, once_up_to_collect, option,
    satisfy, separated_by0, separated_by1, success, up_to, up_to_collect, ManyOutput,
};
