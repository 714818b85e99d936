//! Parser combinators that build complex parsers from simpler ones.
mod any;
mod attempt;
mod between;
mod chain;
mod choice;
mod count;
mod either;
mod end_of_input;
mod is;
mod look_ahead;
pub mod many_output;
mod many_until;
mod maybe;
mod not_followed_by;
mod option;
pub mod repetition;
mod satisfy;
mod separated_by;
mod sequence;
mod success;

pub use any::{any, any_outcome};
pub use attempt::{attempt, attempt_outcome};
pub use between::between;
pub use chain::{chain_left, chain_outcome, chain_right, folds_left, folds_right};
pub use choice::{choice, choice_outcome};
pub use count::{count, count_outcome};
pub use either::{alternative_outcome, either};
pub use end_of_input::{end_of_input, end_of_input_outcome};
pub use is::{is, is_outcome};
pub use look_ahead::{look_ahead, look_ahead_outcome};
pub use many_output::{many_returned, ManyOutput};
pub use many_until::{many_until, until_post, until_prefix, until_result, until_trace};
pub use maybe::{maybe, maybe_outcome};
pub use not_followed_by::{not_followed_by, not_followed_by_outcome};
pub use option::option;
pub use repetition::{
    at_least, at_least_collect, count_collect, many, many_collect, many_until_collect, once_or_more,
    once_or_more_collect, once_or_more_until_collect, once_up_to, once_up_to_collect, up_to,
    up_to_collect, CountAccumulator, MatchesAccumulator, RepetitionAccumulator,
};
pub use satisfy::{satisfy, satisfy_outcome};
pub use separated_by::{
    separated_by0, separated_by1, separated_outcome, tail_collected, tail_pairs, tail_post,
    tail_result, tail_start, tail_trace,
};
pub use sequence::{many0, many0_up_to, many1, many1_up_to};
pub use success::success;
