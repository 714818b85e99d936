//! Repetition combinators: apply a parser many times, counting or collecting its matches.
mod accumulator;
mod at_least;
mod at_least_collect;
mod count_collect;
mod many;
mod many_collect;
mod many_until_collect;
mod once_or_more;
mod once_or_more_collect;
mod once_or_more_until_collect;
mod once_up_to;
mod once_up_to_collect;
mod repeat;
mod up_to;
mod up_to_collect;

pub use accumulator::{CountAccumulator, MatchesAccumulator, RepetitionAccumulator};
pub use at_least::at_least;
pub use at_least_collect::at_least_collect;
pub use count_collect::count_collect;
pub use many::many;
pub use many_collect::many_collect;
pub use many_until_collect::many_until_collect;
pub use once_or_more::once_or_more;
pub use once_or_more_collect::once_or_more_collect;
pub use once_or_more_until_collect::once_or_more_until_collect;
pub use once_up_to::once_up_to;
pub use once_up_to_collect::once_up_to_collect;
pub use repeat::{
    collected, collected_until, count_text, counted, fail_run, mark_before, repeat_no_end,
    repeat_outcome, repeat_post, repeat_result, repeat_trace, repeat_with_end, successes,
};
pub use up_to::up_to;
pub use up_to_collect::up_to_collect;
