use crate::combinators::repetition::{
    fail_run, repeat_no_end, repeat_post, repeat_result, repeat_trace, MatchesAccumulator,
    RepetitionAccumulator,
};
use crate::error::{Error, ErrorView};
use crate::input::{parser_step, Input, InputToken};
use crate::parser::{fails_with, total, Parser, Run};
use vstd::prelude::*;

verus! {

/// What a repetition gives on success: its matches, or only their number.
pub enum ManyOutput<T> {
    /// The matches, in order.
    Matches(Vec<T>),
    /// The number of matches.
    Count(usize),
}

/// `r` is what [`many`] returns for the outcome `res`: the matches when `store_matches`, their
/// number otherwise.
pub open spec fn many_returned<O>(
    store_matches: bool,
    r: Result<ManyOutput<O>, Error>,
    res: Result<(Seq<O>, Option<()>), ErrorView>,
) -> bool {
    match res {
        Ok((matches, _)) => if store_matches {
            r matches Ok(ManyOutput::Matches(v)) && v@ == matches
        } else {
            r == Ok::<ManyOutput<O>, Error>(ManyOutput::Count(matches.len() as usize))
        },
        Err(e) => fails_with(r, e),
    }
}

/// Parses between `min_match_count` and `max_match_count` occurrences of `parser` (no upper
/// bound when `None`), and returns them, or only their number when `store_matches` is false. It
/// fails with the error of `parser` when that fails before `min_match_count` matches, when
/// `parser` matches once more than `max_match_count`, and when a match consumed no input.
pub fn many<'a, P, IT: InputToken, O>(
    parser: &'a P,
    min_match_count: usize,
    max_match_count: Option<usize>,
    store_matches: bool,
) -> (res: impl Parser<IT, ManyOutput<O>> + 'a) where P: Parser<IT, O>,
    requires
        total(*parser),
        forall|i: &mut Input<IT>, r: Result<O, Error>|
            #[trigger] call_ensures(*parser, (i,), r) ==> final(i).wf() && parser_step(i@, final(i)@),
    ensures
        total(res),
        forall|i: &mut Input<IT>, r: Result<ManyOutput<O>, Error>|
            #[trigger] call_ensures(res, (i,), r) ==> {
                &&& final(i).wf()
                &&& parser_step(i@, final(i)@)
                &&& exists|ends: Seq<Run<IT, ()>>, items: Seq<Run<IT, O>>|
                    {
                        &&& forall|k: int| 0 <= k < ends.len() ==> fail_run(#[trigger] ends[k])
                        &&& forall|k: int| #![trigger items[k]]
                            0 <= k < items.len() ==> exists|j: &mut Input<IT>|
                                #[trigger] call_ensures(*parser, (j,), items[k].out) && j@ == items[k].pre
                                    && final(j)@ == items[k].post
                        &&& repeat_trace(max_match_count, i@, ends, items)
                        &&& final(i)@ == repeat_post(ends, items)
                        &&& many_returned(
                            store_matches,
                            r,
                            repeat_result::<IT, O, ()>(min_match_count, max_match_count, false, i@, ends, items),
                        )
                    }
            },
{
    move |input: &mut Input<IT>| -> (r: Result<ManyOutput<O>, Error>)
        requires
            input.wf(),
        ensures
            final(input).wf(),
            parser_step(old(input)@, final(input)@),
            exists|ends: Seq<Run<IT, ()>>, items: Seq<Run<IT, O>>|
                {
                    &&& forall|k: int| 0 <= k < ends.len() ==> fail_run(#[trigger] ends[k])
                    &&& forall|k: int| #![trigger items[k]]
                        0 <= k < items.len() ==> exists|j: &mut Input<IT>|
                            #[trigger] call_ensures(*parser, (j,), items[k].out) && j@ == items[k].pre
                                && final(j)@ == items[k].post
                    &&& repeat_trace(max_match_count, old(input)@, ends, items)
                    &&& final(input)@ == repeat_post(ends, items)
                    &&& many_returned(
                        store_matches,
                        r,
                        repeat_result::<IT, O, ()>(
                            min_match_count,
                            max_match_count,
                            false,
                            old(input)@,
                            ends,
                            items,
                        ),
                    )
                },
        {
            let repetition = repeat_no_end::<P, IT, O, MatchesAccumulator<O, ()>, Vec<O>>(
                parser,
                min_match_count,
                max_match_count,
            );
            let accumulator = repetition(input)?;
            let (matches, _) = accumulator.result();
            if store_matches {
                Ok(ManyOutput::Matches(matches))
            } else {
                Ok(ManyOutput::Count(matches.len()))
            }
        }
}

} // verus!
