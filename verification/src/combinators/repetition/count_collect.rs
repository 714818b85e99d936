use super::accumulator::{MatchesAccumulator, RepetitionAccumulator};
use super::repeat::{collected, fail_run, repeat_no_end, repeat_post, repeat_result, repeat_trace};
use crate::error::Error;
use crate::input::{parser_step, Input, InputToken};
use crate::parser::{total, Parser, Run};
use vstd::prelude::*;

verus! {

/// Applies `parser` exactly `count` times, collecting its matches; it fails if `parser` matches
/// fewer or more times.
pub fn count_collect<'a, P, IT: InputToken, O>(parser: &'a P, count: usize) -> (res: impl Parser<IT, Vec<O>> + 'a) where
    P: Parser<IT, O>,

    requires
        total(*parser),
        forall|i: &mut Input<IT>, r: Result<O, Error>|
            #[trigger] call_ensures(*parser, (i,), r) ==> final(i).wf() && parser_step(i@, final(i)@),
    ensures
        total(res),
        forall|i: &mut Input<IT>, r: Result<Vec<O>, Error>|
            #[trigger] call_ensures(res, (i,), r) ==> {
                &&& final(i).wf()
                &&& parser_step(i@, final(i)@)
                &&& exists|ends: Seq<Run<IT, ()>>, items: Seq<Run<IT, O>>|
                    {
                        &&& forall|k: int| 0 <= k < ends.len() ==> fail_run(#[trigger] ends[k])
                        &&& forall|k: int| #![trigger items[k]]
                            0 <= k < items.len() ==> exists|j: &mut Input<IT>|
                                #[trigger] call_ensures(*parser, (j,), items[k].out) && j@ == items[k].pre
                                    && final(j)@ == items[k].post
                        &&& repeat_trace(Some(count), i@, ends, items)
                        &&& final(i)@ == repeat_post(ends, items)
                        &&& collected(r, repeat_result::<IT, O, ()>(count, Some(count), false, i@, ends, items))
                    }
            },
{
    move |input: &mut Input<IT>| -> (r: Result<Vec<O>, Error>)
        requires
            input.wf(),
        ensures
            final(input).wf(),
            parser_step(old(input)@, final(input)@),
            exists|ends: Seq<Run<IT, ()>>, items: Seq<Run<IT, O>>|
                    {
                        &&& forall|k: int| 0 <= k < ends.len() ==> fail_run(#[trigger] ends[k])
                        &&& forall|k: int| #![trigger items[k]]
                            0 <= k < items.len() ==> exists|j: &mut Input<IT>|
                                #[trigger] call_ensures(*parser, (j,), items[k].out) && j@ == items[k].pre
                                    && final(j)@ == items[k].post
                        &&& repeat_trace(Some(count), old(input)@, ends, items)
                        &&& final(input)@ == repeat_post(ends, items)
                        &&& collected(r, repeat_result::<IT, O, ()>(count, Some(count), false, old(input)@, ends, items))
                    },
        {
            let repetition = repeat_no_end::<P, IT, O, MatchesAccumulator<O, ()>, Vec<O>>(parser, count, Some(count));
            let accumulator = repetition(input)?;
            let (value, _) = accumulator.result();
            Ok(value)
        }
}

} // verus!
