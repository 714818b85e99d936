use super::accumulator::{MatchesAccumulator, RepetitionAccumulator};
use super::repeat::{collected, fail_run, repeat_no_end, repeat_post, repeat_result, repeat_trace};
use crate::error::Error;
use crate::input::{parser_step, Input, InputToken};
use crate::parser::{total, Parser, Run};
use vstd::prelude::*;

verus! {

/// Applies `parser` at least `min_count` times (and possibly more), collecting its matches.
pub fn at_least_collect<'a, P, IT: InputToken, O>(parser: &'a P, min_count: usize) -> (res: impl Parser<IT, Vec<O>> + 'a) where
    P: Parser<IT, O>,

    requires
        total(*parser),
        forall|i: &mut Input<IT>, r: Result<O, Error>|
            #[trigger] call_ensures(*parser, (i,), r) ==> final(i).wf() && parser_step(i@, final(i)@),
    ensures
        total(res),
        forall|i: &mut Input<IT>, r: Result<Vec<O>, Error>|
            #[trigger] call_ensures(res, (i,), r) ==> {
                &&& final(i).wf()
                &&& parser_step(i@, final(i)@)
                &&& exists|ends: Seq<Run<IT, ()>>, items: Seq<Run<IT, O>>|
                    {
                        &&& forall|k: int| 0 <= k < ends.len() ==> fail_run(#[trigger] ends[k])
                        &&& forall|k: int| #![trigger items[k]]
                            0 <= k < items.len() ==> exists|j: &mut Input<IT>|
                                #[trigger] call_ensures(*parser, (j,), items[k].out) && j@ == items[k].pre
                                    && final(j)@ == items[k].post
                        &&& repeat_trace(None, i@, ends, items)
                        &&& final(i)@ == repeat_post(ends, items)
                        &&& collected(r, repeat_result::<IT, O, ()>(min_count, None, false, i@, ends, items))
                    }
            },
{
    move |input: &mut Input<IT>| -> (r: Result<Vec<O>, Error>)
        requires
            input.wf(),
        ensures
            final(input).wf(),
            parser_step(old(input)@, final(input)@),
            exists|ends: Seq<Run<IT, ()>>, items: Seq<Run<IT, O>>|
                    {
                        &&& forall|k: int| 0 <= k < ends.len() ==> fail_run(#[trigger] ends[k])
                        &&& forall|k: int| #![trigger items[k]]
                            0 <= k < items.len() ==> exists|j: &mut Input<IT>|
                                #[trigger] call_ensures(*parser, (j,), items[k].out) && j@ == items[k].pre
                                    && final(j)@ == items[k].post
                        &&& repeat_trace(None, old(input)@, ends, items)
                        &&& final(input)@ == repeat_post(ends, items)
                        &&& collected(r, repeat_result::<IT, O, ()>(min_count, None, false, old(input)@, ends, items))
                    },
        {
            let repetition = repeat_no_end::<P, IT, O, MatchesAccumulator<O, ()>, Vec<O>>(parser, min_count, None);
            let accumulator = repetition(input)?;
            let (value, _) = accumulator.result();
            Ok(value)
        }
}

} // verus!
