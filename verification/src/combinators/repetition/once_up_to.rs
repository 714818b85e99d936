use super::accumulator::{CountAccumulator, RepetitionAccumulator};
use super::repeat::{counted, fail_run, repeat_no_end, repeat_post, repeat_result, repeat_trace};
use crate::error::Error;
use crate::input::{parser_step, Input, InputToken};
use crate::parser::{total, Parser, Run};
use vstd::prelude::*;

verus! {

/// Applies `parser` between 1 and `max_count` times, ensuring that no more matches occur, and
/// returns how many times it matched. `max_count` must be greater than 0.
pub fn once_up_to<'a, P, IT: InputToken, O>(parser: &'a P, max_count: usize) -> (res: impl Parser<IT, usize> + 'a) where
    P: Parser<IT, O>,

    requires
        total(*parser),
        forall|i: &mut Input<IT>, r: Result<O, Error>|
            #[trigger] call_ensures(*parser, (i,), r) ==> final(i).wf() && parser_step(i@, final(i)@),
        max_count > 0,
    ensures
        total(res),
        forall|i: &mut Input<IT>, r: Result<usize, Error>|
            #[trigger] call_ensures(res, (i,), r) ==> {
                &&& final(i).wf()
                &&& parser_step(i@, final(i)@)
                &&& exists|ends: Seq<Run<IT, ()>>, items: Seq<Run<IT, O>>|
                    {
                        &&& forall|k: int| 0 <= k < ends.len() ==> fail_run(#[trigger] ends[k])
                        &&& forall|k: int| #![trigger items[k]]
                            0 <= k < items.len() ==> exists|j: &mut Input<IT>|
                                #[trigger] call_ensures(*parser, (j,), items[k].out) && j@ == items[k].pre
                                    && final(j)@ == items[k].post
                        &&& repeat_trace(Some(max_count), i@, ends, items)
                        &&& final(i)@ == repeat_post(ends, items)
                        &&& counted(r, repeat_result::<IT, O, ()>(1, Some(max_count), false, i@, ends, items))
                    }
            },
{
    move |input: &mut Input<IT>| -> (r: Result<usize, Error>)
        requires
            input.wf(),
        ensures
            final(input).wf(),
            parser_step(old(input)@, final(input)@),
            exists|ends: Seq<Run<IT, ()>>, items: Seq<Run<IT, O>>|
                    {
                        &&& forall|k: int| 0 <= k < ends.len() ==> fail_run(#[trigger] ends[k])
                        &&& forall|k: int| #![trigger items[k]]
                            0 <= k < items.len() ==> exists|j: &mut Input<IT>|
                                #[trigger] call_ensures(*parser, (j,), items[k].out) && j@ == items[k].pre
                                    && final(j)@ == items[k].post
                        &&& repeat_trace(Some(max_count), old(input)@, ends, items)
                        &&& final(input)@ == repeat_post(ends, items)
                        &&& counted(r, repeat_result::<IT, O, ()>(1, Some(max_count), false, old(input)@, ends, items))
                    },
        {
            let repetition = repeat_no_end::<P, IT, O, CountAccumulator<O, ()>, usize>(parser, 1, Some(max_count));
            let accumulator = repetition(input)?;
            let (value, _) = accumulator.result();
            Ok(value)
        }
}

} // verus!
