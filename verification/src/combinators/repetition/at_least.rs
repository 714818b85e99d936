use super::accumulator::{CountAccumulator, RepetitionAccumulator};
use super::repeat::{counted, fail_run, repeat_no_end, repeat_post, repeat_result, repeat_trace};
use crate::error::Error;
use crate::input::{parser_step, Input, InputToken};
use crate::parser::{total, Parser, Run};
use vstd::prelude::*;

verus! {

/// Applies `parser` at least `min_count` times (and possibly more), returning how many times it
/// matched.
pub fn at_least<'a, P, IT: InputToken, O>(parser: &'a P, min_count: usize) -> (res: impl Parser<IT, usize> + 'a) where
    P: Parser<IT, O>,

    requires
        total(*parser),
        forall|i: &mut Input<IT>, r: Result<O, Error>|
            #[trigger] call_ensures(*parser, (i,), r) ==> final(i).wf() && parser_step(i@, final(i)@),
    ensures
        total(res),
        forall|i: &mut Input<IT>, r: Result<usize, Error>|
            #[trigger] call_ensures(res, (i,), r) ==> {
                &&& final(i).wf()
                &&& parser_step(i@, final(i)@)
                &&& exists|ends: Seq<Run<IT, ()>>, items: Seq<Run<IT, O>>|
                    {
                        &&& forall|k: int| 0 <= k < ends.len() ==> fail_run(#[trigger] ends[k])
                        &&& forall|k: int| #![trigger items[k]]
                            0 <= k < items.len() ==> exists|j: &mut Input<IT>|
                                #[trigger] call_ensures(*parser, (j,), items[k].out) && j@ == items[k].pre
                                    && final(j)@ == items[k].post
                        &&& repeat_trace(None, i@, ends, items)
                        &&& final(i)@ == repeat_post(ends, items)
                        &&& counted(r, repeat_result::<IT, O, ()>(min_count, None, false, i@, ends, items))
                    }
            },
{
    move |input: &mut Input<IT>| -> (r: Result<usize, Error>)
        requires
            input.wf(),
        ensures
            final(input).wf(),
            parser_step(old(input)@, final(input)@),
            exists|ends: Seq<Run<IT, ()>>, items: Seq<Run<IT, O>>|
                    {
                        &&& forall|k: int| 0 <= k < ends.len() ==> fail_run(#[trigger] ends[k])
                        &&& forall|k: int| #![trigger items[k]]
                            0 <= k < items.len() ==> exists|j: &mut Input<IT>|
                                #[trigger] call_ensures(*parser, (j,), items[k].out) && j@ == items[k].pre
                                    && final(j)@ == items[k].post
                        &&& repeat_trace(None, old(input)@, ends, items)
                        &&& final(input)@ == repeat_post(ends, items)
                        &&& counted(r, repeat_result::<IT, O, ()>(min_count, None, false, old(input)@, ends, items))
                    },
        {
            let repetition = repeat_no_end::<P, IT, O, CountAccumulator<O, ()>, usize>(parser, min_count, None);
            let accumulator = repetition(input)?;
            let (value, _) = accumulator.result();
            Ok(value)
        }
}

} // verus!
