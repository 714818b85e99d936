use super::accumulator::{MatchesAccumulator, RepetitionAccumulator};
use super::repeat::{collected_until, repeat_with_end, repeat_post, repeat_result, repeat_trace};
use crate::error::Error;
use crate::input::{parser_step, Input, InputToken};
use crate::parser::{total, Parser, Run};
use vstd::prelude::*;

verus! {

/// Applies `parser` one or more times until `end` succeeds, collecting the matches and the
/// output of `end`. It fails as soon as `parser` fails.
pub fn once_or_more_until_collect<'a, P, PE, IT: InputToken, O, OE>(parser: &'a P, end: &'a PE) -> (res: impl Parser<
    IT,
    (Vec<O>, OE),
> + 'a) where P: Parser<IT, O>, PE: Parser<IT, OE>,

    requires
        total(*parser),
        total(*end),
        forall|i: &mut Input<IT>, r: Result<O, Error>|
            #[trigger] call_ensures(*parser, (i,), r) ==> final(i).wf() && parser_step(i@, final(i)@),
        forall|i: &mut Input<IT>, r: Result<OE, Error>|
            #[trigger] call_ensures(*end, (i,), r) ==> final(i).wf() && parser_step(i@, final(i)@),
    ensures
        total(res),
        forall|i: &mut Input<IT>, r: Result<(Vec<O>, OE), Error>|
            #[trigger] call_ensures(res, (i,), r) ==> {
                &&& final(i).wf()
                &&& parser_step(i@, final(i)@)
                &&& exists|ends: Seq<Run<IT, OE>>, items: Seq<Run<IT, O>>|
                    {
                        &&& forall|k: int| #![trigger ends[k]]
                            0 <= k < ends.len() ==> exists|j: &mut Input<IT>|
                                #[trigger] call_ensures(*end, (j,), ends[k].out) && j@ == ends[k].pre
                                    && final(j)@ == ends[k].post
                        &&& forall|k: int| #![trigger items[k]]
                            0 <= k < items.len() ==> exists|j: &mut Input<IT>|
                                #[trigger] call_ensures(*parser, (j,), items[k].out) && j@ == items[k].pre
                                    && final(j)@ == items[k].post
                        &&& repeat_trace(None, i@, ends, items)
                        &&& final(i)@ == repeat_post(ends, items)
                        &&& collected_until(r, repeat_result::<IT, O, OE>(1, None, true, i@, ends, items))
                    }
            },
{
    move |input: &mut Input<IT>| -> (r: Result<(Vec<O>, OE), Error>)
        requires
            input.wf(),
        ensures
            final(input).wf(),
            parser_step(old(input)@, final(input)@),
            exists|ends: Seq<Run<IT, OE>>, items: Seq<Run<IT, O>>|
                    {
                        &&& forall|k: int| #![trigger ends[k]]
                            0 <= k < ends.len() ==> exists|j: &mut Input<IT>|
                                #[trigger] call_ensures(*end, (j,), ends[k].out) && j@ == ends[k].pre
                                    && final(j)@ == ends[k].post
                        &&& forall|k: int| #![trigger items[k]]
                            0 <= k < items.len() ==> exists|j: &mut Input<IT>|
                                #[trigger] call_ensures(*parser, (j,), items[k].out) && j@ == items[k].pre
                                    && final(j)@ == items[k].post
                        &&& repeat_trace(None, old(input)@, ends, items)
                        &&& final(input)@ == repeat_post(ends, items)
                        &&& collected_until(r, repeat_result::<IT, O, OE>(1, None, true, old(input)@, ends, items))
                    },
        {
            let repetition = repeat_with_end::<P, PE, IT, O, OE, MatchesAccumulator<O, OE>, Vec<O>>(
                parser,
                1,
                None,
                end,
            );
            let accumulator = repetition(input)?;
            let (matches, end_output) = accumulator.result();
            Ok((matches, end_output.unwrap()))
        }
}

} // verus!
