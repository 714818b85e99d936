use crate::combinators::repetition::successes;
use crate::error::Error;
use crate::input::{parser_step, Input, InputToken, InputView};
use crate::parser::{chained, total, trace_end, Parser, Run};
use vstd::prelude::*;

verus! {

/// What [`count`] does, given the runs of its parser: it applies the parser `count` times in a
/// row and returns the matches; it stops at the first failure and returns that failure.
pub open spec fn count_outcome<IT, O>(
    count: usize,
    start: InputView<IT>,
    items: Seq<Run<IT, O>>,
    post: InputView<IT>,
    r: Result<Vec<O>, Error>,
) -> bool {
    &&& chained(items, start)
    &&& items.len() <= count
    &&& post == trace_end(items, start)
    &&& forall|k: int| 0 <= k < items.len() - 1 ==> (#[trigger] items[k]).out is Ok
    &&& if items.len() > 0 && items.last().out is Err {
        r == Err::<Vec<O>, Error>(items.last().out->Err_0)
    } else {
        &&& items.len() == count
        &&& r matches Ok(v) && v@ == successes(items)
    }
}

/// A parser that applies `parser` exactly `times` times, returning the matches.
pub fn count<'a, P, IT: InputToken, O>(parser: &'a P, times: usize) -> (res: impl Parser<IT, Vec<O>>
    + 'a) where P: Parser<IT, O>,

    requires
        total(*parser),
        forall|i: &mut Input<IT>, r: Result<O, Error>|
            #[trigger] call_ensures(*parser, (i,), r) ==> final(i).wf() && parser_step(i@, final(i)@),
    ensures
        total(res),
        forall|i: &mut Input<IT>, r: Result<Vec<O>, Error>|
            #[trigger] call_ensures(res, (i,), r) ==> {
                &&& final(i).wf()
                &&& parser_step(i@, final(i)@)
                &&& exists|items: Seq<Run<IT, O>>|
                    {
                        &&& forall|k: int| #![trigger items[k]]
                            0 <= k < items.len() ==> exists|j: &mut Input<IT>|
                                #[trigger] call_ensures(*parser, (j,), items[k].out) && j@ == items[k].pre
                                    && final(j)@ == items[k].post
                        &&& count_outcome(times, i@, items, final(i)@, r)
                    }
            },
{
    move |input: &mut Input<IT>| -> (r: Result<Vec<O>, Error>)
        requires
            input.wf(),
        ensures
            final(input).wf(),
            parser_step(old(input)@, final(input)@),
            exists|items: Seq<Run<IT, O>>|
                {
                    &&& forall|k: int| #![trigger items[k]]
                        0 <= k < items.len() ==> exists|j: &mut Input<IT>|
                            #[trigger] call_ensures(*parser, (j,), items[k].out) && j@ == items[k].pre
                                && final(j)@ == items[k].post
                    &&& count_outcome(times, old(input)@, items, final(input)@, r)
                },
        {
            let ghost start = input@;
            let ghost mut items: Seq<Run<IT, O>> = Seq::empty();
            let mut output: Vec<O> = Vec::new();
            let mut done: usize = 0;
            proof {
                input.lemma_view_bounds();
            }
            while done < times
                invariant
                    total(*parser),
                    forall|i: &mut Input<IT>, r: Result<O, Error>|
                        #[trigger] call_ensures(*parser, (i,), r) ==> final(i).wf() && parser_step(i@, final(i)@),
                    input.wf(),
                    start == old(input)@,
                    parser_step(start, input@),
                    done <= times,
                    items.len() == done,
                    chained(items, start),
                    input@ == trace_end(items, start),
                    forall|k: int| 0 <= k < items.len() ==> (#[trigger] items[k]).out is Ok,
                    output@ == successes(items),
                    forall|k: int| #![trigger items[k]]
                        0 <= k < items.len() ==> exists|j: &mut Input<IT>|
                            #[trigger] call_ensures(*parser, (j,), items[k].out) && j@ == items[k].pre
                                && final(j)@ == items[k].post,
                decreases times - done,
            {
                let ghost pre = input@;
                let outcome = parser(input);
                let ghost item = Run { pre, post: input@, out: outcome };
                let ghost old_items = items;
                proof {
                    assert(exists|j: &mut Input<IT>|
                        #[trigger] call_ensures(*parser, (j,), item.out) && j@ == item.pre && final(j)@
                            == item.post);
                    items = items.push(item);
                    assert forall|k: int| #![trigger items[k]] 0 <= k < items.len() implies exists|j: &mut Input<IT>|
                        #[trigger] call_ensures(*parser, (j,), items[k].out) && j@ == items[k].pre
                            && final(j)@ == items[k].post by {
                        if k < old_items.len() {
                            assert(items[k] == old_items[k]);
                        }
                    }
                    assert forall|k: int| 0 <= k < items.len() - 1 implies #[trigger] items[k + 1].pre
                        == items[k].post by {
                        if k + 1 < old_items.len() {
                            assert(items[k + 1] == old_items[k + 1]);
                        }
                        assert(items[k] == old_items[k]);
                    }
                }
                match outcome {
                    Ok(token) => {
                        proof {
                            assert(successes(items) =~= successes(old_items).push(token));
                        }
                        output.push(token);
                    },
                    Err(e) => {
                        proof {
                            assert(forall|k: int| 0 <= k < items.len() - 1 ==> items[k] == old_items[k]);
                            assert(count_outcome(times, start, items, input@, Err::<Vec<O>, Error>(e)));
                        }
                        return Err(e);
                    },
                }
                done = done + 1;
            }
            proof {
                assert(count_outcome(times, start, items, input@, Ok::<Vec<O>, Error>(output)));
            }
            Ok(output)
        }
}

} // verus!
