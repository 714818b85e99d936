use crate::error::{Error, ErrorView};
use crate::input::{parser_step, Input, InputToken, InputView};
use crate::parser::{chained, fails_with, total, trace_end, Parser, Run};
use vstd::prelude::*;

verus! {

/// What [`choice`] does, given the runs of its parsers (the `k`-th run is one of the `k`-th
/// parser): it tries the `count` parsers in order, each where the previous one stopped, and
/// returns the output of the first that succeeds. When all fail it returns the first error, or,
/// when there is no parser, [`Error::UnexpectedToken`] at the start without a mismatch.
pub open spec fn choice_outcome<IT: InputToken, O>(
    count: nat,
    start: InputView<IT>,
    runs: Seq<Run<IT, O>>,
    post: InputView<IT>,
    r: Result<O, Error>,
) -> bool {
    &&& chained(runs, start)
    &&& runs.len() <= count
    &&& post == trace_end(runs, start)
    &&& forall|k: int| 0 <= k < runs.len() - 1 ==> (#[trigger] runs[k]).out is Err
    &&& if runs.len() > 0 && runs.last().out is Ok {
        r == runs.last().out
    } else {
        &&& runs.len() == count
        &&& if count == 0 {
            fails_with(r, ErrorView::UnexpectedToken(start.source_name, start.position(), None))
        } else {
            r == runs[0].out
        }
    }
}

/// A parser that tries each parser of `parsers` in order and returns the output of the first
/// that succeeds; when all fail, it fails with the first error.
pub fn choice<'a, P, IT: InputToken, O>(parsers: &'a Vec<P>) -> (res: impl Parser<IT, O> + 'a) where
    P: Parser<IT, O> + 'a,

    requires
        forall|k: int| 0 <= k < parsers.len() ==> total(#[trigger] parsers@[k]),
        forall|k: int, i: &mut Input<IT>, r: Result<O, Error>|
            0 <= k < parsers.len() && #[trigger] call_ensures(parsers@[k], (i,), r) ==> final(i).wf()
                && parser_step(i@, final(i)@),
    ensures
        total(res),
        forall|i: &mut Input<IT>, r: Result<O, Error>|
            #[trigger] call_ensures(res, (i,), r) ==> {
                &&& final(i).wf()
                &&& parser_step(i@, final(i)@)
                &&& exists|runs: Seq<Run<IT, O>>|
                    {
                        &&& forall|k: int| #![trigger runs[k]]
                            0 <= k < runs.len() ==> exists|j: &mut Input<IT>|
                                #[trigger] call_ensures(parsers@[k], (j,), runs[k].out) && j@ == runs[k].pre
                                    && final(j)@ == runs[k].post
                        &&& choice_outcome(parsers.len() as nat, i@, runs, final(i)@, r)
                    }
            },
{
    move |input: &mut Input<IT>| -> (r: Result<O, Error>)
        requires
            input.wf(),
        ensures
            final(input).wf(),
            parser_step(old(input)@, final(input)@),
            exists|runs: Seq<Run<IT, O>>|
                {
                    &&& forall|k: int| #![trigger runs[k]]
                        0 <= k < runs.len() ==> exists|j: &mut Input<IT>|
                            #[trigger] call_ensures(parsers@[k], (j,), runs[k].out) && j@ == runs[k].pre
                                && final(j)@ == runs[k].post
                    &&& choice_outcome(parsers.len() as nat, old(input)@, runs, final(input)@, r)
                },
        {
            let ghost start = input@;
            let ghost mut runs: Seq<Run<IT, O>> = Seq::empty();
            let mut first_error: Option<Error> = None;
            let mut index: usize = 0;
            proof {
                input.lemma_view_bounds();
            }
            while index < parsers.len()
                invariant
                    forall|k: int| 0 <= k < parsers.len() ==> total(#[trigger] parsers@[k]),
                    forall|k: int, i: &mut Input<IT>, r: Result<O, Error>|
                        0 <= k < parsers.len() && #[trigger] call_ensures(parsers@[k], (i,), r)
                            ==> final(i).wf() && parser_step(i@, final(i)@),
                    input.wf(),
                    start == old(input)@,
                    parser_step(start, input@),
                    index <= parsers.len(),
                    runs.len() == index,
                    chained(runs, start),
                    input@ == trace_end(runs, start),
                    forall|k: int| 0 <= k < runs.len() ==> (#[trigger] runs[k]).out is Err,
                    first_error is None <==> index == 0,
                    index > 0 ==> first_error == Some(runs[0].out->Err_0),
                    forall|k: int| #![trigger runs[k]]
                        0 <= k < runs.len() ==> exists|j: &mut Input<IT>|
                            #[trigger] call_ensures(parsers@[k], (j,), runs[k].out) && j@ == runs[k].pre
                                && final(j)@ == runs[k].post,
                decreases parsers.len() - index,
            {
                let ghost pre = input@;
                let parser = &parsers[index];
                let outcome = parser(input);
                let ghost run = Run { pre, post: input@, out: outcome };
                let ghost old_runs = runs;
                proof {
                    assert(exists|j: &mut Input<IT>|
                        #[trigger] call_ensures(parsers@[index as int], (j,), run.out) && j@ == run.pre
                            && final(j)@ == run.post);
                    runs = runs.push(run);
                    assert forall|k: int| #![trigger runs[k]] 0 <= k < runs.len() implies exists|j: &mut Input<IT>|
                        #[trigger] call_ensures(parsers@[k], (j,), runs[k].out) && j@ == runs[k].pre
                            && final(j)@ == runs[k].post by {
                        if k < old_runs.len() {
                            assert(runs[k] == old_runs[k]);
                        }
                    }
                    assert forall|k: int| 0 <= k < runs.len() - 1 implies #[trigger] runs[k + 1].pre
                        == runs[k].post by {
                        if k + 1 < old_runs.len() {
                            assert(runs[k + 1] == old_runs[k + 1]);
                        }
                        assert(runs[k] == old_runs[k]);
                    }
                    assert(forall|k: int| 0 <= k < runs.len() - 1 ==> runs[k] == old_runs[k]);
                }
                match outcome {
                    // The first match wins.
                    Ok(output) => {
                        let result = Ok(output);
                        proof {
                            assert(choice_outcome(parsers.len() as nat, start, runs, input@, result));
                        }
                        return result;
                    },
                    // Only the first error is kept.
                    Err(e) => {
                        if first_error.is_none() {
                            first_error = Some(e);
                        }
                        proof {
                            assert(runs[0] == if index == 0 { run } else { old_runs[0] });
                        }
                    },
                }
                index = index + 1;
            }
            let result = match first_error {
                Some(error) => Err(error),
                None => Err(Error::UnexpectedToken(input.source_name(), input.position(), None)),
            };
            proof {
                assert(choice_outcome(parsers.len() as nat, start, runs, input@, result));
            }
            result
        }
}

} // verus!
