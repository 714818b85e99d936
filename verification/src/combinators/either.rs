use crate::error::Error;
use crate::input::{parser_step, Input, InputToken, InputView};
use crate::parser::{total, Parser, Run};
use vstd::prelude::*;

verus! {

/// What [`either`] and [`option`](crate::option) return, given the run of `parser1` (`first`)
/// and, when that one failed without consuming input, the run of `parser2` from where it
/// stopped (`second`): the outcome of `second` in that case, the outcome of `first` otherwise.
pub open spec fn alternative_outcome<IT, O>(
    pre: InputView<IT>,
    first: Run<IT, O>,
    second: Run<IT, O>,
    post: InputView<IT>,
    r: Result<O, Error>,
) -> bool {
    &&& first.pre == pre
    &&& if first.out is Err && first.post.pos == pre.pos {
        second.pre == first.post && r == second.out && post == second.post
    } else {
        r == first.out && post == first.post
    }
}

/// A parser that tries `parser1` and, when it fails without consuming input, applies `parser2`
/// instead. When `parser1` succeeds, or fails after consuming input, its outcome is returned
/// and `parser2` is not applied.
pub fn either<'a, P1, P2, IT: InputToken, O>(parser1: &'a P1, parser2: &'a P2) -> (res: impl Parser<
    IT,
    O,
> + 'a) where P1: Parser<IT, O>, P2: Parser<IT, O>,

    requires
        total(*parser1),
        total(*parser2),
        forall|i: &mut Input<IT>, r: Result<O, Error>|
            #[trigger] call_ensures(*parser1, (i,), r) ==> final(i).wf() && parser_step(i@, final(i)@),
        forall|i: &mut Input<IT>, r: Result<O, Error>|
            #[trigger] call_ensures(*parser2, (i,), r) ==> final(i).wf() && parser_step(i@, final(i)@),
    ensures
        total(res),
        forall|i: &mut Input<IT>, r: Result<O, Error>|
            #[trigger] call_ensures(res, (i,), r) ==> {
                &&& final(i).wf()
                &&& parser_step(i@, final(i)@)
                &&& exists|first: Run<IT, O>, second: Run<IT, O>|
                    {
                        &&& exists|j1: &mut Input<IT>|
                            #[trigger] call_ensures(*parser1, (j1,), first.out) && j1@ == first.pre
                                && final(j1)@ == first.post
                        &&& first.out is Err && first.post.pos == i@.pos ==> exists|j2: &mut Input<IT>|
                            #[trigger] call_ensures(*parser2, (j2,), second.out) && j2@ == second.pre
                                && final(j2)@ == second.post
                        &&& alternative_outcome(i@, first, second, final(i)@, r)
                    }
            },
{
    move |input: &mut Input<IT>| -> (r: Result<O, Error>)
        requires
            input.wf(),
        ensures
            final(input).wf(),
            parser_step(old(input)@, final(input)@),
            exists|first: Run<IT, O>, second: Run<IT, O>|
                {
                    &&& exists|j1: &mut Input<IT>|
                        #[trigger] call_ensures(*parser1, (j1,), first.out) && j1@ == first.pre
                            && final(j1)@ == first.post
                    &&& first.out is Err && first.post.pos == old(input)@.pos ==> exists|j2: &mut Input<IT>|
                        #[trigger] call_ensures(*parser2, (j2,), second.out) && j2@ == second.pre
                            && final(j2)@ == second.post
                    &&& alternative_outcome(old(input)@, first, second, final(input)@, r)
                },
        {
            let ghost pre = input@;
            let initial_length = input.consumed_count();
            let outcome = parser1(input);
            let ghost first = Run { pre, post: input@, out: outcome };
            proof {
                assert(exists|j1: &mut Input<IT>|
                    #[trigger] call_ensures(*parser1, (j1,), first.out) && j1@ == first.pre
                        && final(j1)@ == first.post);
            }
            match outcome {
                Ok(token) => {
                    proof {
                        assert(alternative_outcome(pre, first, first, input@, Ok::<O, Error>(token)));
                    }
                    Ok(token)
                },
                Err(e) => {
                    if input.consumed_count() == initial_length {
                        let ghost mid = input@;
                        let result = parser2(input);
                        let ghost second = Run { pre: mid, post: input@, out: result };
                        proof {
                            assert(exists|j2: &mut Input<IT>|
                                #[trigger] call_ensures(*parser2, (j2,), second.out) && j2@ == second.pre
                                    && final(j2)@ == second.post);
                            assert(alternative_outcome(pre, first, second, input@, result));
                        }
                        result
                    } else {
                        proof {
                            assert(alternative_outcome(pre, first, first, input@, Err::<O, Error>(e)));
                        }
                        Err(e)
                    }
                },
            }
        }
}

} // verus!
