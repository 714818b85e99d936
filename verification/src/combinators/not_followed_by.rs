use crate::error::{Error, ErrorView};
use crate::input::{parser_step, Input, InputToken, InputView};
use crate::parser::{fails_with, total, Parser, Run};
use vstd::prelude::*;

verus! {

/// What [`not_followed_by`] returns, given what `parser` returned (`inner`): when `parser`
/// succeeded it fails with [`Error::UnexpectedToken`] at the input's position; when `parser`
/// ran out of input it fails with the same [`Error::EndOfInput`]; when `parser` failed otherwise
/// it succeeds.
pub open spec fn not_followed_by_outcome<IT: InputToken, O>(
    pre: InputView<IT>,
    inner: Result<O, Error>,
    r: Result<(), Error>,
) -> bool {
    match inner {
        Ok(_) => fails_with(r, ErrorView::UnexpectedToken(pre.source_name, pre.position(), None)),
        Err(Error::EndOfInput(e)) => r == Err::<(), Error>(Error::EndOfInput(e)),
        Err(_) => r == Ok::<(), Error>(()),
    }
}

/// A parser that succeeds if `parser` fails. It never consumes input, even when `parser` does.
pub fn not_followed_by<'a, P, IT: InputToken, O>(parser: &'a P) -> (res: impl Parser<IT, ()> + 'a) where
    P: Parser<IT, O>,

    requires
        total(*parser),
        forall|i: &mut Input<IT>, r: Result<O, Error>|
            #[trigger] call_ensures(*parser, (i,), r) ==> final(i).wf() && parser_step(i@, final(i)@),
    ensures
        total(res),
        forall|i: &mut Input<IT>, r: Result<(), Error>|
            #[trigger] call_ensures(res, (i,), r) ==> {
                &&& final(i).wf()
                &&& final(i)@ == i@
                &&& exists|run: Run<IT, O>|
                    {
                        &&& exists|j: &mut Input<IT>|
                            #[trigger] call_ensures(*parser, (j,), run.out) && j@ == run.pre && final(j)@
                                == run.post
                        &&& run.pre == i@.push_mark()
                        &&& not_followed_by_outcome(i@, run.out, r)
                    }
            },
{
    move |input: &mut Input<IT>| -> (r: Result<(), Error>)
        requires
            input.wf(),
        ensures
            final(input).wf(),
            final(input)@ == old(input)@,
            exists|run: Run<IT, O>|
                {
                    &&& exists|j: &mut Input<IT>|
                        #[trigger] call_ensures(*parser, (j,), run.out) && j@ == run.pre && final(j)@
                            == run.post
                    &&& run.pre == old(input)@.push_mark()
                    &&& not_followed_by_outcome(old(input)@, run.out, r)
                },
        {
            let ghost pre = input@;
            let handler = input.start_look_ahead();
            let ghost inner_pre = input@;
            let output = parser(input);
            let ghost run = Run { pre: inner_pre, post: input@, out: output };
            proof {
                assert(pre.push_mark().marks.drop_last() =~= pre.marks);
                assert(exists|j: &mut Input<IT>|
                    #[trigger] call_ensures(*parser, (j,), run.out) && j@ == run.pre && final(j)@
                        == run.post);
            }
            input.stop_look_ahead(handler, true);
            let result = match output {
                Ok(_) => Err(Error::UnexpectedToken(input.source_name(), input.position(), None)),
                Err(Error::EndOfInput(oe)) => Err(Error::EndOfInput(oe)),
                Err(_) => Ok(()),
            };
            proof {
                assert(not_followed_by_outcome(pre, run.out, result));
            }
            result
        }
}

} // verus!
