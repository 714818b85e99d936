use crate::error::Error;
use crate::input::{parser_step, Input, InputToken, InputView};
use crate::parser::{total, Parser, Run};
use vstd::prelude::*;

verus! {

/// What [`look_ahead`] does, given the run of `parser` inside its lookahead (`run`, which starts at
/// `pre` with one more lookahead mark): it returns what `parser` returned; Ok_/// A parser that behaves as `parser` but consumes nothing when it succeeds: it looks ahead while
/// `parser` runs and backtracks on success. When `parser` fails, the input it read stays read.
pub open spec fn look_ahead_outcome<IT, O>(
    pre: InputView<IT>,
    run: Run<IT, O>,
    post: InputView<IT>,
    r: Result<O, Error>,
) -> bool {
    &&& run.pre == pre.push_mark()
    &&& r == run.out
    &&& post == if r is Ok {
        pre
    } else {
        pre.with_pos(run.post.pos)
    }
}

/// A parser that behaves as `parser` but consumes nothing when it succeeds: it looks ahead while
/// `parser` runs and backtracks on success. When `parser` fails, the input it read stays read.
pub fn look_ahead<'a, P, IT: InputToken, O>(parser: &'a P) -> (res: impl Parser<IT, O> + 'a) where
    P: Parser<IT, O>,

    requires
        total(*parser),
        forall|i: &mut Input<IT>, r: Result<O, Error>|
            #[trigger] call_ensures(*parser, (i,), r) ==> final(i).wf() && parser_step(i@, final(i)@),
    ensures
        total(res),
        forall|i: &mut Input<IT>, r: Result<O, Error>|
            #[trigger] call_ensures(res, (i,), r) ==> {
                &&& final(i).wf()
                &&& parser_step(i@, final(i)@)
                &&& r is Ok ==> final(i)@ == i@
                &&& exists|run: Run<IT, O>|
                    {
                        &&& exists|j: &mut Input<IT>|
                            #[trigger] call_ensures(*parser, (j,), run.out) && j@ == run.pre && final(j)@
                                == run.post
                        &&& look_ahead_outcome(i@, run, final(i)@, r)
                    }
            },
{
    move |input: &mut Input<IT>| -> (r: Result<O, Error>)
        requires
            input.wf(),
        ensures
            final(input).wf(),
            parser_step(old(input)@, final(input)@),
            r is Ok ==> final(input)@ == old(input)@,
            exists|run: Run<IT, O>|
                {
                    &&& exists|j: &mut Input<IT>|
                        #[trigger] call_ensures(*parser, (j,), run.out) && j@ == run.pre && final(j)@
                            == run.post
                    &&& look_ahead_outcome(old(input)@, run, final(input)@, r)
                },
        {
            let ghost pre = input@;
            let handler = input.start_look_ahead();
            let ghost inner_pre = input@;
            let output = parser(input);
            let ghost run = Run { pre: inner_pre, post: input@, out: output };
            proof {
                assert(pre.push_mark().marks.drop_last() =~= pre.marks);
                assert(exists|j: &mut Input<IT>|
                    #[trigger] call_ensures(*parser, (j,), run.out) && j@ == run.pre && final(j)@
                        == run.post);
            }
            input.stop_look_ahead(handler, output.is_ok());
            proof {
                assert(look_ahead_outcome(pre, run, input@, output));
            }
            output
        }
}

} // verus!
