use crate::error::Error;
use crate::input::{parser_step, Input, InputToken, InputView};
use crate::parser::{total, Parser};
use vstd::prelude::*;

verus! {

/// What [`maybe`] returns, given what `parser` returned (`inner`) and where it left the input
/// (`post`): `Some` of its output on success, `None` when it failed without consuming input, its
/// error when it failed after consuming input.
pub open spec fn maybe_outcome<IT, O>(
    pre: InputView<IT>,
    post: InputView<IT>,
    inner: Result<O, Error>,
    r: Result<Option<O>, Error>,
) -> bool {
    match inner {
        Ok(t) => r == Ok::<Option<O>, Error>(Some(t)),
        Err(e) => if post.pos == pre.pos {
            r == Ok::<Option<O>, Error>(None)
        } else {
            r == Err::<Option<O>, Error>(e)
        },
    }
}

/// A parser that makes `parser` optional: it fails only when `parser` fails after consuming
/// input.
pub fn maybe<'a, P, IT: InputToken, O>(parser: &'a P) -> (res: impl Parser<IT, Option<O>> + 'a) where
    P: Parser<IT, O>,

    requires
        total(*parser),
        forall|i: &mut Input<IT>, r: Result<O, Error>|
            #[trigger] call_ensures(*parser, (i,), r) ==> final(i).wf() && parser_step(i@, final(i)@),
    ensures
        total(res),
        forall|i: &mut Input<IT>, r: Result<Option<O>, Error>|
            #[trigger] call_ensures(res, (i,), r) ==> {
                &&& final(i).wf()
                &&& parser_step(i@, final(i)@)
                &&& exists|j: &mut Input<IT>, inner: Result<O, Error>|
                    #[trigger] call_ensures(*parser, (j,), inner) && j@ == i@ && final(i)@ == final(j)@
                        && maybe_outcome(i@, final(j)@, inner, r)
            },
{
    move |input: &mut Input<IT>| -> (r: Result<Option<O>, Error>)
        requires
            input.wf(),
        ensures
            final(input).wf(),
            parser_step(old(input)@, final(input)@),
            exists|j: &mut Input<IT>, inner: Result<O, Error>|
                #[trigger] call_ensures(*parser, (j,), inner) && j@ == old(input)@ && final(input)@
                    == final(j)@ && maybe_outcome(old(input)@, final(j)@, inner, r),
        {
            let initial_length = input.consumed_count();
            match parser(input) {
                Ok(token) => Ok(Some(token)),
                Err(e) => {
                    if input.consumed_count() == initial_length {
                        Ok(None)
                    } else {
                        Err(e)
                    }
                },
            }
        }
}

} // verus!
