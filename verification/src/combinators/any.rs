use crate::error::{Error, ErrorView};
use crate::input::{parser_step, Input, InputToken, InputView};
use crate::parser::{fails_with, total, Parser};
use vstd::prelude::*;

verus! {

/// What [`any`] does: it returns the next token and consumes it, or fails with
/// [`Error::EndOfInput`] on an exhausted input, consuming nothing.
pub open spec fn any_outcome<IT: InputToken>(
    pre: InputView<IT>,
    post: InputView<IT>,
    r: Result<IT::Token, Error>,
) -> bool {
    if pre.has_next() {
        post == pre.advance() && r == Ok::<IT::Token, Error>(pre.next().spec_token())
    } else {
        post == pre && fails_with(r, ErrorView::EndOfInput(None))
    }
}

/// A parser that returns the next token in the input, if any.
pub fn any<IT: InputToken>() -> (res: impl Parser<IT, IT::Token>)
    ensures
        total(res),
        forall|i: &mut Input<IT>, r: Result<IT::Token, Error>|
            #[trigger] call_ensures(res, (i,), r) ==> final(i).wf() && parser_step(i@, final(i)@) && any_outcome(i@, final(i)@, r),
{
    |input: &mut Input<IT>| -> (r: Result<IT::Token, Error>)
        requires
            input.wf(),
        ensures
            final(input).wf(),
            parser_step(old(input)@, final(input)@),
            any_outcome(old(input)@, final(input)@, r),
        {
            proof {
                input.lemma_view_bounds();
            }
            match input.next_token() {
                Some(input_token) => Ok(input_token.token_owned()),
                None => Err(Error::EndOfInput(None)),
            }
        }
}

} // verus!
