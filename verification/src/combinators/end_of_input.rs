use crate::error::{Error, ErrorView, Mismatch, MismatchView};
use crate::input::{parser_step, Input, InputToken, InputView};
use crate::parser::{fails_with, total, Parser};
use vstd::prelude::*;

verus! {

/// What [`end_of_input`] does: on an exhausted input it returns `()`; otherwise it fails with
/// [`Error::UnexpectedToken`] at the next token, expecting "end of input". It never consumes.
pub open spec fn end_of_input_outcome<IT: InputToken>(
    pre: InputView<IT>,
    post: InputView<IT>,
    r: Result<(), Error>,
) -> bool {
    &&& post == pre
    &&& if pre.has_next() {
        fails_with(
            r,
            ErrorView::UnexpectedToken(
                pre.source_name,
                pre.next().spec_position(),
                Some(
                    MismatchView {
                        expected: Some("end of input"@),
                        found: Some(IT::spec_token_text(pre.next().spec_token())),
                    },
                ),
            ),
        )
    } else {
        r == Ok::<(), Error>(())
    }
}

/// A parser that succeeds only if the input is exhausted.
pub fn end_of_input<IT: InputToken>() -> (res: impl Parser<IT, ()>)
    ensures
        total(res),
        forall|i: &mut Input<IT>, r: Result<(), Error>|
            #[trigger] call_ensures(res, (i,), r) ==> final(i).wf() && parser_step(i@, final(i)@) && end_of_input_outcome(
                i@,
                final(i)@,
                r,
            ),
{
    |input: &mut Input<IT>| -> (r: Result<(), Error>)
        requires
            input.wf(),
        ensures
            final(input).wf(),
            parser_step(old(input)@, final(input)@),
            end_of_input_outcome(old(input)@, final(input)@, r),
        {
            proof {
                input.lemma_view_bounds();
            }
            match input.peek() {
                None => Ok(()),
                Some(token) => {
                    let position = token.position();
                    let mismatch = Mismatch::new("end of input", IT::token_text(token.token()));
                    Err(Error::UnexpectedToken(input.source_name(), position, Some(mismatch)))
                },
            }
        }
}

} // verus!
