use crate::error::{Error, ErrorView};
use crate::input::{parser_step, Input, InputToken, InputView};
use crate::parser::{fails_with, total, Parser};
use vstd::prelude::*;

verus! {

/// What [`satisfy`] does: it applies `f` to the next token; when `f` gives `Some(o)`, it
/// consumes the token and returns `o`; when `f` gives `None`, it fails with
/// [`Error::UnexpectedToken`] at that token's position. On an exhausted input it fails with
/// [`Error::EndOfInput`]. It consumes nothing when it fails.
pub open spec fn satisfy_outcome<IT: InputToken, O, F: Fn(&IT::Token) -> Option<O>>(
    f: F,
    pre: InputView<IT>,
    post: InputView<IT>,
    r: Result<O, Error>,
) -> bool {
    if pre.has_next() {
        let found = pre.next();
        exists|fr: Option<O>|
            #[trigger] call_ensures(f, (&found.spec_token(),), fr) && match fr {
                Some(o) => post == pre.advance() && r == Ok::<O, Error>(o),
                None => post == pre && fails_with(
                    r,
                    ErrorView::UnexpectedToken(pre.source_name, found.spec_position(), None),
                ),
            }
    } else {
        post == pre && fails_with(r, ErrorView::EndOfInput(None))
    }
}

/// A parser that succeeds if `f` returns `Some` for the next token, consuming the token and
/// returning what `f` returned.
pub fn satisfy<IT: InputToken, O, F: Fn(&IT::Token) -> Option<O>>(f: F) -> (res: impl Parser<IT, O>)
    requires
        forall|t: &IT::Token| #[trigger] call_requires(f, (t,)),
    ensures
        total(res),
        forall|i: &mut Input<IT>, r: Result<O, Error>|
            #[trigger] call_ensures(res, (i,), r) ==> final(i).wf() && parser_step(i@, final(i)@) && satisfy_outcome(
                f,
                i@,
                final(i)@,
                r,
            ),
{
    move |input: &mut Input<IT>| -> (r: Result<O, Error>)
        requires
            input.wf(),
        ensures
            final(input).wf(),
            parser_step(old(input)@, final(input)@),
            satisfy_outcome(f, old(input)@, final(input)@, r),
        {
            proof {
                input.lemma_view_bounds();
            }
            let outcome = match input.peek() {
                Some(input_token) => {
                    let token = input_token.token();
                    match f(token) {
                        Some(result) => Ok(result),
                        None => {
                            let position = input_token.position();
                            Err(Error::UnexpectedToken(input.source_name(), position, None))
                        },
                    }
                },
                None => Err(Error::EndOfInput(None)),
            };
            if outcome.is_ok() {
                input.next_token();  // Consume if successful.
            }
            outcome
        }
}

} // verus!
