use crate::error::{Error, ErrorView, Mismatch, MismatchView};
use crate::input::{parser_step, Input, InputToken, InputView};
use crate::parser::{fails_with, total, Parser};
use vstd::prelude::*;

verus! {

/// What [`is`] does: when the next token equals `token`, it consumes it and returns `token`;
/// when another token comes next, it fails with [`Error::UnexpectedToken`] at that token's
/// position, stating both tokens; on an exhausted input it fails with [`Error::EndOfInput`]
/// stating `token`. It consumes nothing when it fails.
pub open spec fn is_outcome<IT: InputToken>(
    token: IT::Token,
    pre: InputView<IT>,
    post: InputView<IT>,
    r: Result<IT::Token, Error>,
) -> bool {
    if pre.has_next() {
        let found = pre.next();
        if found.spec_token() == token {
            post == pre.advance() && r == Ok::<IT::Token, Error>(token)
        } else {
            post == pre && fails_with(
                r,
                ErrorView::UnexpectedToken(
                    pre.source_name,
                    found.spec_position(),
                    Some(
                        MismatchView {
                            expected: Some(IT::spec_token_text(token)),
                            found: Some(IT::spec_token_text(found.spec_token())),
                        },
                    ),
                ),
            )
        }
    } else {
        post == pre && fails_with(r, ErrorView::EndOfInput(Some(IT::spec_token_text(token))))
    }
}

/// A parser that succeeds if the next token equals `token`, consuming and returning it.
pub fn is<IT: InputToken>(token: IT::Token) -> (res: impl Parser<IT, IT::Token>)
    ensures
        total(res),
        forall|i: &mut Input<IT>, r: Result<IT::Token, Error>|
            #[trigger] call_ensures(res, (i,), r) ==> final(i).wf() && parser_step(i@, final(i)@) && is_outcome(
                token,
                i@,
                final(i)@,
                r,
            ),
{
    move |input: &mut Input<IT>| -> (r: Result<IT::Token, Error>)
        requires
            input.wf(),
        ensures
            final(input).wf(),
            parser_step(old(input)@, final(input)@),
            is_outcome(token, old(input)@, final(input)@, r),
        {
            proof {
                input.lemma_view_bounds();
            }
            let matched = match input.peek() {
                Some(input_token) => {
                    if IT::same_token(&token, input_token.token()) {
                        None
                    } else {
                        let position = input_token.position();
                        let expected = IT::token_text(&token);
                        let found = IT::token_text(input_token.token());
                        Some(Err(Error::UnexpectedToken(input.source_name(), position, Some(Mismatch::new(expected, found)))))
                    }
                },
                None => Some(Err(Error::EndOfInput(Some(IT::token_text(&token))))),
            };
            match matched {
                Some(failure) => failure,
                None => {
                    input.next_token();  // Consume if successful.
                    Ok(IT::duplicate_token(&token))
                },
            }
        }
}

} // verus!
