use crate::error::Error;
use crate::input::{parser_step, Input, InputToken};
use crate::parser::{total, Parser};
use vstd::prelude::*;

verus! {

/// A parser that always succeeds with a copy of `value`, consuming nothing.
pub fn success<IT: InputToken, O: Clone>(value: O) -> (res: impl Parser<IT, O>)
    ensures
        total(res),
        forall|i: &mut Input<IT>, r: Result<O, Error>|
            #[trigger] call_ensures(res, (i,), r) ==> final(i).wf() && parser_step(i@, final(i)@) && final(i)@ == i@ && (r matches Ok(
                v,
            ) && vstd::pervasive::cloned(value, v)),
{
    move |input: &mut Input<IT>| -> (r: Result<O, Error>)
        requires
            input.wf(),
        ensures
            final(input).wf(),
            parser_step(old(input)@, final(input)@),
            final(input)@ == old(input)@,
            r matches Ok(v) && vstd::pervasive::cloned(value, v),
        {
            proof {
                input.lemma_view_bounds();
            }
            Ok(value.clone())
        }
}

} // verus!
