use crate::error::Error;
use crate::input::{parser_step, Input, InputToken};
use crate::parser::{same_failure, total, Parser};
use vstd::prelude::*;

verus! {

/// A parser that applies `open`, then `parser`, then `close`, and returns what `parser`
/// returned. It fails with the first failure among the three, without applying the rest.
pub fn between<'a, PO, PC, P, IT: InputToken, O, OO, OC>(
    open: &'a PO,
    parser: &'a P,
    close: &'a PC,
) -> (res: impl Parser<IT, O> + 'a) where PO: Parser<IT, OO>, PC: Parser<IT, OC>, P: Parser<IT, O>,

    requires
        total(*open),
        total(*parser),
        total(*close),
        forall|i: &mut Input<IT>, r: Result<OO, Error>|
            #[trigger] call_ensures(*open, (i,), r) ==> final(i).wf() && parser_step(i@, final(i)@),
        forall|i: &mut Input<IT>, r: Result<O, Error>|
            #[trigger] call_ensures(*parser, (i,), r) ==> final(i).wf() && parser_step(i@, final(i)@),
        forall|i: &mut Input<IT>, r: Result<OC, Error>|
            #[trigger] call_ensures(*close, (i,), r) ==> final(i).wf() && parser_step(i@, final(i)@),
    ensures
        total(res),
        forall|i: &mut Input<IT>, r: Result<O, Error>|
            #[trigger] call_ensures(res, (i,), r) ==> {
                &&& final(i).wf()
                &&& parser_step(i@, final(i)@)
                &&& exists|j1: &mut Input<IT>, r1: Result<OO, Error>|
                    #[trigger] call_ensures(*open, (j1,), r1) && j1@ == i@ && if r1 is Err {
                        same_failure(r, r1) && final(i)@ == final(j1)@
                    } else {
                        exists|j2: &mut Input<IT>, r2: Result<O, Error>|
                            #[trigger] call_ensures(*parser, (j2,), r2) && j2@ == final(j1)@ && if r2 is Err {
                                r == r2 && final(i)@ == final(j2)@
                            } else {
                                exists|j3: &mut Input<IT>, r3: Result<OC, Error>|
                                    #[trigger] call_ensures(*close, (j3,), r3) && j3@ == final(j2)@
                                        && final(i)@ == final(j3)@ && if r3 is Err {
                                        same_failure(r, r3)
                                    } else {
                                        r == r2
                                    }
                            }
                    }
            },
{
    move |input: &mut Input<IT>| -> (r: Result<O, Error>)
        requires
            input.wf(),
        ensures
            final(input).wf(),
            parser_step(old(input)@, final(input)@),
            exists|j1: &mut Input<IT>, r1: Result<OO, Error>|
                #[trigger] call_ensures(*open, (j1,), r1) && j1@ == old(input)@ && if r1 is Err {
                    same_failure(r, r1) && final(input)@ == final(j1)@
                } else {
                    exists|j2: &mut Input<IT>, r2: Result<O, Error>|
                        #[trigger] call_ensures(*parser, (j2,), r2) && j2@ == final(j1)@ && if r2 is Err {
                            r == r2 && final(input)@ == final(j2)@
                        } else {
                            exists|j3: &mut Input<IT>, r3: Result<OC, Error>|
                                #[trigger] call_ensures(*close, (j3,), r3) && j3@ == final(j2)@
                                    && final(input)@ == final(j3)@ && if r3 is Err {
                                    same_failure(r, r3)
                                } else {
                                    r == r2
                                }
                        }
                },
        {
            match open(input) {
                Err(e) => Err(e),
                Ok(_) => match parser(input) {
                    Err(e) => Err(e),
                    Ok(output) => match close(input) {
                        Err(e) => Err(e),
                        Ok(_) => Ok(output),
                    },
                },
            }
        }
}

} // verus!
