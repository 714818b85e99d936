//! The parser trait: any function from a mutable input to a result is a parser.
use crate::combinators::{end_of_input, end_of_input_outcome};
use crate::error::{Error, ErrorView, Mismatch, MismatchElement, MismatchView};
use crate::input::{parser_step, CharToken, Input, InputToken, InputView, StringInput};
use vstd::prelude::*;

verus! {

/// A parser: a function that reads tokens of type `IT` from an [`Input`] and returns either an
/// output of type `O` or an [`Error`]. Every such function is a `Parser`.
pub trait Parser<IT, O>: Fn(&mut Input<IT>) -> Result<O, Error> {

}

impl<IT, O, X> Parser<IT, O> for X where X: Fn(&mut Input<IT>) -> Result<O, Error> {

}

/// A parser of character input.
pub trait StringParser<O>: Parser<CharToken, O> {

}

impl<O, X> StringParser<O> for X where X: Fn(&mut StringInput) -> Result<O, Error> {

}

/// `r` is a failure whose error is `e`.
pub open spec fn fails_with<O>(r: Result<O, Error>, e: ErrorView) -> bool {
    r matches Err(err) && err@ == e
}

/// `a` and `b` are failures with the same error.
pub open spec fn same_failure<A, B>(a: Result<A, Error>, b: Result<B, Error>) -> bool {
    a matches Err(x) && b matches Err(y) && x == y
}

/// `p` can be applied to every consistent input.
pub open spec fn total<IT: InputToken, O, P: Fn(&mut Input<IT>) -> Result<O, Error>>(p: P) -> bool {
    forall|i: &mut Input<IT>| (*i).wf() ==> #[trigger] call_requires(p, (i,))
}

/// One application of a parser: the input it started from, the input it left, and its outcome.
pub struct Run<IT, O> {
    pub pre: InputView<IT>,
    pub post: InputView<IT>,
    pub out: Result<O, Error>,
}

/// `a` and `b` are the same place in the same input: the same tokens, reading index and source
/// name. Their lookahead marks may differ.
pub open spec fn same_place<IT>(a: InputView<IT>, b: InputView<IT>) -> bool {
    &&& a.tokens == b.tokens
    &&& a.pos == b.pos
    &&& a.source_name == b.source_name
}

/// Two runs of a parser agree: when they start at the same place, they return the same outcome
/// and stop at the same index.
pub open spec fn runs_agree<IT, O>(a: Run<IT, O>, b: Run<IT, O>) -> bool {
    same_place(a.pre, b.pre) ==> a.out == b.out && a.post.pos == b.post.pos
}

/// The runs in `trace` follow each other: each starts where the previous one stopped, the first
/// at `start`.
pub open spec fn chained<IT, O>(trace: Seq<Run<IT, O>>, start: InputView<IT>) -> bool {
    &&& trace.len() > 0 ==> trace[0].pre == start
    &&& forall|k: int| 0 <= k < trace.len() - 1 ==> #[trigger] trace[k + 1].pre == trace[k].post
}

/// Where a sequence of runs that started at `start` leaves the input.
pub open spec fn trace_end<IT, O>(trace: Seq<Run<IT, O>>, start: InputView<IT>) -> InputView<IT> {
    if trace.len() == 0 {
        start
    } else {
        trace.last().post
    }
}

/// The error `e` with its expectation replaced by `expected`: an end of input now expects
/// `expected`; an unexpected token now expects `expected` and keeps what it found; a
/// non-consuming loop is left as it is.
pub open spec fn with_expected(e: ErrorView, expected: Seq<char>) -> ErrorView {
    match e {
        ErrorView::EndOfInput(_) => ErrorView::EndOfInput(Some(expected)),
        ErrorView::UnexpectedToken(s, p, Some(m)) => ErrorView::UnexpectedToken(
            s,
            p,
            Some(MismatchView { expected: Some(expected), found: m.found }),
        ),
        ErrorView::UnexpectedToken(s, p, None) => ErrorView::UnexpectedToken(
            s,
            p,
            Some(MismatchView { expected: Some(expected), found: None }),
        ),
        ErrorView::NonConsumingLoop(_, _) => e,
    }
}

/// What [`with_expectation`] does, given the run of `parser` (`run`, from `pre`): it stops
/// where `parser` stopped, returns what `parser` returned on success, and the error of `parser`
/// with `expected` as its expectation on failure.
pub open spec fn expectation_outcome<IT, O>(
    expected: Seq<char>,
    pre: InputView<IT>,
    run: Run<IT, O>,
    post: InputView<IT>,
    r: Result<O, Error>,
) -> bool {
    &&& run.pre == pre
    &&& post == run.post
    &&& match run.out {
        Ok(_) => r == run.out,
        Err(e) => fails_with(r, with_expected(e@, expected)),
    }
}

/// A parser that behaves as `parser`, but whose errors state `expectation` as what was
/// expected (see [`with_expected`]).
pub fn with_expectation<P, IT: InputToken, O, E>(parser: P, expectation: E) -> (res: impl Parser<IT, O>) where
    P: Parser<IT, O>,
    E: MismatchElement,

    requires
        total(parser),
        forall|i: &mut Input<IT>, r: Result<O, Error>|
            #[trigger] call_ensures(parser, (i,), r) ==> final(i).wf() && parser_step(i@, final(i)@),
    ensures
        total(res),
        forall|i: &mut Input<IT>, r: Result<O, Error>|
            #[trigger] call_ensures(res, (i,), r) ==> {
                &&& final(i).wf()
                &&& parser_step(i@, final(i)@)
                &&& exists|run: Run<IT, O>|
                    {
                        &&& exists|j: &mut Input<IT>|
                            #[trigger] call_ensures(parser, (j,), run.out) && j@ == run.pre && final(j)@
                                == run.post
                        &&& expectation_outcome(expectation.spec_text(), i@, run, final(i)@, r)
                    }
            },
{
    move |input: &mut Input<IT>| -> (r: Result<O, Error>)
        requires
            input.wf(),
        ensures
            final(input).wf(),
            parser_step(old(input)@, final(input)@),
            exists|run: Run<IT, O>|
                {
                    &&& exists|j: &mut Input<IT>|
                        #[trigger] call_ensures(parser, (j,), run.out) && j@ == run.pre && final(j)@
                            == run.post
                    &&& expectation_outcome(expectation.spec_text(), old(input)@, run, final(input)@, r)
                },
        {
            let ghost pre = input@;
            let outcome = parser(input);
            let ghost run = Run { pre, post: input@, out: outcome };
            proof {
                assert(exists|j: &mut Input<IT>|
                    #[trigger] call_ensures(parser, (j,), run.out) && j@ == run.pre && final(j)@
                        == run.post);
            }
            let result = match outcome {
                Ok(result) => Ok(result),
                Err(Error::EndOfInput(_)) => Err(Error::EndOfInput(Some(expectation.text()))),
                Err(Error::UnexpectedToken(s, p, Some(mismatch))) => {
                    let mut mismatch = mismatch;
                    mismatch.replace_expectation(expectation.text());
                    Err(Error::UnexpectedToken(s, p, Some(mismatch)))
                },
                Err(Error::UnexpectedToken(s, p, None)) => {
                    let mismatch = Mismatch::without_found(expectation.text());
                    Err(Error::UnexpectedToken(s, p, Some(mismatch)))
                },
                Err(error) => Err(error),
            };
            proof {
                assert(expectation_outcome(expectation.spec_text(), pre, run, input@, result));
            }
            result
        }
}

/// A parser that applies `f` to the output of `parser`; it fails as `parser` does, without
/// calling `f`.
pub fn map<P, IT: InputToken, O, F, MO>(parser: P, f: F) -> (res: impl Parser<IT, MO>) where
    P: Parser<IT, O>,
    F: Fn(O) -> MO,

    requires
        total(parser),
        forall|i: &mut Input<IT>, r: Result<O, Error>|
            #[trigger] call_ensures(parser, (i,), r) ==> final(i).wf() && parser_step(i@, final(i)@),
        forall|o: O| #[trigger] call_requires(f, (o,)),
    ensures
        total(res),
        forall|i: &mut Input<IT>, r: Result<MO, Error>|
            #[trigger] call_ensures(res, (i,), r) ==> {
                &&& final(i).wf()
                &&& parser_step(i@, final(i)@)
                &&& exists|j: &mut Input<IT>, inner: Result<O, Error>|
                    #[trigger] call_ensures(parser, (j,), inner) && j@ == i@ && final(i)@ == final(j)@
                        && match inner {
                        Ok(v) => r matches Ok(w) && call_ensures(f, (v,), w),
                        Err(e) => r == Err::<MO, Error>(e),
                    }
            },
{
    move |input: &mut Input<IT>| -> (r: Result<MO, Error>)
        requires
            input.wf(),
        ensures
            final(input).wf(),
            parser_step(old(input)@, final(input)@),
            exists|j: &mut Input<IT>, inner: Result<O, Error>|
                #[trigger] call_ensures(parser, (j,), inner) && j@ == old(input)@ && final(input)@
                    == final(j)@ && match inner {
                    Ok(v) => r matches Ok(w) && call_ensures(f, (v,), w),
                    Err(e) => r == Err::<MO, Error>(e),
                },
        {
            match parser(input) {
                Ok(value) => Ok(f(value)),
                Err(e) => Err(e),
            }
        }
}

/// A parser that runs `parser`, hands its output to `f`, and runs the parser that `f` returns
/// where `parser` stopped; it fails as `parser` does, without calling `f`.
pub fn and_then<P, IT: InputToken, O, F, Q, NO>(parser: P, f: F) -> (res: impl Parser<IT, NO>) where
    P: Parser<IT, O>,
    F: Fn(O) -> Q,
    Q: Parser<IT, NO>,

    requires
        total(parser),
        forall|i: &mut Input<IT>, r: Result<O, Error>|
            #[trigger] call_ensures(parser, (i,), r) ==> final(i).wf() && parser_step(i@, final(i)@),
        forall|o: O| #[trigger] call_requires(f, (o,)),
        forall|o: O, q: Q|
            #[trigger] call_ensures(f, (o,), q) ==> {
                &&& total(q)
                &&& forall|i: &mut Input<IT>, r: Result<NO, Error>|
                    #[trigger] call_ensures(q, (i,), r) ==> final(i).wf() && parser_step(i@, final(i)@)
            },
    ensures
        total(res),
        forall|i: &mut Input<IT>, r: Result<NO, Error>|
            #[trigger] call_ensures(res, (i,), r) ==> {
                &&& final(i).wf()
                &&& parser_step(i@, final(i)@)
                &&& exists|j: &mut Input<IT>, inner: Result<O, Error>|
                    #[trigger] call_ensures(parser, (j,), inner) && j@ == i@ && match inner {
                        Ok(v) => exists|q: Q, k: &mut Input<IT>|
                            #[trigger] call_ensures(f, (v,), q) && #[trigger] call_ensures(q, (k,), r)
                                && k@ == final(j)@ && final(i)@ == final(k)@,
                        Err(e) => r == Err::<NO, Error>(e) && final(i)@ == final(j)@,
                    }
            },
{
    move |input: &mut Input<IT>| -> (r: Result<NO, Error>)
        requires
            input.wf(),
        ensures
            final(input).wf(),
            parser_step(old(input)@, final(input)@),
            exists|j: &mut Input<IT>, inner: Result<O, Error>|
                #[trigger] call_ensures(parser, (j,), inner) && j@ == old(input)@ && match inner {
                    Ok(v) => exists|q: Q, k: &mut Input<IT>|
                        #[trigger] call_ensures(f, (v,), q) && #[trigger] call_ensures(q, (k,), r) && k@
                            == final(j)@ && final(input)@ == final(k)@,
                    Err(e) => r == Err::<NO, Error>(e) && final(input)@ == final(j)@,
                },
        {
            match parser(input) {
                Ok(value) => {
                    let next = f(value);
                    next(input)
                },
                Err(e) => Err(e),
            }
        }
}

/// A parser that runs `parser`, drops its output, and runs `other` where `parser` stopped; it
/// fails as `parser` does, without running `other`.
pub fn and<P, IT: InputToken, O, Q, NO>(parser: P, other: Q) -> (res: impl Parser<IT, NO>) where
    P: Parser<IT, O>,
    Q: Parser<IT, NO>,

    requires
        total(parser),
        total(other),
        forall|i: &mut Input<IT>, r: Result<O, Error>|
            #[trigger] call_ensures(parser, (i,), r) ==> final(i).wf() && parser_step(i@, final(i)@),
        forall|i: &mut Input<IT>, r: Result<NO, Error>|
            #[trigger] call_ensures(other, (i,), r) ==> final(i).wf() && parser_step(i@, final(i)@),
    ensures
        total(res),
        forall|i: &mut Input<IT>, r: Result<NO, Error>|
            #[trigger] call_ensures(res, (i,), r) ==> {
                &&& final(i).wf()
                &&& parser_step(i@, final(i)@)
                &&& exists|j: &mut Input<IT>, inner: Result<O, Error>|
                    #[trigger] call_ensures(parser, (j,), inner) && j@ == i@ && match inner {
                        Ok(_) => exists|k: &mut Input<IT>|
                            #[trigger] call_ensures(other, (k,), r) && k@ == final(j)@ && final(i)@
                                == final(k)@,
                        Err(e) => r == Err::<NO, Error>(e) && final(i)@ == final(j)@,
                    }
            },
{
    move |input: &mut Input<IT>| -> (r: Result<NO, Error>)
        requires
            input.wf(),
        ensures
            final(input).wf(),
            parser_step(old(input)@, final(input)@),
            exists|j: &mut Input<IT>, inner: Result<O, Error>|
                #[trigger] call_ensures(parser, (j,), inner) && j@ == old(input)@ && match inner {
                    Ok(_) => exists|k: &mut Input<IT>|
                        #[trigger] call_ensures(other, (k,), r) && k@ == final(j)@ && final(input)@
                            == final(k)@,
                    Err(e) => r == Err::<NO, Error>(e) && final(input)@ == final(j)@,
                },
        {
            match parser(input) {
                Ok(_) => other(input),
                Err(e) => Err(e),
            }
        }
}

/// A parser that runs `parser` and then requires the input to be exhausted: it fails as
/// `parser` does, or as [`end_of_input`] does where `parser` stopped.
pub fn exhaustive<P, IT: InputToken, O>(parser: P) -> (res: impl Parser<IT, O>) where
    P: Parser<IT, O>,

    requires
        total(parser),
        forall|i: &mut Input<IT>, r: Result<O, Error>|
            #[trigger] call_ensures(parser, (i,), r) ==> final(i).wf() && parser_step(i@, final(i)@),
    ensures
        total(res),
        forall|i: &mut Input<IT>, r: Result<O, Error>|
            #[trigger] call_ensures(res, (i,), r) ==> {
                &&& final(i).wf()
                &&& parser_step(i@, final(i)@)
                &&& exists|j: &mut Input<IT>, inner: Result<O, Error>|
                    #[trigger] call_ensures(parser, (j,), inner) && j@ == i@ && final(i)@ == final(j)@
                        && match inner {
                        Ok(_) => exists|end: Result<(), Error>|
                            end_of_input_outcome(final(j)@, final(j)@, end) && match end {
                                Ok(_) => r == inner,
                                Err(e) => r == Err::<O, Error>(e),
                            },
                        Err(_) => r == inner,
                    }
            },
{
    move |input: &mut Input<IT>| -> (r: Result<O, Error>)
        requires
            input.wf(),
        ensures
            final(input).wf(),
            parser_step(old(input)@, final(input)@),
            exists|j: &mut Input<IT>, inner: Result<O, Error>|
                #[trigger] call_ensures(parser, (j,), inner) && j@ == old(input)@ && final(input)@
                    == final(j)@ && match inner {
                    Ok(_) => exists|end: Result<(), Error>|
                        end_of_input_outcome(final(j)@, final(j)@, end) && match end {
                            Ok(_) => r == inner,
                            Err(e) => r == Err::<O, Error>(e),
                        },
                    Err(_) => r == inner,
                },
        {
            let output = parser(input)?;
            let end = end_of_input::<IT>();
            end(input)?;
            Ok(output)
        }
}

/// A parser that runs `parser` and drops its output, returning `()`; it fails as `parser`
/// does.
pub fn discard<P, IT: InputToken, O>(parser: P) -> (res: impl Parser<IT, ()>) where
    P: Parser<IT, O>,

    requires
        total(parser),
        forall|i: &mut Input<IT>, r: Result<O, Error>|
            #[trigger] call_ensures(parser, (i,), r) ==> final(i).wf() && parser_step(i@, final(i)@),
    ensures
        total(res),
        forall|i: &mut Input<IT>, r: Result<(), Error>|
            #[trigger] call_ensures(res, (i,), r) ==> {
                &&& final(i).wf()
                &&& parser_step(i@, final(i)@)
                &&& exists|j: &mut Input<IT>, inner: Result<O, Error>|
                    #[trigger] call_ensures(parser, (j,), inner) && j@ == i@ && final(i)@ == final(j)@
                        && match inner {
                        Ok(_) => r == Ok::<(), Error>(()),
                        Err(e) => r == Err::<(), Error>(e),
                    }
            },
{
    move |input: &mut Input<IT>| -> (r: Result<(), Error>)
        requires
            input.wf(),
        ensures
            final(input).wf(),
            parser_step(old(input)@, final(input)@),
            exists|j: &mut Input<IT>, inner: Result<O, Error>|
                #[trigger] call_ensures(parser, (j,), inner) && j@ == old(input)@ && final(input)@
                    == final(j)@ && match inner {
                    Ok(_) => r == Ok::<(), Error>(()),
                    Err(e) => r == Err::<(), Error>(e),
                },
        {
            match parser(input) {
                Ok(_) => Ok(()),
                Err(e) => Err(e),
            }
        }
}

} // verus!
