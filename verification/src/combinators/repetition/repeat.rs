use super::accumulator::RepetitionAccumulator;
use crate::error::{concat, decimal, usize_text, Error, ErrorView, Mismatch, MismatchView};
use crate::input::{parser_step, Input, InputToken, InputView, Position};
use crate::parser::{fails_with, total, Parser, Run};
use vstd::prelude::*;

verus! {

broadcast use vstd::string::to_string_from_display_ensures_for_str;

/// The text "`prefix``n` occurrences".
pub open spec fn count_text(prefix: Seq<char>, n: nat) -> Seq<char> {
    prefix + decimal(n) + " occurrences"@
}

fn count_text_exec(prefix: &str, n: usize) -> (s: String)
    ensures
        s@ == count_text(prefix@, n as nat),
{
    let s = concat(prefix.to_string(), usize_text(n).as_str());
    concat(s, " occurrences")
}

/// The outputs of a sequence of successful runs.
pub open spec fn successes<IT, O>(items: Seq<Run<IT, O>>) -> Seq<O> {
    items.map_values(|run: Run<IT, O>| run.out->Ok_0)
}

/// The index the input had reached after the first `k` matches of a repetition that started
/// at `start`.
pub open spec fn mark_before<IT, O>(items: Seq<Run<IT, O>>, start: InputView<IT>, k: int) -> nat {
    if k == 0 {
        start.pos
    } else {
        items[k - 1].post.pos
    }
}

/// The runs of a repetition: those of its end parser (`ends`) and of its parser (`items`), in
/// the order `ends[0], items[0], ends[1], items[1], ...`, each starting where the previous one
/// stopped, the first at `start`.
///
/// Before each application of the parser the end parser is tried; the repetition goes on while
/// the end parser fails and the parser matches, at most `max` times, each match consuming input
/// since the previous match (or the start). It stops at the first run that does not go on: an
/// end parser success, a match beyond `max`, a match that consumed nothing, or a parser failure.
#[verifier::opaque]
pub open spec fn repeat_trace<IT, O, OE>(
    max: Option<usize>,
    start: InputView<IT>,
    ends: Seq<Run<IT, OE>>,
    items: Seq<Run<IT, O>>,
) -> bool {
    let m = items.len();
    let counted: int = if ends.len() == m + 1 {
        m as int
    } else {
        m - 1
    };
    &&& ends.len() == m + 1 || (ends.len() == m && m > 0)
    &&& ends[0].pre == start
    &&& forall|k: int| 0 <= k < m ==> #[trigger] items[k].pre == ends[k].post
    &&& forall|k: int| 0 <= k < ends.len() - 1 ==> #[trigger] ends[k + 1].pre == items[k].post
    &&& forall|k: int| 0 <= k < m ==> (#[trigger] ends[k]).out is Err
    &&& forall|k: int|
        0 <= k < counted ==> {
            &&& (#[trigger] items[k]).out is Ok
            &&& items[k].post.pos > mark_before(items, start, k)
            &&& max matches Some(x) ==> k < x
        }
    &&& ends.len() == m + 1 ==> ends[m as int].out is Ok
    &&& ends.len() == m ==> (items[m - 1].out is Ok ==> max == Some((m - 1) as usize)
        || items[m - 1].post.pos == mark_before(items, start, m - 1))
}

/// Where a repetition leaves the input: where its last run stopped.
pub open spec fn repeat_post<IT, O, OE>(
    ends: Seq<Run<IT, OE>>,
    items: Seq<Run<IT, O>>,
) -> InputView<IT> {
    if ends.len() == items.len() + 1 {
        ends.last().post
    } else {
        items.last().post
    }
}

/// What a repetition returns, given its runs: on success, its matches and the end parser's
/// output (when the end parser stopped it); on failure, the view of its error.
///
/// - When the end parser succeeds: with at least `min` matches it succeeds; otherwise it fails
///   with [`Error::UnexpectedToken`] where it stopped ("at least `min` occurrences").
/// - When the parser matches once more than `max`: it fails with [`Error::UnexpectedToken`] at
///   the position where that match started ("at most `max` occurrences").
/// - When a match consumed nothing: it fails with [`Error::NonConsumingLoop`] where it stopped.
/// - When the parser fails: with `fail_on_error`, or with fewer than `min` matches, it fails
///   with the parser's error; otherwise it succeeds, with no end output.
pub open spec fn repeat_result<IT: InputToken, O, OE>(
    min: usize,
    max: Option<usize>,
    fail_on_error: bool,
    start: InputView<IT>,
    ends: Seq<Run<IT, OE>>,
    items: Seq<Run<IT, O>>,
) -> Result<(Seq<O>, Option<OE>), ErrorView> {
    let m = items.len();
    if ends.len() == m + 1 {
        if m >= min {
            Ok((successes(items), Some(ends[m as int].out->Ok_0)))
        } else {
            Err(
                ErrorView::UnexpectedToken(
                    start.source_name,
                    ends.last().post.position(),
                    Some(
                        MismatchView {
                            expected: Some(count_text("at least "@, min as nat)),
                            found: Some(count_text(""@, m)),
                        },
                    ),
                ),
            )
        }
    } else {
        let last = items[m - 1];
        match last.out {
            Ok(_) => if max == Some((m - 1) as usize) {
                Err(
                    ErrorView::UnexpectedToken(
                        start.source_name,
                        last.pre.position(),
                        Some(
                            MismatchView {
                                expected: Some(count_text("at most "@, (m - 1) as nat)),
                                found: Some(count_text(""@, m)),
                            },
                        ),
                    ),
                )
            } else {
                Err(ErrorView::NonConsumingLoop(start.source_name, last.post.position()))
            },
            Err(e) => if !fail_on_error && m - 1 >= min {
                Ok((successes(items.take(m - 1)), None))
            } else {
                Err(e@)
            },
        }
    }
}

/// `r` is what an accumulating repetition returns for the outcome `res`.
pub open spec fn accumulated<O, OE, AO, A: RepetitionAccumulator<O, AO, OE>>(
    r: Result<A, Error>,
    res: Result<(Seq<O>, Option<OE>), ErrorView>,
) -> bool {
    match res {
        Ok((matches, end)) => r matches Ok(acc) && acc.spec_added() == matches && acc.spec_end()
            == end,
        Err(e) => fails_with(r, e),
    }
}

/// The whole contract of a repetition, given its runs.
pub open spec fn repeat_outcome<IT: InputToken, O, OE, AO, A: RepetitionAccumulator<O, AO, OE>>(
    min: usize,
    max: Option<usize>,
    fail_on_error: bool,
    start: InputView<IT>,
    ends: Seq<Run<IT, OE>>,
    items: Seq<Run<IT, O>>,
    post: InputView<IT>,
    r: Result<A, Error>,
) -> bool {
    &&& repeat_trace(max, start, ends, items)
    &&& post == repeat_post(ends, items)
    &&& accumulated(r, repeat_result(min, max, fail_on_error, start, ends, items))
}


/// The runs of a repetition that has not stopped yet: it alternates end-parser failures and
/// counted matches, and its last run is an end-parser run.
#[verifier::opaque]
pub open spec fn repeat_prefix<IT, O, OE>(
    max: Option<usize>,
    start: InputView<IT>,
    ends: Seq<Run<IT, OE>>,
    items: Seq<Run<IT, O>>,
) -> bool {
    let m = items.len();
    &&& ends.len() == m + 1
    &&& ends[0].pre == start
    &&& forall|k: int| 0 <= k < m ==> #[trigger] items[k].pre == ends[k].post
    &&& forall|k: int| 0 <= k < m ==> #[trigger] ends[k + 1].pre == items[k].post
    &&& forall|k: int| 0 <= k < m ==> (#[trigger] ends[k]).out is Err
    &&& forall|k: int|
        0 <= k < m ==> {
            &&& (#[trigger] items[k]).out is Ok
            &&& items[k].post.pos > mark_before(items, start, k)
            &&& max matches Some(x) ==> k < x
        }
}

proof fn lemma_prefix_start<IT, O, OE>(max: Option<usize>, start: InputView<IT>, end: Run<IT, OE>)
    requires
        end.pre == start,
    ensures
        repeat_prefix(max, start, seq![end], Seq::<Run<IT, O>>::empty()),
{
    reveal(repeat_prefix);
}

proof fn lemma_prefix_extend<IT, O, OE>(
    max: Option<usize>,
    start: InputView<IT>,
    ends: Seq<Run<IT, OE>>,
    items: Seq<Run<IT, O>>,
    item: Run<IT, O>,
    end: Run<IT, OE>,
)
    requires
        repeat_prefix(max, start, ends, items),
        ends.last().out is Err,
        item.pre == ends.last().post,
        item.out is Ok,
        item.post.pos > mark_before(items, start, items.len() as int),
        max matches Some(x) ==> items.len() < x,
        end.pre == item.post,
    ensures
        repeat_prefix(max, start, ends.push(end), items.push(item)),
        mark_before(items.push(item), start, items.len() + 1 as int) == item.post.pos,
{
    reveal(repeat_prefix);
    let m = items.len() as int;
    let ni = items.push(item);
    let ne = ends.push(end);
    assert forall|k: int| 0 <= k < m + 1 implies #[trigger] ni[k].pre == ne[k].post by {
        if k < m {
            assert(ni[k] == items[k]);
            assert(ne[k] == ends[k]);
        }
    }
    assert forall|k: int| 0 <= k < m + 1 implies #[trigger] ne[k + 1].pre == ni[k].post by {
        if k < m {
            assert(ni[k] == items[k]);
            assert(ne[k + 1] == ends[k + 1]);
        }
    }
    assert forall|k: int| 0 <= k < m + 1 implies (#[trigger] ne[k]).out is Err by {
        if k < m {
            assert(ne[k] == ends[k]);
        }
    }
    assert forall|k: int| 0 <= k < m + 1 implies {
        &&& (#[trigger] ni[k]).out is Ok
        &&& ni[k].post.pos > mark_before(ni, start, k)
        &&& max matches Some(x) ==> k < x
    } by {
        if k < m {
            assert(ni[k] == items[k]);
            if k > 0 {
                assert(ni[k - 1] == items[k - 1]);
            }
        } else {
            if k > 0 {
                assert(ni[k - 1] == items[k - 1]);
            }
        }
    }
}

proof fn lemma_trace_end_ok<IT, O, OE>(
    max: Option<usize>,
    start: InputView<IT>,
    ends: Seq<Run<IT, OE>>,
    items: Seq<Run<IT, O>>,
)
    requires
        repeat_prefix(max, start, ends, items),
        ends.last().out is Ok,
    ensures
        repeat_trace(max, start, ends, items),
{
    reveal(repeat_prefix);
    reveal(repeat_trace);
}

proof fn lemma_trace_item_stop<IT, O, OE>(
    max: Option<usize>,
    start: InputView<IT>,
    ends: Seq<Run<IT, OE>>,
    items: Seq<Run<IT, O>>,
    item: Run<IT, O>,
)
    requires
        repeat_prefix(max, start, ends, items),
        ends.last().out is Err,
        item.pre == ends.last().post,
        item.out is Ok ==> max == Some(items.len() as usize) || item.post.pos == mark_before(
            items,
            start,
            items.len() as int,
        ),
    ensures
        repeat_trace(max, start, ends, items.push(item)),
        mark_before(items.push(item), start, items.len() as int) == mark_before(
            items,
            start,
            items.len() as int,
        ),
{
    reveal(repeat_prefix);
    reveal(repeat_trace);
    let m = items.len() as int;
    let ni = items.push(item);
    assert forall|k: int| 0 <= k < m + 1 implies #[trigger] ni[k].pre == ends[k].post by {
        if k < m {
            assert(ni[k] == items[k]);
        }
    }
    assert forall|k: int| 0 <= k < ends.len() - 1 implies #[trigger] ends[k + 1].pre == ni[k].post by {
        assert(ni[k] == items[k]);
    }
    assert forall|k: int| 0 <= k < m implies {
        &&& (#[trigger] ni[k]).out is Ok
        &&& ni[k].post.pos > mark_before(ni, start, k)
        &&& max matches Some(x) ==> k < x
    } by {
        assert(ni[k] == items[k]);
        if k > 0 {
            assert(ni[k - 1] == items[k - 1]);
        }
    }
    if m > 0 {
        assert(ni[m - 1] == items[m - 1]);
    }
}

proof fn lemma_successes_push<IT, O>(items: Seq<Run<IT, O>>, run: Run<IT, O>)
    ensures
        successes(items.push(run)) == successes(items).push(run.out->Ok_0),
{
    assert(successes(items.push(run)) =~= successes(items).push(run.out->Ok_0));
}

/// The repetition that [`repeat_outcome`] describes: `parser` applied until `end_parser`
/// succeeds, between `min_match_count` and `max_match_count` times.
fn repeat<'a, P, PE, IT: InputToken, O, OE, A, AO>(
    parser: &'a P,
    min_match_count: usize,
    max_match_count: Option<usize>,
    fail_on_error: bool,
    end_parser: &'a PE,
) -> (res: impl Parser<IT, A> + 'a) where
    P: Parser<IT, O>,
    PE: Parser<IT, OE>,
    A: RepetitionAccumulator<O, AO, OE>,

    requires
        total(*parser),
        total(*end_parser),
        forall|i: &mut Input<IT>, r: Result<O, Error>|
            #[trigger] call_ensures(*parser, (i,), r) ==> final(i).wf() && parser_step(i@, final(i)@),
        forall|i: &mut Input<IT>, r: Result<OE, Error>|
            #[trigger] call_ensures(*end_parser, (i,), r) ==> final(i).wf() && parser_step(i@, final(i)@),
    ensures
        total(res),
        forall|i: &mut Input<IT>, r: Result<A, Error>|
            #[trigger] call_ensures(res, (i,), r) ==> {
                &&& final(i).wf()
                &&& parser_step(i@, final(i)@)
                &&& exists|ends: Seq<Run<IT, OE>>, items: Seq<Run<IT, O>>|
                    {
                        &&& forall|k: int| #![trigger ends[k]]
                             0 <= k < ends.len() ==> exists|j: &mut Input<IT>|
                                #[trigger] call_ensures(*end_parser, (j,), ends[k].out) && j@ == ends[k].pre
                                    && final(j)@ == ends[k].post
                        &&& forall|k: int| #![trigger items[k]]
                             0 <= k < items.len() ==> exists|j: &mut Input<IT>|
                                #[trigger] call_ensures(*parser, (j,), items[k].out) && j@ == items[k].pre
                                    && final(j)@ == items[k].post
                        &&& repeat_outcome::<IT, O, OE, AO, A>(
                            min_match_count,
                            max_match_count,
                            fail_on_error,
                            i@,
                            ends,
                            items,
                            final(i)@,
                            r,
                        )
                    }
            },
{
    move |input: &mut Input<IT>| -> (r: Result<A, Error>)
        requires
            input.wf(),
        ensures
            final(input).wf(),
            parser_step(old(input)@, final(input)@),
            exists|ends: Seq<Run<IT, OE>>, items: Seq<Run<IT, O>>|
                {
                    &&& forall|k: int| #![trigger ends[k]]
                         0 <= k < ends.len() ==> exists|j: &mut Input<IT>|
                            #[trigger] call_ensures(*end_parser, (j,), ends[k].out) && j@ == ends[k].pre
                                && final(j)@ == ends[k].post
                    &&& forall|k: int| #![trigger items[k]]
                         0 <= k < items.len() ==> exists|j: &mut Input<IT>|
                            #[trigger] call_ensures(*parser, (j,), items[k].out) && j@ == items[k].pre
                                && final(j)@ == items[k].post
                    &&& repeat_outcome::<IT, O, OE, AO, A>(
                        min_match_count,
                        max_match_count,
                        fail_on_error,
                        old(input)@,
                        ends,
                        items,
                        final(input)@,
                        r,
                    )
                },
        {
            let ghost start = input@;
            let mut accumulator = A::new();
            let mut total_match_count: usize = 0;
            let mut previous_consumed_count = input.consumed_count();
            let ghost end_pre = input@;
            let mut end_output = end_parser(input);
            let ghost first_end = Run { pre: end_pre, post: input@, out: end_output };
            let ghost mut ends: Seq<Run<IT, OE>> = seq![first_end];
            let ghost mut items: Seq<Run<IT, O>> = Seq::empty();
            proof {
                input.lemma_view_bounds();
                lemma_prefix_start::<IT, O, OE>(max_match_count, start, first_end);
                assert(exists|j: &mut Input<IT>|
                    #[trigger] call_ensures(*end_parser, (j,), first_end.out) && j@ == first_end.pre
                        && final(j)@ == first_end.post);
                assert forall|k: int| #![trigger ends[k]] 0 <= k < ends.len() implies exists|j: &mut Input<IT>|
                    #[trigger] call_ensures(*end_parser, (j,), ends[k].out) && j@ == ends[k].pre
                        && final(j)@ == ends[k].post by {
                    assert(ends[k] == first_end);
                }
            }
            while end_output.is_err()
                invariant
                    total(*parser),
                    total(*end_parser),
                    forall|i: &mut Input<IT>, r: Result<O, Error>|
                        #[trigger] call_ensures(*parser, (i,), r) ==> final(i).wf() && parser_step(i@, final(i)@),
                    forall|i: &mut Input<IT>, r: Result<OE, Error>|
                        #[trigger] call_ensures(*end_parser, (i,), r) ==> final(i).wf() && parser_step(
                            i@,
                            final(i)@,
                        ),
                    input.wf(),
                    start == old(input)@,
                    parser_step(start, input@),
                    repeat_prefix(max_match_count, start, ends, items),
                    ends.len() == items.len() + 1,
                    total_match_count == items.len(),
                    previous_consumed_count == mark_before(items, start, items.len() as int),
                    start.pos <= previous_consumed_count <= input@.pos,
                    items.len() <= previous_consumed_count - start.pos,
                    max_match_count matches Some(x) ==> items.len() <= x,
                    accumulator.spec_added() == successes(items),
                    accumulator.spec_end() is None,
                    end_output == ends.last().out,
                    ends.last().post == input@,
                    forall|k: int| #![trigger ends[k]]
                        0 <= k < ends.len() ==> exists|j: &mut Input<IT>|
                            #[trigger] call_ensures(*end_parser, (j,), ends[k].out) && j@ == ends[k].pre
                                && final(j)@ == ends[k].post,
                    forall|k: int| #![trigger items[k]]
                        0 <= k < items.len() ==> exists|j: &mut Input<IT>|
                            #[trigger] call_ensures(*parser, (j,), items[k].out) && j@ == items[k].pre
                                && final(j)@ == items[k].post,
                decreases input@.tokens.len() - previous_consumed_count,
            {
                proof {
                    input.lemma_view_bounds();
                }
                let previous_position = input.position();
                let ghost item_pre = input@;
                let outcome = parser(input);
                let ghost item = Run { pre: item_pre, post: input@, out: outcome };
                let ghost old_items = items;
                proof {
                    assert(parser_step(start, input@));
                    assert(exists|j: &mut Input<IT>|
                        #[trigger] call_ensures(*parser, (j,), item.out) && j@ == item.pre && final(j)@
                            == item.post);
                    items = items.push(item);
                    assert forall|k: int| #![trigger items[k]] 0 <= k < items.len() implies exists|j: &mut Input<IT>|
                        #[trigger] call_ensures(*parser, (j,), items[k].out) && j@ == items[k].pre
                            && final(j)@ == items[k].post by {
                        if k < old_items.len() {
                            assert(items[k] == old_items[k]);
                        }
                    }
                    input.lemma_view_bounds();
                }
                match outcome {
                    Ok(token) => {
                        let too_many = match max_match_count {
                            Some(max_count) => max_count == total_match_count,
                            None => false,
                        };
                        if too_many {
                            let max_count = max_match_count.unwrap();
                            total_match_count = total_match_count + 1;
                            let expected = count_text_exec("at most ", max_count);
                            let found = count_text_exec("", total_match_count);
                            let mismatch = Mismatch::new(expected, found);
                            let result = Err(
                                Error::UnexpectedToken(input.source_name(), previous_position, Some(mismatch)),
                            );
                            proof {
                                lemma_trace_item_stop(max_match_count, start, ends, old_items, item);
                                assert(repeat_outcome::<IT, O, OE, AO, A>(
                                    min_match_count,
                                    max_match_count,
                                    fail_on_error,
                                    start,
                                    ends,
                                    items,
                                    input@,
                                    result,
                                ));
                            }
                            return result;
                        }
                        total_match_count = total_match_count + 1;
                        let consumed_count = input.consumed_count();
                        // A match that consumed nothing would repeat forever.
                        if previous_consumed_count == consumed_count {
                            let result = Err(Error::NonConsumingLoop(input.source_name(), input.position()));
                            proof {
                                lemma_trace_item_stop(max_match_count, start, ends, old_items, item);
                                assert(repeat_outcome::<IT, O, OE, AO, A>(
                                    min_match_count,
                                    max_match_count,
                                    fail_on_error,
                                    start,
                                    ends,
                                    items,
                                    input@,
                                    result,
                                ));
                            }
                            return result;
                        }
                        proof {
                            lemma_successes_push(old_items, item);
                        }
                        accumulator.add(token);
                        previous_consumed_count = consumed_count;
                    },
                    Err(e) => {
                        proof {
                            lemma_trace_item_stop(max_match_count, start, ends, old_items, item);
                        }
                        if fail_on_error || total_match_count < min_match_count {
                            let result = Err(e);
                            proof {
                                assert(repeat_outcome::<IT, O, OE, AO, A>(
                                    min_match_count,
                                    max_match_count,
                                    fail_on_error,
                                    start,
                                    ends,
                                    items,
                                    input@,
                                    result,
                                ));
                            }
                            return result;
                        } else {
                            let result = Ok(accumulator);
                            proof {
                                assert(items.take(items.len() - 1) =~= old_items);
                                assert(repeat_outcome::<IT, O, OE, AO, A>(
                                    min_match_count,
                                    max_match_count,
                                    fail_on_error,
                                    start,
                                    ends,
                                    items,
                                    input@,
                                    result,
                                ));
                            }
                            return result;
                        }
                    },
                }
                let ghost end_pre = input@;
                end_output = end_parser(input);
                let ghost end_run = Run { pre: end_pre, post: input@, out: end_output };
                let ghost old_ends = ends;
                proof {
                    lemma_prefix_extend(max_match_count, start, old_ends, old_items, item, end_run);
                    assert(exists|j: &mut Input<IT>|
                        #[trigger] call_ensures(*end_parser, (j,), end_run.out) && j@ == end_run.pre
                            && final(j)@ == end_run.post);
                    ends = ends.push(end_run);
                    assert forall|k: int| #![trigger ends[k]] 0 <= k < ends.len() implies exists|j: &mut Input<IT>|
                        #[trigger] call_ensures(*end_parser, (j,), ends[k].out) && j@ == ends[k].pre
                            && final(j)@ == ends[k].post by {
                        if k < old_ends.len() {
                            assert(ends[k] == old_ends[k]);
                        }
                    }
                }
            }
            proof {
                lemma_trace_end_ok(max_match_count, start, ends, items);
            }
            let result = if total_match_count >= min_match_count {
                accumulator.end(end_output.ok());
                Ok(accumulator)
            } else {
                let expected = count_text_exec("at least ", min_match_count);
                let found = count_text_exec("", total_match_count);
                let mismatch = Mismatch::new(expected, found);
                Err(Error::UnexpectedToken(input.source_name(), input.position(), Some(mismatch)))
            };
            proof {
                assert(repeat_outcome::<IT, O, OE, AO, A>(
                    min_match_count,
                    max_match_count,
                    fail_on_error,
                    start,
                    ends,
                    items,
                    input@,
                    result,
                ));
            }
            result
        }
}

/// A run of the end parser of a repetition without end: it fails without consuming input.
pub open spec fn fail_run<IT>(run: Run<IT, ()>) -> bool {
    &&& run.post == run.pre
    &&& fails_with(run.out, ErrorView::UnexpectedToken(None, Position { line: 0, column: 0 }, None))
}

/// The end parser of a repetition without end: it always fails, consuming nothing.
fn fail<IT: InputToken>(input: &mut Input<IT>) -> (r: Result<(), Error>)
    requires
        old(input).wf(),
    ensures
        final(input).wf(),
        final(input)@ == old(input)@,
        parser_step(old(input)@, final(input)@),
        fails_with(r, ErrorView::UnexpectedToken(None, Position { line: 0, column: 0 }, None)),
{
    proof {
        input.lemma_view_bounds();
    }
    Err(Error::UnexpectedToken(None, Position::new(0, 0), None))
}

/// `r` is what a collecting repetition returns for the outcome `res`: the vector of matches.
pub open spec fn collected<O, E>(
    r: Result<Vec<O>, Error>,
    res: Result<(Seq<O>, Option<E>), ErrorView>,
) -> bool {
    match res {
        Ok((matches, _)) => r matches Ok(v) && v@ == matches,
        Err(e) => fails_with(r, e),
    }
}

/// `r` is what a collecting repetition with an end parser returns for the outcome `res`: the
/// vector of matches and the end parser's output.
pub open spec fn collected_until<O, E>(
    r: Result<(Vec<O>, E), Error>,
    res: Result<(Seq<O>, Option<E>), ErrorView>,
) -> bool {
    match res {
        Ok((matches, end)) => r matches Ok((v, e)) && v@ == matches && end == Some(e),
        Err(e) => fails_with(r, e),
    }
}

/// `r` is what a counting repetition returns for the outcome `res`: the number of matches.
pub open spec fn counted<O, E>(r: Result<usize, Error>, res: Result<(Seq<O>, Option<E>), ErrorView>) -> bool {
    match res {
        Ok((matches, _)) => r == Ok::<usize, Error>(matches.len() as usize),
        Err(e) => fails_with(r, e),
    }
}

/// A repetition of `parser` with no end parser: it goes on until `parser` stops matching, and
/// accumulates its matches in an `A`.
pub fn repeat_no_end<'a, P, IT: InputToken, O, A, AO>(
    parser: &'a P,
    min_match_count: usize,
    max_match_count: Option<usize>,
) -> (res: impl Parser<IT, A> + 'a) where P: Parser<IT, O>, A: RepetitionAccumulator<O, AO, ()>,

    requires
        total(*parser),
        forall|i: &mut Input<IT>, r: Result<O, Error>|
            #[trigger] call_ensures(*parser, (i,), r) ==> final(i).wf() && parser_step(i@, final(i)@),
    ensures
        total(res),
        forall|i: &mut Input<IT>, r: Result<A, Error>|
            #[trigger] call_ensures(res, (i,), r) ==> {
                &&& final(i).wf()
                &&& parser_step(i@, final(i)@)
                &&& exists|ends: Seq<Run<IT, ()>>, items: Seq<Run<IT, O>>|
                    {
                        &&& forall|k: int| 0 <= k < ends.len() ==> fail_run(#[trigger] ends[k])
                        &&& forall|k: int| #![trigger items[k]]
                            0 <= k < items.len() ==> exists|j: &mut Input<IT>|
                                #[trigger] call_ensures(*parser, (j,), items[k].out) && j@ == items[k].pre
                                    && final(j)@ == items[k].post
                        &&& repeat_outcome::<IT, O, (), AO, A>(
                            min_match_count,
                            max_match_count,
                            false,
                            i@,
                            ends,
                            items,
                            final(i)@,
                            r,
                        )
                    }
            },
{
    move |input: &mut Input<IT>| -> (r: Result<A, Error>)
        requires
            input.wf(),
        ensures
            final(input).wf(),
            parser_step(old(input)@, final(input)@),
            exists|ends: Seq<Run<IT, ()>>, items: Seq<Run<IT, O>>|
                {
                    &&& forall|k: int| 0 <= k < ends.len() ==> fail_run(#[trigger] ends[k])
                    &&& forall|k: int| #![trigger items[k]]
                        0 <= k < items.len() ==> exists|j: &mut Input<IT>|
                            #[trigger] call_ensures(*parser, (j,), items[k].out) && j@ == items[k].pre
                                && final(j)@ == items[k].post
                    &&& repeat_outcome::<IT, O, (), AO, A>(
                        min_match_count,
                        max_match_count,
                        false,
                        old(input)@,
                        ends,
                        items,
                        final(input)@,
                        r,
                    )
                },
        {
            let end = fail::<IT>;
            let repetition = repeat(parser, min_match_count, max_match_count, false, &end);
            repetition(input)
        }
}

/// A repetition of `parser` until `end_parser` succeeds; it fails as soon as `parser` fails, and
/// accumulates the matches and the end output in an `A`.
pub fn repeat_with_end<'a, P, PE, IT: InputToken, O, OE, A, AO>(
    parser: &'a P,
    min_match_count: usize,
    max_match_count: Option<usize>,
    end_parser: &'a PE,
) -> (res: impl Parser<IT, A> + 'a) where
    P: Parser<IT, O>,
    PE: Parser<IT, OE>,
    A: RepetitionAccumulator<O, AO, OE>,

    requires
        total(*parser),
        total(*end_parser),
        forall|i: &mut Input<IT>, r: Result<O, Error>|
            #[trigger] call_ensures(*parser, (i,), r) ==> final(i).wf() && parser_step(i@, final(i)@),
        forall|i: &mut Input<IT>, r: Result<OE, Error>|
            #[trigger] call_ensures(*end_parser, (i,), r) ==> final(i).wf() && parser_step(i@, final(i)@),
    ensures
        total(res),
        forall|i: &mut Input<IT>, r: Result<A, Error>|
            #[trigger] call_ensures(res, (i,), r) ==> {
                &&& final(i).wf()
                &&& parser_step(i@, final(i)@)
                &&& exists|ends: Seq<Run<IT, OE>>, items: Seq<Run<IT, O>>|
                    {
                        &&& forall|k: int| #![trigger ends[k]]
                            0 <= k < ends.len() ==> exists|j: &mut Input<IT>|
                                #[trigger] call_ensures(*end_parser, (j,), ends[k].out) && j@ == ends[k].pre
                                    && final(j)@ == ends[k].post
                        &&& forall|k: int| #![trigger items[k]]
                            0 <= k < items.len() ==> exists|j: &mut Input<IT>|
                                #[trigger] call_ensures(*parser, (j,), items[k].out) && j@ == items[k].pre
                                    && final(j)@ == items[k].post
                        &&& repeat_outcome::<IT, O, OE, AO, A>(
                            min_match_count,
                            max_match_count,
                            true,
                            i@,
                            ends,
                            items,
                            final(i)@,
                            r,
                        )
                    }
            },
{
    repeat(parser, min_match_count, max_match_count, true, end_parser)
}

} // verus!
