use crate::combinators::repetition::successes;
use crate::error::{Error, ErrorView};
use crate::input::{parser_step, Input, InputToken, InputView};
use crate::parser::{fails_with, total, Parser, Run};
use vstd::prelude::*;

verus! {

/// The runs of [`many_until`] that have not stopped it yet: end-parser failures alternating
/// with matches, the last run an end-parser run, the first at `start`; each match after the
/// first consumed input since the previous match.
pub open spec fn until_prefix<IT, O, OE>(
    start: InputView<IT>,
    ends: Seq<Run<IT, OE>>,
    items: Seq<Run<IT, O>>,
) -> bool {
    let m = items.len();
    &&& ends.len() == m + 1
    &&& ends[0].pre == start
    &&& forall|k: int| 0 <= k < m ==> #[trigger] items[k].pre == ends[k].post
    &&& forall|k: int| 0 <= k < m ==> #[trigger] ends[k + 1].pre == items[k].post
    &&& forall|k: int| 0 <= k < m ==> (#[trigger] ends[k]).out is Err
    &&& forall|k: int| 0 <= k < m ==> (#[trigger] items[k]).out is Ok
    &&& forall|k: int| 0 < k < m ==> #[trigger] items[k].post.pos > items[k - 1].post.pos
}

/// The runs of [`many_until`]: before each application of `parser` the end parser is tried; it
/// goes on while the end parser fails and `parser` matches, and stops at the first end-parser
/// success, `parser` failure, or match after the first that consumed nothing since the previous
/// match.
pub open spec fn until_trace<IT, O, OE>(
    start: InputView<IT>,
    ends: Seq<Run<IT, OE>>,
    items: Seq<Run<IT, O>>,
) -> bool {
    let m = items.len();
    ||| until_prefix(start, ends, items) && ends.last().out is Ok
    ||| {
        &&& m > 0
        &&& until_prefix(start, ends, items.drop_last())
        &&& ends.last().out is Err
        &&& items.last().pre == ends.last().post
        &&& items.last().out is Ok ==> m >= 2 && items.last().post.pos == items[m - 2].post.pos
    }
}

/// Where [`many_until`] leaves the input: where its last run stopped.
pub open spec fn until_post<IT, O, OE>(
    ends: Seq<Run<IT, OE>>,
    items: Seq<Run<IT, O>>,
) -> InputView<IT> {
    if ends.len() == items.len() + 1 {
        ends.last().post
    } else {
        items.last().post
    }
}

/// What [`many_until`] returns, given its runs: the matches when the end parser stopped it;
/// the error of `parser` when `parser` failed; [`Error::NonConsumingLoop`] where it stopped when
/// a match consumed nothing.
pub open spec fn until_result<IT: InputToken, O, OE>(
    start: InputView<IT>,
    ends: Seq<Run<IT, OE>>,
    items: Seq<Run<IT, O>>,
    r: Result<Vec<O>, Error>,
) -> bool {
    if ends.len() == items.len() + 1 {
        r matches Ok(v) && v@ == successes(items)
    } else {
        match items.last().out {
            Err(e) => r == Err::<Vec<O>, Error>(e),
            Ok(_) => fails_with(
                r,
                ErrorView::NonConsumingLoop(start.source_name, items.last().post.position()),
            ),
        }
    }
}

proof fn lemma_until_extend<IT, O, OE>(
    start: InputView<IT>,
    ends: Seq<Run<IT, OE>>,
    items: Seq<Run<IT, O>>,
    item: Run<IT, O>,
    end: Run<IT, OE>,
)
    requires
        until_prefix(start, ends, items),
        ends.last().out is Err,
        item.pre == ends.last().post,
        item.out is Ok,
        items.len() > 0 ==> item.post.pos > items.last().post.pos,
        end.pre == item.post,
    ensures
        until_prefix(start, ends.push(end), items.push(item)),
{
    let m = items.len() as int;
    let ni = items.push(item);
    let ne = ends.push(end);
    assert forall|k: int| 0 <= k < m + 1 implies #[trigger] ni[k].pre == ne[k].post by {
        if k < m {
            assert(ni[k] == items[k]);
            assert(ne[k] == ends[k]);
        }
    }
    assert forall|k: int| 0 <= k < m + 1 implies #[trigger] ne[k + 1].pre == ni[k].post by {
        if k < m {
            assert(ni[k] == items[k]);
            assert(ne[k + 1] == ends[k + 1]);
        }
    }
    assert forall|k: int| 0 <= k < m + 1 implies (#[trigger] ne[k]).out is Err by {
        if k < m {
            assert(ne[k] == ends[k]);
        }
    }
    assert forall|k: int| 0 <= k < m + 1 implies (#[trigger] ni[k]).out is Ok by {
        if k < m {
            assert(ni[k] == items[k]);
        }
    }
    assert forall|k: int| 0 < k < m + 1 implies #[trigger] ni[k].post.pos > ni[k - 1].post.pos by {
        assert(ni[k - 1] == items[k - 1]);
        if k < m {
            assert(ni[k] == items[k]);
        }
    }
}

/// A parser that applies `parser` zero or more times until `end` succeeds, and returns the
/// matches. Before each application of `parser`, `end` is tried; the output of `end` is
/// dropped. It fails as soon as `parser` fails.
pub fn many_until<'a, P, PE, IT: InputToken, O, OE>(parser: &'a P, end: &'a PE) -> (res: impl Parser<
    IT,
    Vec<O>,
> + 'a) where P: Parser<IT, O>, PE: Parser<IT, OE>,

    requires
        total(*parser),
        total(*end),
        forall|i: &mut Input<IT>, r: Result<O, Error>|
            #[trigger] call_ensures(*parser, (i,), r) ==> final(i).wf() && parser_step(i@, final(i)@),
        forall|i: &mut Input<IT>, r: Result<OE, Error>|
            #[trigger] call_ensures(*end, (i,), r) ==> final(i).wf() && parser_step(i@, final(i)@),
    ensures
        total(res),
        forall|i: &mut Input<IT>, r: Result<Vec<O>, Error>|
            #[trigger] call_ensures(res, (i,), r) ==> {
                &&& final(i).wf()
                &&& parser_step(i@, final(i)@)
                &&& exists|ends: Seq<Run<IT, OE>>, items: Seq<Run<IT, O>>|
                    {
                        &&& forall|k: int| #![trigger ends[k]]
                            0 <= k < ends.len() ==> exists|j: &mut Input<IT>|
                                #[trigger] call_ensures(*end, (j,), ends[k].out) && j@ == ends[k].pre
                                    && final(j)@ == ends[k].post
                        &&& forall|k: int| #![trigger items[k]]
                            0 <= k < items.len() ==> exists|j: &mut Input<IT>|
                                #[trigger] call_ensures(*parser, (j,), items[k].out) && j@ == items[k].pre
                                    && final(j)@ == items[k].post
                        &&& until_trace(i@, ends, items)
                        &&& final(i)@ == until_post(ends, items)
                        &&& until_result(i@, ends, items, r)
                    }
            },
{
    move |input: &mut Input<IT>| -> (r: Result<Vec<O>, Error>)
        requires
            input.wf(),
        ensures
            final(input).wf(),
            parser_step(old(input)@, final(input)@),
            exists|ends: Seq<Run<IT, OE>>, items: Seq<Run<IT, O>>|
                {
                    &&& forall|k: int| #![trigger ends[k]]
                        0 <= k < ends.len() ==> exists|j: &mut Input<IT>|
                            #[trigger] call_ensures(*end, (j,), ends[k].out) && j@ == ends[k].pre
                                && final(j)@ == ends[k].post
                    &&& forall|k: int| #![trigger items[k]]
                        0 <= k < items.len() ==> exists|j: &mut Input<IT>|
                            #[trigger] call_ensures(*parser, (j,), items[k].out) && j@ == items[k].pre
                                && final(j)@ == items[k].post
                    &&& until_trace(old(input)@, ends, items)
                    &&& final(input)@ == until_post(ends, items)
                    &&& until_result(old(input)@, ends, items, r)
                },
        {
            let ghost start = input@;
            let mut matches: Vec<O> = Vec::new();
            let mut previous_count: Option<usize> = None;
            let ghost end_pre = input@;
            let mut end_output = end(input);
            let ghost first_end = Run { pre: end_pre, post: input@, out: end_output };
            let ghost mut ends: Seq<Run<IT, OE>> = seq![first_end];
            let ghost mut items: Seq<Run<IT, O>> = Seq::empty();
            proof {
                input.lemma_view_bounds();
                assert(exists|j: &mut Input<IT>|
                    #[trigger] call_ensures(*end, (j,), first_end.out) && j@ == first_end.pre
                        && final(j)@ == first_end.post);
                assert forall|k: int| #![trigger ends[k]] 0 <= k < ends.len() implies exists|j: &mut Input<IT>|
                    #[trigger] call_ensures(*end, (j,), ends[k].out) && j@ == ends[k].pre
                        && final(j)@ == ends[k].post by {
                    assert(ends[k] == first_end);
                }
            }
            while end_output.is_err()
                invariant
                    total(*parser),
                    total(*end),
                    forall|i: &mut Input<IT>, r: Result<O, Error>|
                        #[trigger] call_ensures(*parser, (i,), r) ==> final(i).wf() && parser_step(i@, final(i)@),
                    forall|i: &mut Input<IT>, r: Result<OE, Error>|
                        #[trigger] call_ensures(*end, (i,), r) ==> final(i).wf() && parser_step(i@, final(i)@),
                    input.wf(),
                    start == old(input)@,
                    parser_step(start, input@),
                    until_prefix(start, ends, items),
                    previous_count is Some <==> items.len() > 0,
                    items.len() > 0 ==> previous_count->0 == items.last().post.pos,
                    items.len() > 0 ==> items.last().post.pos <= input@.pos,
                    matches@ == successes(items),
                    end_output == ends.last().out,
                    ends.last().post == input@,
                    forall|k: int| #![trigger ends[k]]
                        0 <= k < ends.len() ==> exists|j: &mut Input<IT>|
                            #[trigger] call_ensures(*end, (j,), ends[k].out) && j@ == ends[k].pre
                                && final(j)@ == ends[k].post,
                    forall|k: int| #![trigger items[k]]
                        0 <= k < items.len() ==> exists|j: &mut Input<IT>|
                            #[trigger] call_ensures(*parser, (j,), items[k].out) && j@ == items[k].pre
                                && final(j)@ == items[k].post,
                decreases
                    input@.tokens.len() - (if items.len() == 0 {
                        start.pos
                    } else {
                        items.last().post.pos
                    }),
                    (if items.len() == 0 {
                        1int
                    } else {
                        0int
                    }),
            {
                let ghost item_pre = input@;
                let outcome = parser(input);
                let ghost item = Run { pre: item_pre, post: input@, out: outcome };
                let ghost old_items = items;
                proof {
                    input.lemma_view_bounds();
                    assert(exists|j: &mut Input<IT>|
                        #[trigger] call_ensures(*parser, (j,), item.out) && j@ == item.pre && final(j)@
                            == item.post);
                    items = items.push(item);
                    assert forall|k: int| #![trigger items[k]] 0 <= k < items.len() implies exists|j: &mut Input<IT>|
                        #[trigger] call_ensures(*parser, (j,), items[k].out) && j@ == items[k].pre
                            && final(j)@ == items[k].post by {
                        if k < old_items.len() {
                            assert(items[k] == old_items[k]);
                        }
                    }
                    assert(items.drop_last() =~= old_items);
                }
                let token = match outcome {
                    Ok(token) => token,
                    Err(e) => {
                        proof {
                            assert(until_trace(start, ends, items));
                            assert(until_post(ends, items) == input@);
                            assert(until_result(start, ends, items, Err::<Vec<O>, Error>(e)));
                        }
                        return Err(e);
                    },
                };
                let new_count = input.consumed_count();
                // A match after the first one that consumed nothing would repeat forever.
                let repeated = match previous_count {
                    Some(previous) => previous == new_count,
                    None => false,
                };
                if repeated {
                    let result = Err(Error::NonConsumingLoop(input.source_name(), input.position()));
                    proof {
                        assert(items[items.len() - 2] == old_items.last());
                        assert(until_trace(start, ends, items));
                        assert(until_result(start, ends, items, result));
                        assert(until_post(ends, items) == input@);
                    }
                    return result;
                }
                proof {
                    assert(successes(items) =~= successes(old_items).push(token));
                }
                matches.push(token);
                previous_count = Some(new_count);
                let ghost end_pre = input@;
                end_output = end(input);
                let ghost end_run = Run { pre: end_pre, post: input@, out: end_output };
                let ghost old_ends = ends;
                proof {
                    lemma_until_extend(start, old_ends, old_items, item, end_run);
                    assert(exists|j: &mut Input<IT>|
                        #[trigger] call_ensures(*end, (j,), end_run.out) && j@ == end_run.pre
                            && final(j)@ == end_run.post);
                    ends = ends.push(end_run);
                    assert forall|k: int| #![trigger ends[k]] 0 <= k < ends.len() implies exists|j: &mut Input<IT>|
                        #[trigger] call_ensures(*end, (j,), ends[k].out) && j@ == ends[k].pre
                            && final(j)@ == ends[k].post by {
                        if k < old_ends.len() {
                            assert(ends[k] == old_ends[k]);
                        }
                    }
                }
            }
            proof {
                assert(until_trace(start, ends, items));
                assert(until_result(start, ends, items, Ok::<Vec<O>, Error>(matches)));
                assert(until_post(ends, items) == input@);
            }
            Ok(matches)
        }
}

} // verus!
