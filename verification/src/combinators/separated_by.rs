use crate::combinators::repetition::successes;
use crate::error::{Error, ErrorView};
use crate::input::{parser_step, Input, InputToken, InputView};
use crate::parser::{fails_with, total, Parser, Run};
use vstd::prelude::*;

verus! {

/// Where the `k`-th separator of a list tail that started at `start` is tried: at `start` for
/// the first one, after the previous element otherwise.
pub open spec fn tail_start<IT, O>(items: Seq<Run<IT, O>>, start: InputView<IT>, k: int) -> InputView<IT> {
    if k == 0 {
        start
    } else {
        items[k - 1].post
    }
}

/// Complete (separator, element) pairs of a list tail that started at `start`: each pair
/// starts where the previous one stopped, both runs matched, and the pair consumed input.
#[verifier::opaque]
pub open spec fn tail_pairs<IT, O, OS>(
    start: InputView<IT>,
    seps: Seq<Run<IT, OS>>,
    items: Seq<Run<IT, O>>,
) -> bool {
    &&& seps.len() == items.len()
    &&& forall|k: int| 0 <= k < items.len() ==> #[trigger] seps[k].pre == tail_start(items, start, k)
    &&& forall|k: int| 0 <= k < items.len() ==> #[trigger] items[k].pre == seps[k].post
    &&& forall|k: int| 0 <= k < items.len() ==> (#[trigger] seps[k]).out is Ok
    &&& forall|k: int| 0 <= k < items.len() ==> (#[trigger] items[k]).out is Ok
    &&& forall|k: int| 0 <= k < items.len() ==> #[trigger] items[k].post.pos > seps[k].pre.pos
}

/// The runs of a list tail: (separator, element) pairs while the separator matches; it stops at
/// the first separator failure, element failure, or pair that consumed nothing.
pub open spec fn tail_trace<IT, O, OS>(
    start: InputView<IT>,
    seps: Seq<Run<IT, OS>>,
    items: Seq<Run<IT, O>>,
) -> bool {
    let m = items.len();
    ||| {
        &&& seps.len() == m + 1
        &&& tail_pairs(start, seps.drop_last(), items)
        &&& seps.last().pre == tail_start(items, start, m as int)
        &&& seps.last().out is Err
    }
    ||| {
        &&& seps.len() == m
        &&& m > 0
        &&& tail_pairs(start, seps.drop_last(), items.drop_last())
        &&& seps.last().pre == tail_start(items, start, m - 1)
        &&& seps.last().out is Ok
        &&& items.last().pre == seps.last().post
        &&& items.last().out is Ok ==> items.last().post.pos == seps.last().pre.pos
    }
}

/// Where a list tail leaves the input: where its last run stopped.
pub open spec fn tail_post<IT, O, OS>(seps: Seq<Run<IT, OS>>, items: Seq<Run<IT, O>>) -> InputView<IT> {
    if seps.len() == items.len() + 1 {
        seps.last().post
    } else {
        items.last().post
    }
}

/// What a list tail returns, given its runs and the elements `head` found before it: on a
/// separator failure, `head` followed by the elements; on an element failure, its error; on a
/// pair that consumed nothing, [`Error::NonConsumingLoop`] where it stopped.
pub open spec fn tail_result<IT: InputToken, O, OS>(
    start: InputView<IT>,
    seps: Seq<Run<IT, OS>>,
    items: Seq<Run<IT, O>>,
    head: Seq<O>,
    r: Result<Vec<O>, Error>,
) -> bool {
    if seps.len() == items.len() + 1 {
        r matches Ok(v) && v@ == head + successes(items)
    } else {
        match items.last().out {
            Err(e) => r == Err::<Vec<O>, Error>(e),
            Ok(_) => fails_with(
                r,
                ErrorView::NonConsumingLoop(start.source_name, items.last().post.position()),
            ),
        }
    }
}

/// [`tail_result`], with the separator outputs too: on a separator failure the tail returns
/// the elements (after `head`) and the outputs of the separators that matched.
pub open spec fn tail_collected<IT: InputToken, O, OS>(
    start: InputView<IT>,
    seps: Seq<Run<IT, OS>>,
    items: Seq<Run<IT, O>>,
    head: Seq<O>,
    r: Result<(Vec<O>, Vec<OS>), Error>,
) -> bool {
    if seps.len() == items.len() + 1 {
        r matches Ok((v, w)) && v@ == head + successes(items) && w@ == successes(seps.drop_last())
    } else {
        match items.last().out {
            Err(e) => r == Err::<(Vec<O>, Vec<OS>), Error>(e),
            Ok(_) => fails_with(
                r,
                ErrorView::NonConsumingLoop(start.source_name, items.last().post.position()),
            ),
        }
    }
}

/// What a separated list returns, given the run of its first element (`first`) and the runs
/// of its tail. When the first element fails, a list that may be empty returns no element and
/// one that may not returns the error; otherwise the tail goes on from there.
pub open spec fn separated_outcome<IT: InputToken, O, OS>(
    may_be_empty: bool,
    start: InputView<IT>,
    first: Run<IT, O>,
    seps: Seq<Run<IT, OS>>,
    items: Seq<Run<IT, O>>,
    post: InputView<IT>,
    r: Result<Vec<O>, Error>,
) -> bool {
    &&& first.pre == start
    &&& match first.out {
        Ok(t) => {
            &&& tail_trace(first.post, seps, items)
            &&& post == tail_post(seps, items)
            &&& tail_result(first.post, seps, items, seq![t], r)
        },
        Err(e) => {
            &&& seps.len() == 0
            &&& items.len() == 0
            &&& post == first.post
            &&& if may_be_empty {
                r matches Ok(v) && v@.len() == 0
            } else {
                r == Err::<Vec<O>, Error>(e)
            }
        },
    }
}

#[verifier::spinoff_prover]
proof fn lemma_pairs_extend<IT, O, OS>(
    start: InputView<IT>,
    seps: Seq<Run<IT, OS>>,
    items: Seq<Run<IT, O>>,
    sep: Run<IT, OS>,
    item: Run<IT, O>,
)
    requires
        tail_pairs(start, seps, items),
        sep.pre == tail_start(items, start, items.len() as int),
        item.pre == sep.post,
        sep.out is Ok,
        item.out is Ok,
        item.post.pos > sep.pre.pos,
    ensures
        tail_pairs(start, seps.push(sep), items.push(item)),
{
    reveal(tail_pairs);
    let m = items.len() as int;
    let ns = seps.push(sep);
    let ni = items.push(item);
    assert forall|k: int| 0 <= k < m + 1 implies #[trigger] ns[k].pre == tail_start(ni, start, k) by {
        if k < m {
            assert(ns[k] == seps[k]);
        }
        if k > 0 {
            assert(ni[k - 1] == items[k - 1]);
        }
    }
    assert forall|k: int| 0 <= k < m + 1 implies #[trigger] ni[k].pre == ns[k].post by {
        if k < m {
            assert(ns[k] == seps[k]);
            assert(ni[k] == items[k]);
        }
    }
    assert forall|k: int| 0 <= k < m + 1 implies (#[trigger] ns[k]).out is Ok by {
        if k < m {
            assert(ns[k] == seps[k]);
        }
    }
    assert forall|k: int| 0 <= k < m + 1 implies (#[trigger] ni[k]).out is Ok by {
        if k < m {
            assert(ni[k] == items[k]);
        }
    }
    assert forall|k: int| 0 <= k < m + 1 implies #[trigger] ni[k].post.pos > ns[k].pre.pos by {
        if k < m {
            assert(ns[k] == seps[k]);
            assert(ni[k] == items[k]);
        }
    }
}

proof fn lemma_tail_stop_separator<IT, O, OS>(
    start: InputView<IT>,
    seps: Seq<Run<IT, OS>>,
    items: Seq<Run<IT, O>>,
    sep: Run<IT, OS>,
)
    requires
        tail_pairs(start, seps, items),
        sep.pre == tail_start(items, start, items.len() as int),
        sep.out is Err,
    ensures
        tail_trace(start, seps.push(sep), items),
        tail_post(seps.push(sep), items) == sep.post,
{
    reveal(tail_pairs);
    assert(seps.push(sep).drop_last() =~= seps);
}

proof fn lemma_tail_stop_element<IT, O, OS>(
    start: InputView<IT>,
    seps: Seq<Run<IT, OS>>,
    items: Seq<Run<IT, O>>,
    sep: Run<IT, OS>,
    item: Run<IT, O>,
)
    requires
        tail_pairs(start, seps, items),
        sep.pre == tail_start(items, start, items.len() as int),
        sep.out is Ok,
        item.pre == sep.post,
        item.out is Ok ==> item.post.pos == sep.pre.pos,
    ensures
        tail_trace(start, seps.push(sep), items.push(item)),
        tail_post(seps.push(sep), items.push(item)) == item.post,
{
    reveal(tail_pairs);
    let m = items.len() as int;
    assert(seps.push(sep).drop_last() =~= seps);
    assert(items.push(item).drop_last() =~= items);
    if m > 0 {
        assert(items.push(item)[m - 1] == items[m - 1]);
    }
}

/// Parses (separator, element) pairs while the separator matches; it returns the elements,
/// after those in `found`, and the separator outputs.
pub(crate) fn separated_tail<P, S, IT: InputToken, O, OS>(
    parser: &P,
    separator: &S,
    input: &mut Input<IT>,
    found: Vec<O>,
) -> (r: Result<(Vec<O>, Vec<OS>), Error>) where P: Parser<IT, O>, S: Parser<IT, OS>,
    requires
        total(*parser),
        total(*separator),
        forall|i: &mut Input<IT>, r: Result<O, Error>|
            #[trigger] call_ensures(*parser, (i,), r) ==> final(i).wf() && parser_step(i@, final(i)@),
        forall|i: &mut Input<IT>, r: Result<OS, Error>|
            #[trigger] call_ensures(*separator, (i,), r) ==> final(i).wf() && parser_step(i@, final(i)@),
        old(input).wf(),
    ensures
        final(input).wf(),
        parser_step(old(input)@, final(input)@),
        exists|seps: Seq<Run<IT, OS>>, items: Seq<Run<IT, O>>|
            {
                &&& forall|k: int| #![trigger seps[k]]
                    0 <= k < seps.len() ==> exists|j: &mut Input<IT>|
                        #[trigger] call_ensures(*separator, (j,), seps[k].out) && j@ == seps[k].pre
                            && final(j)@ == seps[k].post
                &&& forall|k: int| #![trigger items[k]]
                    0 <= k < items.len() ==> exists|j: &mut Input<IT>|
                        #[trigger] call_ensures(*parser, (j,), items[k].out) && j@ == items[k].pre
                            && final(j)@ == items[k].post
                &&& tail_trace(old(input)@, seps, items)
                &&& final(input)@ == tail_post(seps, items)
                &&& tail_collected(old(input)@, seps, items, found@, r)
            },
{
    let ghost start = input@;
    let ghost mut seps: Seq<Run<IT, OS>> = Seq::empty();
    let ghost mut items: Seq<Run<IT, O>> = Seq::empty();
    let mut output = found;
    let mut separators: Vec<OS> = Vec::new();
    let ghost head = found@;
    proof {
        input.lemma_view_bounds();
        reveal(tail_pairs);
    }
    loop
        invariant
            total(*parser),
            total(*separator),
            forall|i: &mut Input<IT>, r: Result<O, Error>|
                #[trigger] call_ensures(*parser, (i,), r) ==> final(i).wf() && parser_step(i@, final(i)@),
            forall|i: &mut Input<IT>, r: Result<OS, Error>|
                #[trigger] call_ensures(*separator, (i,), r) ==> final(i).wf() && parser_step(i@, final(i)@),
            input.wf(),
            start == old(input)@,
            parser_step(start, input@),
            tail_pairs(start, seps, items),
            seps.len() == items.len(),
            head == found@,
            input@ == tail_start(items, start, items.len() as int),
            output@ == head + successes(items),
            separators@ == successes(seps),
            forall|k: int| #![trigger seps[k]]
                0 <= k < seps.len() ==> exists|j: &mut Input<IT>|
                    #[trigger] call_ensures(*separator, (j,), seps[k].out) && j@ == seps[k].pre
                        && final(j)@ == seps[k].post,
            forall|k: int| #![trigger items[k]]
                0 <= k < items.len() ==> exists|j: &mut Input<IT>|
                    #[trigger] call_ensures(*parser, (j,), items[k].out) && j@ == items[k].pre
                        && final(j)@ == items[k].post,
        decreases input@.tokens.len() - input@.pos,
    {
        let ghost sep_pre = input@;
        let before = input.consumed_count();
        let sep_outcome = separator(input);
        let ghost sep = Run { pre: sep_pre, post: input@, out: sep_outcome };
        let ghost old_seps = seps;
        let ghost old_items = items;
        proof {
            input.lemma_view_bounds();
            assert(exists|j: &mut Input<IT>|
                #[trigger] call_ensures(*separator, (j,), sep.out) && j@ == sep.pre && final(j)@
                    == sep.post);
            seps = seps.push(sep);
            assert forall|k: int| #![trigger seps[k]] 0 <= k < seps.len() implies exists|j: &mut Input<IT>|
                #[trigger] call_ensures(*separator, (j,), seps[k].out) && j@ == seps[k].pre
                    && final(j)@ == seps[k].post by {
                if k < old_seps.len() {
                    assert(seps[k] == old_seps[k]);
                }
            }
        }
        let sep_value = match sep_outcome {
            Ok(value) => value,
            Err(_) => {
                let result = Ok((output, separators));
                proof {
                    lemma_tail_stop_separator(start, old_seps, old_items, sep);
                    assert(seps.drop_last() =~= old_seps);
                    assert(tail_collected(start, seps, items, head, result));
                    assert(tail_post(seps, items) == input@);
                    assert(tail_trace(start, seps, items));
                }
                return result;
            },
        };
        let ghost item_pre = input@;
        let outcome = parser(input);
        let ghost item = Run { pre: item_pre, post: input@, out: outcome };
        proof {
            input.lemma_view_bounds();
            assert(exists|j: &mut Input<IT>|
                #[trigger] call_ensures(*parser, (j,), item.out) && j@ == item.pre && final(j)@
                    == item.post);
            items = items.push(item);
            assert forall|k: int| #![trigger items[k]] 0 <= k < items.len() implies exists|j: &mut Input<IT>|
                #[trigger] call_ensures(*parser, (j,), items[k].out) && j@ == items[k].pre
                    && final(j)@ == items[k].post by {
                if k < old_items.len() {
                    assert(items[k] == old_items[k]);
                }
            }
        }
        let next = match outcome {
            Ok(next) => next,
            Err(e) => {
                proof {
                    lemma_tail_stop_element(start, old_seps, old_items, sep, item);
                    assert(tail_collected(start, seps, items, head, Err::<(Vec<O>, Vec<OS>), Error>(e)));
                }
                return Err(e);
            },
        };
        // A pair that consumed nothing would repeat forever.
        if input.consumed_count() == before {
            let result = Err(Error::NonConsumingLoop(input.source_name(), input.position()));
            proof {
                lemma_tail_stop_element(start, old_seps, old_items, sep, item);
                assert(tail_collected(start, seps, items, head, result));
            }
            return result;
        }
        proof {
            lemma_pairs_extend(start, old_seps, old_items, sep, item);
            assert(successes(items) =~= successes(old_items).push(next));
            assert(head + successes(items) =~= (head + successes(old_items)).push(next));
            assert(successes(seps) =~= successes(old_seps).push(sep_value));
        }
        output.push(next);
        separators.push(sep_value);
    }
}

/// A parser of zero or more occurrences of `parser` separated by `separator`; it returns the
/// occurrences. When the first occurrence fails, it returns none, whether that failure consumed
/// input or not.
///
/// When a separator and the occurrence after it both match without consuming any input, the
/// list would go on forever: it fails instead with [`Error::NonConsumingLoop`] where it stopped
/// (see [`tail_result`]).
pub fn separated_by0<'a, P, S, IT: InputToken, O, OS>(parser: &'a P, separator: &'a S) -> (res: impl Parser<
    IT,
    Vec<O>,
> + 'a) where P: Parser<IT, O>, S: Parser<IT, OS>,

    requires
        total(*parser),
        total(*separator),
        forall|i: &mut Input<IT>, r: Result<O, Error>|
            #[trigger] call_ensures(*parser, (i,), r) ==> final(i).wf() && parser_step(i@, final(i)@),
        forall|i: &mut Input<IT>, r: Result<OS, Error>|
            #[trigger] call_ensures(*separator, (i,), r) ==> final(i).wf() && parser_step(i@, final(i)@),
    ensures
        total(res),
        forall|i: &mut Input<IT>, r: Result<Vec<O>, Error>|
            #[trigger] call_ensures(res, (i,), r) ==> {
                &&& final(i).wf()
                &&& parser_step(i@, final(i)@)
                &&& exists|first: Run<IT, O>, seps: Seq<Run<IT, OS>>, items: Seq<Run<IT, O>>|
                    {
                        &&& exists|j: &mut Input<IT>|
                            #[trigger] call_ensures(*parser, (j,), first.out) && j@ == first.pre
                                && final(j)@ == first.post
                        &&& forall|k: int| #![trigger seps[k]]
                            0 <= k < seps.len() ==> exists|j: &mut Input<IT>|
                                #[trigger] call_ensures(*separator, (j,), seps[k].out) && j@ == seps[k].pre
                                    && final(j)@ == seps[k].post
                        &&& forall|k: int| #![trigger items[k]]
                            0 <= k < items.len() ==> exists|j: &mut Input<IT>|
                                #[trigger] call_ensures(*parser, (j,), items[k].out) && j@ == items[k].pre
                                    && final(j)@ == items[k].post
                        &&& separated_outcome(true, i@, first, seps, items, final(i)@, r)
                    }
            },
{
    move |input: &mut Input<IT>| -> (r: Result<Vec<O>, Error>)
        requires
            input.wf(),
        ensures
            final(input).wf(),
            parser_step(old(input)@, final(input)@),
            exists|first: Run<IT, O>, seps: Seq<Run<IT, OS>>, items: Seq<Run<IT, O>>|
                {
                    &&& exists|j: &mut Input<IT>|
                        #[trigger] call_ensures(*parser, (j,), first.out) && j@ == first.pre
                            && final(j)@ == first.post
                    &&& forall|k: int| #![trigger seps[k]]
                        0 <= k < seps.len() ==> exists|j: &mut Input<IT>|
                            #[trigger] call_ensures(*separator, (j,), seps[k].out) && j@ == seps[k].pre
                                && final(j)@ == seps[k].post
                    &&& forall|k: int| #![trigger items[k]]
                        0 <= k < items.len() ==> exists|j: &mut Input<IT>|
                            #[trigger] call_ensures(*parser, (j,), items[k].out) && j@ == items[k].pre
                                && final(j)@ == items[k].post
                    &&& separated_outcome(true, old(input)@, first, seps, items, final(input)@, r)
                },
        {
            let ghost pre = input@;
            let outcome = parser(input);
            let ghost first = Run { pre, post: input@, out: outcome };
            proof {
                assert(exists|j: &mut Input<IT>|
                    #[trigger] call_ensures(*parser, (j,), first.out) && j@ == first.pre && final(j)@
                        == first.post);
            }
            match outcome {
                Ok(token) => {
                    let output = vec![token];
                    proof {
                        assert(output@ =~= seq![token]);
                    }
                    let ghost tail_pre = input@;
                    let tail = separated_tail(parser, separator, input, output);
                    let result = match tail {
                        Ok((elements, _)) => Ok(elements),
                        Err(e) => Err(e),
                    };
                    proof {
                        let (seps, items) = choose|seps: Seq<Run<IT, OS>>, items: Seq<Run<IT, O>>|
                            {
                                &&& forall|k: int| #![trigger seps[k]]
                                    0 <= k < seps.len() ==> exists|j: &mut Input<IT>|
                                        #[trigger] call_ensures(*separator, (j,), seps[k].out) && j@ == seps[k].pre
                                            && final(j)@ == seps[k].post
                                &&& forall|k: int| #![trigger items[k]]
                                    0 <= k < items.len() ==> exists|j: &mut Input<IT>|
                                        #[trigger] call_ensures(*parser, (j,), items[k].out) && j@ == items[k].pre
                                            && final(j)@ == items[k].post
                                &&& tail_trace(tail_pre, seps, items)
                                &&& input@ == tail_post(seps, items)
                                &&& tail_collected(tail_pre, seps, items, seq![token], tail)
                            };
                        assert(separated_outcome(true, pre, first, seps, items, input@, result));
                    }
                    result
                },
                Err(_) => {
                    let result = Ok(Vec::new());
                    proof {
                        let seps = Seq::<Run<IT, OS>>::empty();
                        let items = Seq::<Run<IT, O>>::empty();
                        assert(separated_outcome(true, pre, first, seps, items, input@, result));
                    }
                    result
                },
            }
        }
}

/// A parser of one or more occurrences of `parser` separated by `separator`; it returns the
/// occurrences, and fails as the first occurrence does.
///
/// When a separator and the occurrence after it both match without consuming any input, the
/// list would go on forever: it fails instead with [`Error::NonConsumingLoop`] where it stopped
/// (see [`tail_result`]).
#[verifier::rlimit(40)]
pub fn separated_by1<'a, P, S, IT: InputToken, O, OS>(parser: &'a P, separator: &'a S) -> (res: impl Parser<
    IT,
    Vec<O>,
> + 'a) where P: Parser<IT, O>, S: Parser<IT, OS>,

    requires
        total(*parser),
        total(*separator),
        forall|i: &mut Input<IT>, r: Result<O, Error>|
            #[trigger] call_ensures(*parser, (i,), r) ==> final(i).wf() && parser_step(i@, final(i)@),
        forall|i: &mut Input<IT>, r: Result<OS, Error>|
            #[trigger] call_ensures(*separator, (i,), r) ==> final(i).wf() && parser_step(i@, final(i)@),
    ensures
        total(res),
        forall|i: &mut Input<IT>, r: Result<Vec<O>, Error>|
            #[trigger] call_ensures(res, (i,), r) ==> {
                &&& final(i).wf()
                &&& parser_step(i@, final(i)@)
                &&& exists|first: Run<IT, O>, seps: Seq<Run<IT, OS>>, items: Seq<Run<IT, O>>|
                    {
                        &&& exists|j: &mut Input<IT>|
                            #[trigger] call_ensures(*parser, (j,), first.out) && j@ == first.pre
                                && final(j)@ == first.post
                        &&& forall|k: int| #![trigger seps[k]]
                            0 <= k < seps.len() ==> exists|j: &mut Input<IT>|
                                #[trigger] call_ensures(*separator, (j,), seps[k].out) && j@ == seps[k].pre
                                    && final(j)@ == seps[k].post
                        &&& forall|k: int| #![trigger items[k]]
                            0 <= k < items.len() ==> exists|j: &mut Input<IT>|
                                #[trigger] call_ensures(*parser, (j,), items[k].out) && j@ == items[k].pre
                                    && final(j)@ == items[k].post
                        &&& separated_outcome(false, i@, first, seps, items, final(i)@, r)
                    }
            },
{
    move |input: &mut Input<IT>| -> (r: Result<Vec<O>, Error>)
        requires
            input.wf(),
        ensures
            final(input).wf(),
            parser_step(old(input)@, final(input)@),
            exists|first: Run<IT, O>, seps: Seq<Run<IT, OS>>, items: Seq<Run<IT, O>>|
                {
                    &&& exists|j: &mut Input<IT>|
                        #[trigger] call_ensures(*parser, (j,), first.out) && j@ == first.pre
                            && final(j)@ == first.post
                    &&& forall|k: int| #![trigger seps[k]]
                        0 <= k < seps.len() ==> exists|j: &mut Input<IT>|
                            #[trigger] call_ensures(*separator, (j,), seps[k].out) && j@ == seps[k].pre
                                && final(j)@ == seps[k].post
                    &&& forall|k: int| #![trigger items[k]]
                        0 <= k < items.len() ==> exists|j: &mut Input<IT>|
                            #[trigger] call_ensures(*parser, (j,), items[k].out) && j@ == items[k].pre
                                && final(j)@ == items[k].post
                    &&& separated_outcome(false, old(input)@, first, seps, items, final(input)@, r)
                },
        {
            let ghost pre = input@;
            let outcome = parser(input);
            let ghost first = Run { pre, post: input@, out: outcome };
            proof {
                assert(exists|j: &mut Input<IT>|
                    #[trigger] call_ensures(*parser, (j,), first.out) && j@ == first.pre && final(j)@
                        == first.post);
            }
            match outcome {
                Ok(token) => {
                    let output = vec![token];
                    proof {
                        assert(output@ =~= seq![token]);
                    }
                    let ghost tail_pre = input@;
                    let tail = separated_tail(parser, separator, input, output);
                    let result = match tail {
                        Ok((elements, _)) => Ok(elements),
                        Err(e) => Err(e),
                    };
                    proof {
                        let (seps, items) = choose|seps: Seq<Run<IT, OS>>, items: Seq<Run<IT, O>>|
                            {
                                &&& forall|k: int| #![trigger seps[k]]
                                    0 <= k < seps.len() ==> exists|j: &mut Input<IT>|
                                        #[trigger] call_ensures(*separator, (j,), seps[k].out) && j@ == seps[k].pre
                                            && final(j)@ == seps[k].post
                                &&& forall|k: int| #![trigger items[k]]
                                    0 <= k < items.len() ==> exists|j: &mut Input<IT>|
                                        #[trigger] call_ensures(*parser, (j,), items[k].out) && j@ == items[k].pre
                                            && final(j)@ == items[k].post
                                &&& tail_trace(tail_pre, seps, items)
                                &&& input@ == tail_post(seps, items)
                                &&& tail_collected(tail_pre, seps, items, seq![token], tail)
                            };
                        assert(separated_outcome(false, pre, first, seps, items, input@, result));
                    }
                    result
                },
                Err(e) => {
                    let result = Err(e);
                    proof {
                        let seps = Seq::<Run<IT, OS>>::empty();
                        let items = Seq::<Run<IT, O>>::empty();
                        assert(separated_outcome(false, pre, first, seps, items, input@, result));
                    }
                    result
                },
            }
        }
}

} // verus!
