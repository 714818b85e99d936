//! Properties that hold across the combinators and the input, over the models that their
//! contracts use.
use crate::combinators::repetition::{
    collected, collected_until, counted, fail_run, mark_before, repeat_post, repeat_result,
    repeat_trace, successes,
};
use crate::combinators::{
    many_returned, ManyOutput, alternative_outcome, attempt_outcome, chain_outcome, count_outcome, folds_left, folds_right,
    look_ahead_outcome, maybe_outcome, not_followed_by_outcome, separated_outcome, tail_pairs,
    tail_start, tail_trace, until_result, until_trace,
};
use crate::error::Error;
use crate::input::{parser_step, InputToken, InputView};
use crate::parser::{expectation_outcome, fails_with, runs_agree, with_expected, Run};
use vstd::prelude::*;

verus! {

/// Parsers run one after another only read forward, on the same tokens, leaving the lookahead
/// marks and the source name as they were.
pub proof fn law_steps_compose<IT>(a: InputView<IT>, b: InputView<IT>, c: InputView<IT>)
    requires
        parser_step(a, b),
        parser_step(b, c),
    ensures
        parser_step(a, c),
{
}

/// Stopping a lookahead with backtracking gives the input back exactly as it was when the
/// lookahead started, whatever a parser read in between.
pub proof fn law_backtrack_restores_input<IT>(start: InputView<IT>, inside: InputView<IT>)
    requires
        parser_step(start.push_mark(), inside),
    ensures
        inside.pop_mark(true) == start,
{
    assert(inside.marks.drop_last() =~= start.marks);
}

proof fn lemma_reads_step<IT>(start: InputView<IT>, reads: Seq<InputView<IT>>, k: int)
    requires
        start.pos <= start.tokens.len(),
        reads.len() > 0,
        reads[0] == start.push_mark(),
        forall|j: int|
            0 <= j < reads.len() - 1 ==> #[trigger] reads[j + 1] == (if reads[j].has_next() {
                reads[j].advance()
            } else {
                reads[j]
            }),
        0 <= k < reads.len(),
    ensures
        parser_step(start.push_mark(), reads[k]),
    decreases k,
{
    if k > 0 {
        lemma_reads_step(start, reads, k - 1);
        let j = k - 1;
        assert(reads[j + 1] == (if reads[j].has_next() {
            reads[j].advance()
        } else {
            reads[j]
        }));
    }
}

/// Starting a lookahead, then reading tokens one at a time any number of times (as
/// [`Input::next_token`](crate::Input::next_token) does: one more token while there is one,
/// nothing once the input is exhausted; peeking changes nothing), then stopping the lookahead
/// with backtracking gives the input back exactly as it was before the lookahead.
pub proof fn law_backtrack_after_reads<IT>(start: InputView<IT>, reads: Seq<InputView<IT>>)
    requires
        start.pos <= start.tokens.len(),
        reads.len() > 0,
        reads[0] == start.push_mark(),
        forall|k: int|
            0 <= k < reads.len() - 1 ==> #[trigger] reads[k + 1] == (if reads[k].has_next() {
                reads[k].advance()
            } else {
                reads[k]
            }),
    ensures
        reads.last().pop_mark(true) == start,
{
    lemma_reads_step(start, reads, reads.len() - 1);
    law_backtrack_restores_input(start, reads.last());
}

/// Stopping a lookahead without backtracking keeps what was read in it: the input is where the
/// lookahead stopped reading, and only reading happened since it started.
pub proof fn law_commit_keeps_progress<IT>(start: InputView<IT>, inside: InputView<IT>)
    requires
        parser_step(start.push_mark(), inside),
    ensures
        inside.pop_mark(false) == start.with_pos(inside.pos),
        parser_step(start, inside.pop_mark(false)),
{
    assert(inside.marks.drop_last() =~= start.marks);
}

/// Nested lookaheads: backtracking the inner one and then the outer one gives the input back
/// as it was before both, and so does committing the inner one and backtracking the outer one.
pub proof fn law_outer_backtrack_undoes_inner<IT>(
    start: InputView<IT>,
    middle: InputView<IT>,
    inner: InputView<IT>,
    after: InputView<IT>,
    backtrack_inner: bool,
)
    requires
        parser_step(start.push_mark(), middle),
        parser_step(middle.push_mark(), inner),
        parser_step(inner.pop_mark(backtrack_inner), after),
    ensures
        after.pop_mark(true) == start,
{
    assert(inner.pop_mark(backtrack_inner).marks =~= middle.marks);
    assert(after.marks.drop_last() =~= start.marks);
}

/// A successful repetition returns at least `min` matches, and at most `max` when there is a
/// bound.
pub proof fn law_repetition_bounds<IT: InputToken, O, OE>(
    min: usize,
    max: Option<usize>,
    fail_on_error: bool,
    start: InputView<IT>,
    ends: Seq<Run<IT, OE>>,
    items: Seq<Run<IT, O>>,
)
    requires
        repeat_trace(max, start, ends, items),
        repeat_result::<IT, O, OE>(min, max, fail_on_error, start, ends, items) is Ok,
    ensures
        ({
            let matches = repeat_result::<IT, O, OE>(min, max, fail_on_error, start, ends, items)->Ok_0.0;
            &&& min <= matches.len()
            &&& max matches Some(x) ==> matches.len() <= x
        }),
{
    reveal(repeat_trace);
    let m = items.len() as int;
    if ends.len() == m + 1 {
        if let Some(x) = max {
            if m > 0 {
                assert(items[m - 1].out is Ok);
                assert(m - 1 < x);
            }
        }
    } else {
        if let Some(x) = max {
            if m - 1 > 0 {
                assert(items[m - 2].out is Ok);
                assert(m - 2 < x);
            }
        }
        assert(successes(items.take(m - 1)).len() == m - 1);
    }
}

/// Every match of a repetition consumed input: the `k`-th counted match (from 0) ends at least
/// `k + 1` tokens after where the repetition started. So a repetition never returns more
/// matches than the tokens it read.
pub proof fn law_repetition_consumes<IT: InputToken, O, OE>(
    max: Option<usize>,
    start: InputView<IT>,
    ends: Seq<Run<IT, OE>>,
    items: Seq<Run<IT, O>>,
    k: int,
)
    requires
        repeat_trace(max, start, ends, items),
        0 <= k < items.len(),
        ends.len() == items.len() + 1 || k < items.len() - 1,
    ensures
        items[k].post.pos >= start.pos + k + 1,
    decreases k,
{
    reveal(repeat_trace);
    if k > 0 {
        law_repetition_consumes(max, start, ends, items, k - 1);
    }
    assert(items[k].post.pos > mark_before(items, start, k));
}

/// [`maybe`](crate::maybe) fails only when its parser failed after consuming input.
pub proof fn law_maybe_fails_only_after_consuming<IT, O>(
    pre: InputView<IT>,
    post: InputView<IT>,
    inner: Result<O, Error>,
    r: Result<Option<O>, Error>,
)
    requires
        parser_step(pre, post),
        maybe_outcome(pre, post, inner, r),
        r is Err,
    ensures
        inner is Err,
        post.pos > pre.pos,
{
}

/// A successful [`count`](crate::count) returns exactly the requested number of matches.
pub proof fn law_count_exact<IT, O>(
    count: usize,
    start: InputView<IT>,
    items: Seq<Run<IT, O>>,
    post: InputView<IT>,
    r: Result<Vec<O>, Error>,
)
    requires
        count_outcome(count, start, items, post, r),
        r is Ok,
    ensures
        r->Ok_0@.len() == count,
{
}

/// A successful list of one or more separated elements holds at least one element: the first
/// one, and one more for each separator that matched.
pub proof fn law_separated_by1_not_empty<IT: InputToken, O, OS>(
    start: InputView<IT>,
    first: Run<IT, O>,
    seps: Seq<Run<IT, OS>>,
    items: Seq<Run<IT, O>>,
    post: InputView<IT>,
    r: Result<Vec<O>, Error>,
)
    requires
        separated_outcome(false, start, first, seps, items, post, r),
        r is Ok,
    ensures
        r->Ok_0@.len() >= 1,
        r->Ok_0@.len() == 1 + items.len(),
        items.len() == seps.len() - 1,
{
}

/// [`many_until`](crate::many_until) succeeds only once its end parser succeeded, and it stops
/// right where the end parser did.
pub proof fn law_until_ends_with_end<IT: InputToken, O, OE>(
    start: InputView<IT>,
    ends: Seq<Run<IT, OE>>,
    items: Seq<Run<IT, O>>,
    r: Result<Vec<O>, Error>,
)
    requires
        until_trace(start, ends, items),
        until_result(start, ends, items, r),
        r is Ok,
    ensures
        ends.last().out is Ok,
        ends.len() == items.len() + 1,
        r->Ok_0@.len() == items.len(),
{
}

/// Without an operator, a chain is its only operand, from the left and from the right alike.
pub proof fn law_chain_single_operand<O, F: Fn(O, O) -> O>(x: O, v: O)
    ensures
        folds_left(Seq::<F>::empty(), x, Seq::<O>::empty(), v) <==> v == x,
        folds_right(Seq::<F>::empty(), seq![x], v) <==> v == x,
{
}

/// With one operator, combining from the left and from the right agree: both apply the
/// operator to the two operands.
pub proof fn law_chain_one_operator<O, F: Fn(O, O) -> O>(f: F, x: O, y: O, v: O)
    ensures
        folds_left(seq![f], x, seq![y], v) <==> call_ensures(f, (x, y), v),
        folds_right(seq![f], seq![x, y], v) <==> call_ensures(f, (x, y), v),
{
    let fs = seq![f];
    let ys = seq![y];
    let xy = seq![x, y];
    assert(fs.drop_last() =~= Seq::<F>::empty());
    assert(seq![y].drop_last() =~= Seq::<O>::empty());
    assert(fs.drop_first() =~= Seq::<F>::empty());
    assert(seq![x, y].drop_first() =~= seq![y]);
    if call_ensures(f, (x, y), v) {
        assert(folds_left(Seq::<F>::empty(), x, Seq::<O>::empty(), x));
        assert(folds_right(Seq::<F>::empty(), seq![y], y));
    }
    if folds_left(seq![f], x, seq![y], v) {
        let w = choose|w: O|
            folds_left(fs.drop_last(), x, ys.drop_last(), w) && #[trigger] call_ensures(
                fs.last(),
                (w, ys.last()),
                v,
            );
        assert(w == x);
    }
    if folds_right(seq![f], seq![x, y], v) {
        let w = choose|w: O|
            folds_right(fs.drop_first(), xy.drop_first(), w) && #[trigger] call_ensures(
                fs[0],
                (xy[0], w),
                v,
            );
        assert(w == y);
    }
}

/// [`attempt`](crate::attempt) is transparent for a parser whose runs agree whatever
/// lookahead is active: it returns what a direct run of the parser from the same input
/// returns; on failure the input is left as it was, and on success as the direct run left it.
pub proof fn law_attempt_as_direct_run<IT, O>(
    pre: InputView<IT>,
    run: Run<IT, O>,
    post: InputView<IT>,
    r: Result<O, Error>,
    direct: Run<IT, O>,
)
    requires
        attempt_outcome(pre, run, post, r),
        direct.pre == pre,
        parser_step(direct.pre, direct.post),
        runs_agree(run, direct),
    ensures
        r == direct.out,
        r is Err ==> post == pre,
        r is Ok ==> post == direct.post,
{
}

/// [`look_ahead`](crate::look_ahead) is transparent for a parser whose runs agree whatever
/// lookahead is active: it returns what a direct run of the parser from the same input
/// returns; on success the input is left as it was, and on failure as the direct run left it.
pub proof fn law_look_ahead_as_direct_run<IT, O>(
    pre: InputView<IT>,
    run: Run<IT, O>,
    post: InputView<IT>,
    r: Result<O, Error>,
    direct: Run<IT, O>,
)
    requires
        look_ahead_outcome(pre, run, post, r),
        direct.pre == pre,
        parser_step(direct.pre, direct.post),
        runs_agree(run, direct),
    ensures
        r == direct.out,
        r is Ok ==> post == pre,
        r is Err ==> post == direct.post,
{
}

/// [`not_followed_by`](crate::not_followed_by) answers what a direct run of its parser from the
/// same input returns, for a parser whose runs agree whatever lookahead is active: it fails
/// where the parser succeeds, passes on an end of input, and succeeds on any other failure.
pub proof fn law_not_followed_by_as_direct_run<IT: InputToken, O>(
    pre: InputView<IT>,
    run: Run<IT, O>,
    r: Result<(), Error>,
    direct: Run<IT, O>,
)
    requires
        run.pre == pre.push_mark(),
        not_followed_by_outcome(pre, run.out, r),
        direct.pre == pre,
        runs_agree(run, direct),
    ensures
        not_followed_by_outcome(pre, direct.out, r),
{
}

/// [`with_expectation`](crate::with_expectation) changes nothing but the expectation of the
/// errors, compared with a direct run of its parser from the same input whose run agrees: the
/// same success, the same input afterwards, and the same error with the new expectation.
pub proof fn law_with_expectation_as_direct_run<IT, O>(
    expected: Seq<char>,
    pre: InputView<IT>,
    run: Run<IT, O>,
    post: InputView<IT>,
    r: Result<O, Error>,
    direct: Run<IT, O>,
)
    requires
        expectation_outcome(expected, pre, run, post, r),
        parser_step(run.pre, run.post),
        direct.pre == pre,
        parser_step(direct.pre, direct.post),
        runs_agree(run, direct),
    ensures
        post == direct.post,
        direct.out is Ok ==> r == direct.out,
        direct.out matches Err(e) ==> fails_with(r, with_expected(e@, expected)),
{
}

/// [`option`](crate::option) and [`either`](crate::either) are the same combinator: from the
/// same input, with runs of their parsers that agree, they return the same outcome and leave
/// the input in the same state.
pub proof fn law_option_is_either<IT, O>(
    pre: InputView<IT>,
    first_a: Run<IT, O>,
    second_a: Run<IT, O>,
    post_a: InputView<IT>,
    r_a: Result<O, Error>,
    first_b: Run<IT, O>,
    second_b: Run<IT, O>,
    post_b: InputView<IT>,
    r_b: Result<O, Error>,
)
    requires
        alternative_outcome(pre, first_a, second_a, post_a, r_a),
        alternative_outcome(pre, first_b, second_b, post_b, r_b),
        parser_step(first_a.pre, first_a.post),
        parser_step(first_b.pre, first_b.post),
        runs_agree(first_a, first_b),
        first_a.out is Err && first_a.post.pos == pre.pos ==> {
            &&& parser_step(second_a.pre, second_a.post)
            &&& parser_step(second_b.pre, second_b.post)
            &&& runs_agree(second_a, second_b)
        },
    ensures
        r_a == r_b,
        post_a == post_b,
{
}

proof fn lemma_repetition_links<IT, O>(
    max: Option<usize>,
    start: InputView<IT>,
    ends: Seq<Run<IT, ()>>,
    items: Seq<Run<IT, O>>,
    k: int,
)
    requires
        repeat_trace(max, start, ends, items),
        0 <= k < items.len(),
    ensures
        ends[k].pre == (if k == 0 {
            start
        } else {
            items[k - 1].post
        }),
        items[k].pre == ends[k].post,
        k < ends.len(),
{
    reveal(repeat_trace);
    if k > 0 {
        let j = k - 1;
        assert(ends[j + 1].pre == items[j].post);
    }
}

proof fn lemma_repetition_prefix_equal<IT: InputToken, O>(
    max: Option<usize>,
    start: InputView<IT>,
    ends_a: Seq<Run<IT, ()>>,
    items_a: Seq<Run<IT, O>>,
    ends_b: Seq<Run<IT, ()>>,
    items_b: Seq<Run<IT, O>>,
    k: int,
)
    requires
        repeat_trace(max, start, ends_a, items_a),
        repeat_trace(max, start, ends_b, items_b),
        forall|j: int| 0 <= j < ends_a.len() ==> fail_run(#[trigger] ends_a[j]),
        forall|j: int| 0 <= j < ends_b.len() ==> fail_run(#[trigger] ends_b[j]),
        forall|j: int| 0 <= j < items_a.len() ==> parser_step(#[trigger] items_a[j].pre, items_a[j].post),
        forall|j: int| 0 <= j < items_b.len() ==> parser_step(#[trigger] items_b[j].pre, items_b[j].post),
        forall|j: int, l: int|
            0 <= j < items_a.len() && 0 <= l < items_b.len() ==> runs_agree(
                #[trigger] items_a[j],
                #[trigger] items_b[l],
            ),
        0 <= k < items_a.len(),
        k < items_b.len(),
    ensures
        items_a[k] == items_b[k],
        ends_a[k] == ends_b[k],
    decreases k,
{
    if k > 0 {
        lemma_repetition_prefix_equal(max, start, ends_a, items_a, ends_b, items_b, k - 1);
    }
    lemma_repetition_links(max, start, ends_a, items_a, k);
    lemma_repetition_links(max, start, ends_b, items_b, k);
    assert(ends_a[k].pre == ends_b[k].pre);
    assert(fail_run(ends_a[k]) && fail_run(ends_b[k]));
    assert(items_a[k].pre == items_b[k].pre);
    assert(runs_agree(items_a[k], items_b[k]));
}

/// Two repetitions without end parser that start at the same place, with the same bound, and
/// whose parser runs agree, go through the same runs: same matches, same stop.
pub proof fn law_repetition_runs_unique<IT: InputToken, O>(
    max: Option<usize>,
    start: InputView<IT>,
    ends_a: Seq<Run<IT, ()>>,
    items_a: Seq<Run<IT, O>>,
    ends_b: Seq<Run<IT, ()>>,
    items_b: Seq<Run<IT, O>>,
)
    requires
        repeat_trace(max, start, ends_a, items_a),
        repeat_trace(max, start, ends_b, items_b),
        forall|j: int| 0 <= j < ends_a.len() ==> fail_run(#[trigger] ends_a[j]),
        forall|j: int| 0 <= j < ends_b.len() ==> fail_run(#[trigger] ends_b[j]),
        forall|j: int| 0 <= j < items_a.len() ==> parser_step(#[trigger] items_a[j].pre, items_a[j].post),
        forall|j: int| 0 <= j < items_b.len() ==> parser_step(#[trigger] items_b[j].pre, items_b[j].post),
        forall|j: int, l: int|
            0 <= j < items_a.len() && 0 <= l < items_b.len() ==> runs_agree(
                #[trigger] items_a[j],
                #[trigger] items_b[l],
            ),
    ensures
        ends_a == ends_b,
        items_a == items_b,
{
    reveal(repeat_trace);
    let ma = items_a.len() as int;
    let mb = items_b.len() as int;
    // Neither repetition stops on its end parser, which always fails.
    assert(ends_a.len() == ma) by {
        if ends_a.len() == ma + 1 {
            assert(fail_run(ends_a[ma]));
        }
    }
    assert(ends_b.len() == mb) by {
        if ends_b.len() == mb + 1 {
            assert(fail_run(ends_b[mb]));
        }
    }
    if ma < mb {
        lemma_repetition_prefix_equal(max, start, ends_a, items_a, ends_b, items_b, ma - 1);
        if ma >= 2 {
            lemma_repetition_prefix_equal(max, start, ends_a, items_a, ends_b, items_b, ma - 2);
        }
        assert(items_b[ma - 1].out is Ok);
        assert(false);
    }
    if mb < ma {
        lemma_repetition_prefix_equal(max, start, ends_a, items_a, ends_b, items_b, mb - 1);
        if mb >= 2 {
            lemma_repetition_prefix_equal(max, start, ends_a, items_a, ends_b, items_b, mb - 2);
        }
        assert(items_a[mb - 1].out is Ok);
        assert(false);
    }
    assert forall|j: int| 0 <= j < ma implies items_a[j] == items_b[j] && ends_a[j] == ends_b[j] by {
        lemma_repetition_prefix_equal(max, start, ends_a, items_a, ends_b, items_b, j);
    }
    assert(items_a =~= items_b);
    assert(ends_a =~= ends_b);
}

/// [`once_or_more`](crate::once_or_more) counts what
/// [`once_or_more_collect`](crate::once_or_more_collect) collects: from the same input, with
/// parser runs that agree, one returns `n` exactly when the other returns `n` matches (and
/// `n >= 1`), both fail with the same error otherwise, and both stop at the same place.
pub proof fn law_once_or_more_counts_what_collect_returns<IT: InputToken, O>(
    start: InputView<IT>,
    ends_a: Seq<Run<IT, ()>>,
    items_a: Seq<Run<IT, O>>,
    r_a: Result<usize, Error>,
    ends_b: Seq<Run<IT, ()>>,
    items_b: Seq<Run<IT, O>>,
    r_b: Result<Vec<O>, Error>,
)
    requires
        repeat_trace(None, start, ends_a, items_a),
        repeat_trace(None, start, ends_b, items_b),
        counted(r_a, repeat_result::<IT, O, ()>(1, None, false, start, ends_a, items_a)),
        collected(r_b, repeat_result::<IT, O, ()>(1, None, false, start, ends_b, items_b)),
        forall|j: int| 0 <= j < ends_a.len() ==> fail_run(#[trigger] ends_a[j]),
        forall|j: int| 0 <= j < ends_b.len() ==> fail_run(#[trigger] ends_b[j]),
        forall|j: int| 0 <= j < items_a.len() ==> parser_step(#[trigger] items_a[j].pre, items_a[j].post),
        forall|j: int| 0 <= j < items_b.len() ==> parser_step(#[trigger] items_b[j].pre, items_b[j].post),
        forall|j: int, l: int|
            0 <= j < items_a.len() && 0 <= l < items_b.len() ==> runs_agree(
                #[trigger] items_a[j],
                #[trigger] items_b[l],
            ),
    ensures
        repeat_post(ends_a, items_a) == repeat_post(ends_b, items_b),
        r_a is Ok <==> r_b is Ok,
        r_a matches Ok(n) ==> n == r_b->Ok_0@.len() && n >= 1,
        r_a matches Err(x) ==> (r_b matches Err(y) && x@ == y@),
{
    law_repetition_runs_unique(None, start, ends_a, items_a, ends_b, items_b);
    let res = repeat_result::<IT, O, ()>(1, None, false, start, ends_a, items_a);
    assert(res == repeat_result::<IT, O, ()>(1, None, false, start, ends_b, items_b));
    if r_a is Ok {
        law_repetition_bounds(1, None, false, start, ends_a, items_a);
        let v = r_b->Ok_0;
        assert(v@.len() == v.len());
    }
}

/// Index of the first incomplete (separator, element) pair of a list tail: where the separator
/// failed, or the pair whose element failed or consumed nothing.
pub open spec fn tail_stop<IT, O, OS>(seps: Seq<Run<IT, OS>>, items: Seq<Run<IT, O>>) -> int {
    if seps.len() == items.len() + 1 {
        items.len() as int
    } else {
        items.len() - 1
    }
}

proof fn lemma_tail_facts<IT: InputToken, O, OS>(
    start: InputView<IT>,
    seps: Seq<Run<IT, OS>>,
    items: Seq<Run<IT, O>>,
)
    requires
        tail_trace(start, seps, items),
    ensures
        ({
            let c = tail_stop(seps, items);
            &&& 0 <= c
            &&& seps.len() == c + 1
            &&& items.len() == c || items.len() == c + 1
            &&& forall|k: int| 0 <= k <= c ==> #[trigger] seps[k].pre == tail_start(items, start, k)
            &&& forall|k: int| 0 <= k < items.len() ==> #[trigger] items[k].pre == seps[k].post
            &&& forall|k: int|
                0 <= k < c ==> {
                    &&& (#[trigger] seps[k]).out is Ok
                    &&& (#[trigger] items[k]).out is Ok
                    &&& items[k].post.pos > seps[k].pre.pos
                }
            &&& items.len() == c ==> seps[c].out is Err
            &&& items.len() == c + 1 ==> seps[c].out is Ok && (items[c].out is Ok
                ==> items[c].post.pos == seps[c].pre.pos)
        }),
{
    reveal(tail_pairs);
    let m = items.len() as int;
    if seps.len() == m + 1 {
        let ps = seps.drop_last();
        assert forall|k: int| 0 <= k <= m implies #[trigger] seps[k].pre == tail_start(items, start, k) by {
            if k < m {
                assert(ps[k] == seps[k]);
            }
        }
        assert forall|k: int| 0 <= k < m implies #[trigger] items[k].pre == seps[k].post by {
            assert(ps[k] == seps[k]);
        }
        assert forall|k: int| 0 <= k < m implies {
            &&& (#[trigger] seps[k]).out is Ok
            &&& (#[trigger] items[k]).out is Ok
            &&& items[k].post.pos > seps[k].pre.pos
        } by {
            assert(ps[k] == seps[k]);
        }
    } else {
        let ps = seps.drop_last();
        let pi = items.drop_last();
        assert forall|k: int| 0 <= k <= m - 1 implies #[trigger] seps[k].pre == tail_start(items, start, k) by {
            if k < m - 1 {
                assert(ps[k] == seps[k]);
                if k > 0 {
                    assert(pi[k - 1] == items[k - 1]);
                }
            } else if k > 0 {
                assert(pi[k - 1] == items[k - 1]);
            }
        }
        assert forall|k: int| 0 <= k < m implies #[trigger] items[k].pre == seps[k].post by {
            if k < m - 1 {
                assert(ps[k] == seps[k]);
                assert(pi[k] == items[k]);
            }
        }
        assert forall|k: int| 0 <= k < m - 1 implies {
            &&& (#[trigger] seps[k]).out is Ok
            &&& (#[trigger] items[k]).out is Ok
            &&& items[k].post.pos > seps[k].pre.pos
        } by {
            assert(ps[k] == seps[k]);
            assert(pi[k] == items[k]);
        }
    }
}

proof fn lemma_tail_prefix_equal<IT: InputToken, O, OS>(
    start: InputView<IT>,
    seps_a: Seq<Run<IT, OS>>,
    items_a: Seq<Run<IT, O>>,
    seps_b: Seq<Run<IT, OS>>,
    items_b: Seq<Run<IT, O>>,
    k: int,
)
    requires
        tail_trace(start, seps_a, items_a),
        tail_trace(start, seps_b, items_b),
        forall|j: int| 0 <= j < seps_a.len() ==> parser_step(#[trigger] seps_a[j].pre, seps_a[j].post),
        forall|j: int| 0 <= j < seps_b.len() ==> parser_step(#[trigger] seps_b[j].pre, seps_b[j].post),
        forall|j: int| 0 <= j < items_a.len() ==> parser_step(#[trigger] items_a[j].pre, items_a[j].post),
        forall|j: int| 0 <= j < items_b.len() ==> parser_step(#[trigger] items_b[j].pre, items_b[j].post),
        forall|j: int, l: int|
            0 <= j < seps_a.len() && 0 <= l < seps_b.len() ==> runs_agree(
                #[trigger] seps_a[j],
                #[trigger] seps_b[l],
            ),
        forall|j: int, l: int|
            0 <= j < items_a.len() && 0 <= l < items_b.len() ==> runs_agree(
                #[trigger] items_a[j],
                #[trigger] items_b[l],
            ),
        0 <= k <= tail_stop(seps_a, items_a),
        k <= tail_stop(seps_b, items_b),
    ensures
        seps_a[k] == seps_b[k],
        k < items_a.len() && k < items_b.len() ==> items_a[k] == items_b[k],
    decreases k,
{
    lemma_tail_facts(start, seps_a, items_a);
    lemma_tail_facts(start, seps_b, items_b);
    if k > 0 {
        lemma_tail_prefix_equal(start, seps_a, items_a, seps_b, items_b, k - 1);
        assert(items_a[k - 1] == items_b[k - 1]);
    }
    assert(seps_a[k].pre == tail_start(items_a, start, k));
    assert(seps_b[k].pre == tail_start(items_b, start, k));
    assert(runs_agree(seps_a[k], seps_b[k]));
    if k < items_a.len() && k < items_b.len() {
        assert(items_a[k].pre == seps_a[k].post);
        assert(items_b[k].pre == seps_b[k].post);
        assert(runs_agree(items_a[k], items_b[k]));
    }
}

#[verifier::spinoff_prover]
proof fn lemma_tail_same_stop<IT: InputToken, O, OS>(
    start: InputView<IT>,
    seps_a: Seq<Run<IT, OS>>,
    items_a: Seq<Run<IT, O>>,
    seps_b: Seq<Run<IT, OS>>,
    items_b: Seq<Run<IT, O>>,
)
    requires
        tail_trace(start, seps_a, items_a),
        tail_trace(start, seps_b, items_b),
        forall|j: int| 0 <= j < seps_a.len() ==> parser_step(#[trigger] seps_a[j].pre, seps_a[j].post),
        forall|j: int| 0 <= j < seps_b.len() ==> parser_step(#[trigger] seps_b[j].pre, seps_b[j].post),
        forall|j: int| 0 <= j < items_a.len() ==> parser_step(#[trigger] items_a[j].pre, items_a[j].post),
        forall|j: int| 0 <= j < items_b.len() ==> parser_step(#[trigger] items_b[j].pre, items_b[j].post),
        forall|j: int, l: int|
            0 <= j < seps_a.len() && 0 <= l < seps_b.len() ==> runs_agree(
                #[trigger] seps_a[j],
                #[trigger] seps_b[l],
            ),
        forall|j: int, l: int|
            0 <= j < items_a.len() && 0 <= l < items_b.len() ==> runs_agree(
                #[trigger] items_a[j],
                #[trigger] items_b[l],
            ),
    ensures
        tail_stop(seps_a, items_a) == tail_stop(seps_b, items_b),
        seps_a.len() == seps_b.len(),
        items_a.len() == items_b.len(),
{
    lemma_tail_facts(start, seps_a, items_a);
    lemma_tail_facts(start, seps_b, items_b);
    let ca = tail_stop(seps_a, items_a);
    let cb = tail_stop(seps_b, items_b);
    if ca < cb {
        lemma_tail_prefix_equal(start, seps_a, items_a, seps_b, items_b, ca);
        assert(seps_b[ca].out is Ok && items_b[ca].out is Ok);
        assert(false);
    } else if cb < ca {
        lemma_tail_prefix_equal(start, seps_a, items_a, seps_b, items_b, cb);
        assert(seps_a[cb].out is Ok && items_a[cb].out is Ok);
        assert(false);
    } else {
        lemma_tail_prefix_equal(start, seps_a, items_a, seps_b, items_b, ca);
    }
}

/// Two list tails that start at the same place, whose separator runs agree and whose element
/// runs agree, go through the same runs.
pub proof fn law_tail_runs_unique<IT: InputToken, O, OS>(
    start: InputView<IT>,
    seps_a: Seq<Run<IT, OS>>,
    items_a: Seq<Run<IT, O>>,
    seps_b: Seq<Run<IT, OS>>,
    items_b: Seq<Run<IT, O>>,
)
    requires
        tail_trace(start, seps_a, items_a),
        tail_trace(start, seps_b, items_b),
        forall|j: int| 0 <= j < seps_a.len() ==> parser_step(#[trigger] seps_a[j].pre, seps_a[j].post),
        forall|j: int| 0 <= j < seps_b.len() ==> parser_step(#[trigger] seps_b[j].pre, seps_b[j].post),
        forall|j: int| 0 <= j < items_a.len() ==> parser_step(#[trigger] items_a[j].pre, items_a[j].post),
        forall|j: int| 0 <= j < items_b.len() ==> parser_step(#[trigger] items_b[j].pre, items_b[j].post),
        forall|j: int, l: int|
            0 <= j < seps_a.len() && 0 <= l < seps_b.len() ==> runs_agree(
                #[trigger] seps_a[j],
                #[trigger] seps_b[l],
            ),
        forall|j: int, l: int|
            0 <= j < items_a.len() && 0 <= l < items_b.len() ==> runs_agree(
                #[trigger] items_a[j],
                #[trigger] items_b[l],
            ),
    ensures
        seps_a == seps_b,
        items_a == items_b,
{
    lemma_tail_same_stop(start, seps_a, items_a, seps_b, items_b);
    let c = tail_stop(seps_a, items_a);
    assert forall|j: int| 0 <= j <= c implies seps_a[j] == seps_b[j] by {
        lemma_tail_prefix_equal(start, seps_a, items_a, seps_b, items_b, j);
    }
    assert forall|j: int| 0 <= j < items_a.len() implies items_a[j] == items_b[j] by {
        lemma_tail_prefix_equal(start, seps_a, items_a, seps_b, items_b, j);
    }
    assert(seps_a =~= seps_b);
    assert(items_a =~= items_b);
}

/// [`separated_by1`](crate::separated_by1) is [`separated_by0`](crate::separated_by0) without
/// the empty list: from the same input, with runs of the parser and of the separator that
/// agree, both return the same list (or the same error) when the first element matches; when
/// it fails with `e`, the first fails with `e` and the second returns no element. Both stop at
/// the same place.
pub proof fn law_separated_by1_like_separated_by0<IT: InputToken, O, OS>(
    start: InputView<IT>,
    first_a: Run<IT, O>,
    seps_a: Seq<Run<IT, OS>>,
    items_a: Seq<Run<IT, O>>,
    post_a: InputView<IT>,
    r_a: Result<Vec<O>, Error>,
    first_b: Run<IT, O>,
    seps_b: Seq<Run<IT, OS>>,
    items_b: Seq<Run<IT, O>>,
    post_b: InputView<IT>,
    r_b: Result<Vec<O>, Error>,
)
    requires
        separated_outcome(false, start, first_a, seps_a, items_a, post_a, r_a),
        separated_outcome(true, start, first_b, seps_b, items_b, post_b, r_b),
        parser_step(first_a.pre, first_a.post),
        parser_step(first_b.pre, first_b.post),
        runs_agree(first_a, first_b),
        forall|j: int| 0 <= j < seps_a.len() ==> parser_step(#[trigger] seps_a[j].pre, seps_a[j].post),
        forall|j: int| 0 <= j < seps_b.len() ==> parser_step(#[trigger] seps_b[j].pre, seps_b[j].post),
        forall|j: int| 0 <= j < items_a.len() ==> parser_step(#[trigger] items_a[j].pre, items_a[j].post),
        forall|j: int| 0 <= j < items_b.len() ==> parser_step(#[trigger] items_b[j].pre, items_b[j].post),
        forall|j: int, l: int|
            0 <= j < seps_a.len() && 0 <= l < seps_b.len() ==> runs_agree(
                #[trigger] seps_a[j],
                #[trigger] seps_b[l],
            ),
        forall|j: int, l: int|
            0 <= j < items_a.len() && 0 <= l < items_b.len() ==> runs_agree(
                #[trigger] items_a[j],
                #[trigger] items_b[l],
            ),
    ensures
        post_a == post_b,
        first_a.out is Ok ==> {
            &&& r_a is Ok <==> r_b is Ok
            &&& r_a matches Ok(v) ==> r_b->Ok_0@ == v@
            &&& r_a matches Err(x) ==> (r_b matches Err(y) && x@ == y@)
        },
        first_a.out matches Err(e) ==> r_a == Err::<Vec<O>, Error>(e) && (r_b matches Ok(v) && v@.len() == 0),
{
    assert(first_a.out == first_b.out);
    if first_a.out is Ok {
        law_tail_runs_unique(first_a.post, seps_a, items_a, seps_b, items_b);
    }
}

/// A left fold, step by step: `accs[0]` is `x0`, and each `accs[k + 1]` is what the `k`-th
/// function gives on `accs[k]` and the `k`-th operand.
proof fn lemma_left_steps<O, F: Fn(O, O) -> O>(fs: Seq<F>, x0: O, xs: Seq<O>, v: O) -> (accs: Seq<O>)
    requires
        fs.len() == xs.len(),
        folds_left(fs, x0, xs, v),
    ensures
        accs.len() == fs.len() + 1,
        accs[0] == x0,
        accs.last() == v,
        forall|k: int| 0 <= k < fs.len() ==> #[trigger] call_ensures(fs[k], (accs[k], xs[k]), accs[k + 1]),
    decreases fs.len(),
{
    if fs.len() == 0 {
        seq![x0]
    } else {
        let w = choose|w: O|
            folds_left(fs.drop_last(), x0, xs.drop_last(), w) && #[trigger] call_ensures(
                fs.last(),
                (w, xs.last()),
                v,
            );
        let prev = lemma_left_steps(fs.drop_last(), x0, xs.drop_last(), w);
        let accs = prev.push(v);
        assert forall|k: int| 0 <= k < fs.len() implies #[trigger] call_ensures(
            fs[k],
            (accs[k], xs[k]),
            accs[k + 1],
        ) by {
            if k < fs.len() - 1 {
                assert(fs.drop_last()[k] == fs[k]);
                assert(xs.drop_last()[k] == xs[k]);
                assert(call_ensures(fs.drop_last()[k], (prev[k], xs.drop_last()[k]), prev[k + 1]));
            }
        }
        accs
    }
}

/// A right fold, step by step: `accs` ends with the last operand, and each `accs[k]` is what
/// the `k`-th function gives on the `k`-th operand and `accs[k + 1]`.
proof fn lemma_right_steps<O, F: Fn(O, O) -> O>(fs: Seq<F>, xs: Seq<O>, v: O) -> (accs: Seq<O>)
    requires
        xs.len() == fs.len() + 1,
        folds_right(fs, xs, v),
    ensures
        accs.len() == xs.len(),
        accs[0] == v,
        accs.last() == xs.last(),
        forall|k: int| 0 <= k < fs.len() ==> #[trigger] call_ensures(fs[k], (xs[k], accs[k + 1]), accs[k]),
    decreases fs.len(),
{
    if fs.len() == 0 {
        seq![v]
    } else {
        let w = choose|w: O|
            folds_right(fs.drop_first(), xs.drop_first(), w) && #[trigger] call_ensures(
                fs[0],
                (xs[0], w),
                v,
            );
        let rest = lemma_right_steps(fs.drop_first(), xs.drop_first(), w);
        let accs = seq![v] + rest;
        assert forall|k: int| 0 <= k < fs.len() implies #[trigger] call_ensures(
            fs[k],
            (xs[k], accs[k + 1]),
            accs[k],
        ) by {
            if k > 0 {
                assert(fs.drop_first()[k - 1] == fs[k]);
                assert(xs.drop_first()[k - 1] == xs[k]);
                assert(call_ensures(fs.drop_first()[k - 1], (xs.drop_first()[k - 1], rest[k]), rest[k - 1]));
            }
        }
        accs
    }
}

/// A successful [`chain_left`](crate::chain_left) applies the operators in the order they were
/// read, from the left: with the operands `x0, x1, ..., xn` and the operators `f1, ..., fn`
/// between them, the result is `fn(... f2(f1(x0, x1), x2) ..., xn)`. That is, there are values
/// `a0 = x0, a1, ..., an = result` where each `a(k+1)` is what the `(k+1)`-th operator read gives
/// on `ak` and the `(k+1)`-th operand after `x0`.
pub proof fn law_chain_left_order<IT: InputToken, O, F: Fn(O, O) -> O>(
    start: InputView<IT>,
    first: Run<IT, O>,
    ops: Seq<Run<IT, F>>,
    operands: Seq<Run<IT, O>>,
    post: InputView<IT>,
    r: Result<O, Error>,
)
    requires
        chain_outcome(false, start, first, ops, operands, post, r),
        r is Ok,
    ensures
        first.out is Ok,
        ops.len() == operands.len() + 1,
        forall|k: int| 0 <= k < operands.len() ==> (#[trigger] ops[k]).out is Ok && operands[k].out is Ok,
        exists|accs: Seq<O>|
            {
                &&& accs.len() == operands.len() + 1
                &&& accs[0] == first.out->Ok_0
                &&& accs.last() == r->Ok_0
                &&& forall|k: int|
                    0 <= k < operands.len() ==> #[trigger] call_ensures(
                        ops[k].out->Ok_0,
                        (accs[k], operands[k].out->Ok_0),
                        accs[k + 1],
                    )
            },
{
    let x = first.out->Ok_0;
    let fs = successes(ops.drop_last());
    let xs = successes(operands);
    lemma_tail_facts(first.post, ops, operands);
    let accs = lemma_left_steps(fs, x, xs, r->Ok_0);
    assert forall|k: int| 0 <= k < operands.len() implies #[trigger] call_ensures(
        ops[k].out->Ok_0,
        (accs[k], operands[k].out->Ok_0),
        accs[k + 1],
    ) by {
        assert(fs[k] == ops.drop_last()[k].out->Ok_0);
        assert(ops.drop_last()[k] == ops[k]);
        assert(xs[k] == operands[k].out->Ok_0);
    }
}

/// A successful [`chain_right`](crate::chain_right) pairs each operator with the operand before
/// it and everything after it: with the operands `x0, x1, ..., xn` and the operators
/// `f1, ..., fn` between them, the result is `f1(x0, f2(x1, ... fn(x(n-1), xn)))`. That is,
/// there are values `a0 = result, ..., an = xn` where each `ak` is what the `(k+1)`-th operator
/// read gives on `xk` and `a(k+1)`.
pub proof fn law_chain_right_order<IT: InputToken, O, F: Fn(O, O) -> O>(
    start: InputView<IT>,
    first: Run<IT, O>,
    ops: Seq<Run<IT, F>>,
    operands: Seq<Run<IT, O>>,
    post: InputView<IT>,
    r: Result<O, Error>,
)
    requires
        chain_outcome(true, start, first, ops, operands, post, r),
        r is Ok,
    ensures
        first.out is Ok,
        ops.len() == operands.len() + 1,
        forall|k: int| 0 <= k < operands.len() ==> (#[trigger] ops[k]).out is Ok && operands[k].out is Ok,
        exists|accs: Seq<O>|
            #![trigger accs.len()]
            {
                &&& accs.len() == operands.len() + 1
                &&& accs[0] == r->Ok_0
                &&& operands.len() == 0 ==> accs.last() == first.out->Ok_0
                &&& operands.len() > 0 ==> accs.last() == operands.last().out->Ok_0
                &&& operands.len() > 0 ==> call_ensures(
                    ops[0].out->Ok_0,
                    (first.out->Ok_0, accs[1]),
                    accs[0],
                )
                &&& forall|k: int|
                    1 <= k < operands.len() ==> #[trigger] call_ensures(
                        ops[k].out->Ok_0,
                        (operands[k - 1].out->Ok_0, accs[k + 1]),
                        accs[k],
                    )
            },
{
    let x = first.out->Ok_0;
    let fs = successes(ops.drop_last());
    let xs = seq![x] + successes(operands);
    lemma_tail_facts(first.post, ops, operands);
    let accs = lemma_right_steps(fs, xs, r->Ok_0);
    assert(xs[0] == x);
    assert(xs.len() == operands.len() + 1);
    if operands.len() == 0 {
        assert(xs.last() == x);
    }
    if operands.len() > 0 {
        assert(xs.last() == xs[operands.len() as int]);
        assert(xs[operands.len() as int] == successes(operands)[operands.len() - 1]);
        assert(successes(operands)[operands.len() - 1] == operands.last().out->Ok_0);
        assert(call_ensures(fs[0], (xs[0], accs[1]), accs[0]));
        assert(fs[0] == ops.drop_last()[0].out->Ok_0);
    }
    assert forall|k: int| 1 <= k < operands.len() implies #[trigger] call_ensures(
        ops[k].out->Ok_0,
        (operands[k - 1].out->Ok_0, accs[k + 1]),
        accs[k],
    ) by {
        assert(call_ensures(fs[k], (xs[k], accs[k + 1]), accs[k]));
        assert(fs[k] == ops.drop_last()[k].out->Ok_0);
        assert(ops.drop_last()[k] == ops[k]);
        assert(xs[k] == successes(operands)[k - 1]);
    }
    assert({
        &&& accs.len() == operands.len() + 1
        &&& accs[0] == r->Ok_0
        &&& operands.len() == 0 ==> accs.last() == first.out->Ok_0
        &&& operands.len() > 0 ==> accs.last() == operands.last().out->Ok_0
        &&& operands.len() > 0 ==> call_ensures(ops[0].out->Ok_0, (first.out->Ok_0, accs[1]), accs[0])
        &&& forall|k: int|
            1 <= k < operands.len() ==> #[trigger] call_ensures(
                ops[k].out->Ok_0,
                (operands[k - 1].out->Ok_0, accs[k + 1]),
                accs[k],
            )
    });
}

/// A successful separated list returns its elements in input order: first the output of the
/// first run of the parser, then, for each separator that matched, the output of the parser
/// run after it. When the first element fails (and the list may be empty), it is empty.
pub proof fn law_separated_in_input_order<IT: InputToken, O, OS>(
    may_be_empty: bool,
    start: InputView<IT>,
    first: Run<IT, O>,
    seps: Seq<Run<IT, OS>>,
    items: Seq<Run<IT, O>>,
    post: InputView<IT>,
    r: Result<Vec<O>, Error>,
)
    requires
        separated_outcome(may_be_empty, start, first, seps, items, post, r),
        r is Ok,
    ensures
        first.out is Err ==> r->Ok_0@.len() == 0,
        first.out is Ok ==> {
            &&& r->Ok_0@.len() == items.len() + 1
            &&& r->Ok_0@[0] == first.out->Ok_0
            &&& forall|k: int| 0 <= k < items.len() ==> r->Ok_0@[k + 1] == (#[trigger] items[k]).out->Ok_0
        },
{
}

/// A successful [`count`](crate::count) returns the matches in input order: its `k`-th element is
/// the output of the `k`-th run of the parser.
pub proof fn law_count_in_input_order<IT, O>(
    count: usize,
    start: InputView<IT>,
    items: Seq<Run<IT, O>>,
    post: InputView<IT>,
    r: Result<Vec<O>, Error>,
)
    requires
        count_outcome(count, start, items, post, r),
        r is Ok,
    ensures
        items.len() == count,
        r->Ok_0@.len() == count,
        forall|k: int| 0 <= k < count ==> r->Ok_0@[k] == (#[trigger] items[k]).out->Ok_0,
{
}

/// A successful collecting repetition returns its matches in input order: its `k`-th element is
/// the output of the `k`-th run of the parser.
pub proof fn law_repetition_in_input_order<IT: InputToken, O>(
    min: usize,
    max: Option<usize>,
    fail_on_error: bool,
    start: InputView<IT>,
    ends: Seq<Run<IT, ()>>,
    items: Seq<Run<IT, O>>,
    r: Result<Vec<O>, Error>,
)
    requires
        collected(r, repeat_result::<IT, O, ()>(min, max, fail_on_error, start, ends, items)),
        r is Ok,
    ensures
        r->Ok_0@.len() <= items.len(),
        forall|k: int| 0 <= k < r->Ok_0@.len() ==> r->Ok_0@[k] == (#[trigger] items[k]).out->Ok_0,
{
}

/// A successful collecting repetition with an end parser returns its matches in input order,
/// and the output of the end parser that stopped it.
pub proof fn law_repetition_until_in_input_order<IT: InputToken, O, OE>(
    min: usize,
    max: Option<usize>,
    fail_on_error: bool,
    start: InputView<IT>,
    ends: Seq<Run<IT, OE>>,
    items: Seq<Run<IT, O>>,
    r: Result<(Vec<O>, OE), Error>,
)
    requires
        collected_until(r, repeat_result::<IT, O, OE>(min, max, fail_on_error, start, ends, items)),
        r is Ok,
    ensures
        r->Ok_0.0@.len() == items.len(),
        forall|k: int| 0 <= k < items.len() ==> r->Ok_0.0@[k] == (#[trigger] items[k]).out->Ok_0,
        ends.len() == items.len() + 1 && r->Ok_0.1 == ends.last().out->Ok_0,
{
}

/// A successful [`many_until`](crate::many_until) returns its matches in input order.
pub proof fn law_until_in_input_order<IT: InputToken, O, OE>(
    start: InputView<IT>,
    ends: Seq<Run<IT, OE>>,
    items: Seq<Run<IT, O>>,
    r: Result<Vec<O>, Error>,
)
    requires
        until_result(start, ends, items, r),
        r is Ok,
    ensures
        r->Ok_0@.len() == items.len(),
        forall|k: int| 0 <= k < items.len() ==> r->Ok_0@[k] == (#[trigger] items[k]).out->Ok_0,
{
}

/// A successful [`many`](crate::combinators::many_output::many) that keeps its matches returns
/// them in input order; one that only counts them returns how many there are.
pub proof fn law_many_in_input_order<IT: InputToken, O>(
    store_matches: bool,
    min: usize,
    max: Option<usize>,
    start: InputView<IT>,
    ends: Seq<Run<IT, ()>>,
    items: Seq<Run<IT, O>>,
    r: Result<ManyOutput<O>, Error>,
)
    requires
        many_returned(store_matches, r, repeat_result::<IT, O, ()>(min, max, false, start, ends, items)),
        r is Ok,
    ensures
        store_matches ==> (r matches Ok(ManyOutput::Matches(v)) && v@.len() <= items.len() && forall|
            k: int,
        | 0 <= k < v@.len() ==> v@[k] == (#[trigger] items[k]).out->Ok_0),
        !store_matches ==> (r matches Ok(ManyOutput::Count(n)) && n <= items.len()),
{
}

} // verus!
