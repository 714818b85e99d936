use crate::combinators::repetition::successes;
use crate::combinators::separated_by::{separated_tail, tail_collected, tail_post, tail_trace};
use crate::error::{Error, ErrorView};
use crate::input::{parser_step, Input, InputToken, InputView};
use crate::parser::{fails_with, total, Parser, Run};
use vstd::prelude::*;

verus! {

/// `v` can be what combining `x0, xs[0], xs[1], ...` from the left gives, with `fs[k]` between
/// the value so far and `xs[k]`: `fs[n-1](... fs[1](fs[0](x0, xs[0]), xs[1]) ..., xs[n-1])`.
pub open spec fn folds_left<O, F: Fn(O, O) -> O>(fs: Seq<F>, x0: O, xs: Seq<O>, v: O) -> bool
    decreases fs.len(),
{
    if fs.len() == 0 {
        v == x0
    } else {
        exists|w: O|
            folds_left(fs.drop_last(), x0, xs.drop_last(), w) && #[trigger] call_ensures(
                fs.last(),
                (w, xs.last()),
                v,
            )
    }
}

/// `v` can be what combining `xs` from the right gives, with `fs[k]` between `xs[k]` and the
/// combination of what follows it: `fs[0](xs[0], fs[1](xs[1], ... fs[n-1](xs[n-1], xs[n])))`.
pub open spec fn folds_right<O, F: Fn(O, O) -> O>(fs: Seq<F>, xs: Seq<O>, v: O) -> bool
    decreases fs.len(),
{
    if fs.len() == 0 {
        v == xs[0]
    } else {
        exists|w: O|
            folds_right(fs.drop_first(), xs.drop_first(), w) && #[trigger] call_ensures(
                fs[0],
                (xs[0], w),
                v,
            )
    }
}

/// What a chain returns, given the run of its first operand (`first`), and the runs of its
/// operators (`ops`) and of the operands after them (`operands`), which follow as the
/// separators and elements of a list tail do. When the first operand fails, the chain fails
/// with its error. When an operator fails, the chain combines the operands with the operators
/// that matched, from the left or from the right (`right`).
pub open spec fn chain_outcome<IT: InputToken, O, F: Fn(O, O) -> O>(
    right: bool,
    start: InputView<IT>,
    first: Run<IT, O>,
    ops: Seq<Run<IT, F>>,
    operands: Seq<Run<IT, O>>,
    post: InputView<IT>,
    r: Result<O, Error>,
) -> bool {
    &&& first.pre == start
    &&& match first.out {
        Err(e) => {
            &&& ops.len() == 0
            &&& operands.len() == 0
            &&& post == first.post
            &&& r == Err::<O, Error>(e)
        },
        Ok(x) => {
            &&& tail_trace(first.post, ops, operands)
            &&& post == tail_post(ops, operands)
            &&& if ops.len() == operands.len() + 1 {
                r matches Ok(v) && if right {
                    folds_right(successes(ops.drop_last()), seq![x] + successes(operands), v)
                } else {
                    folds_left(successes(ops.drop_last()), x, successes(operands), v)
                }
            } else {
                match operands.last().out {
                    Err(e) => r == Err::<O, Error>(e),
                    Ok(_) => fails_with(
                        r,
                        ErrorView::NonConsumingLoop(start.source_name, operands.last().post.position()),
                    ),
                }
            }
        },
    }
}

/// The elements of `v` in reverse order.
fn reversed<T>(v: Vec<T>) -> (r: Vec<T>)
    ensures
        r.len() == v.len(),
        forall|k: int| 0 <= k < v.len() ==> #[trigger] r@[k] == v@[v.len() - 1 - k],
{
    let ghost all = v@;
    let mut v = v;
    let mut r: Vec<T> = Vec::new();
    while v.len() > 0
        invariant
            v.len() + r.len() == all.len(),
            v@ == all.take(v.len() as int),
            forall|k: int| 0 <= k < r.len() ==> #[trigger] r@[k] == all[all.len() - 1 - k],
        decreases v.len(),
    {
        let x = v.pop().unwrap();
        r.push(x);
        proof {
            assert(v@ =~= all.take(v.len() as int));
        }
    }
    r
}

/// Combines `xs` from the left with the functions `fs`.
fn fold_left<O, F: Fn(O, O) -> O>(fs: Vec<F>, xs: Vec<O>) -> (v: O)
    requires
        xs.len() == fs.len() + 1,
        forall|f: F, a: O, b: O| #[trigger] call_requires(f, (a, b)),
    ensures
        folds_left(fs@, xs@[0], xs@.drop_first(), v),
{
    let ghost all_fs = fs@;
    let ghost all_xs = xs@;
    let mut fs = reversed(fs);
    let mut xs = reversed(xs);
    let mut acc = xs.pop().unwrap();
    let ghost mut done: int = 0;
    proof {
        assert(all_fs.take(0) =~= Seq::<F>::empty());
    }
    while fs.len() > 0
        invariant
            forall|f: F, a: O, b: O| #[trigger] call_requires(f, (a, b)),
            all_xs.len() == all_fs.len() + 1,
            0 <= done <= all_fs.len(),
            fs.len() == all_fs.len() - done,
            xs.len() == fs.len(),
            forall|k: int| 0 <= k < fs.len() ==> #[trigger] fs@[k] == all_fs[all_fs.len() - 1 - k],
            forall|k: int| 0 <= k < xs.len() ==> #[trigger] xs@[k] == all_xs[all_xs.len() - 1 - k],
            folds_left(all_fs.take(done), all_xs[0], all_xs.drop_first().take(done), acc),
        decreases fs.len(),
    {
        let f = fs.pop().unwrap();
        let x = xs.pop().unwrap();
        let next = f(acc, x);
        proof {
            let nf = all_fs.take(done + 1);
            let nx = all_xs.drop_first().take(done + 1);
            assert(nf.drop_last() =~= all_fs.take(done));
            assert(nx.drop_last() =~= all_xs.drop_first().take(done));
            assert(f == nf.last());
            assert(x == nx.last());
            assert(folds_left(nf, all_xs[0], nx, next));
            done = done + 1;
        }
        acc = next;
    }
    proof {
        assert(all_fs.take(done) =~= all_fs);
        assert(all_xs.drop_first().take(done) =~= all_xs.drop_first());
    }
    acc
}

/// Combines `xs` from the right with the functions `fs`.
fn fold_right<O, F: Fn(O, O) -> O>(fs: Vec<F>, xs: Vec<O>) -> (v: O)
    requires
        xs.len() == fs.len() + 1,
        forall|f: F, a: O, b: O| #[trigger] call_requires(f, (a, b)),
    ensures
        folds_right(fs@, xs@, v),
{
    let ghost all_fs = fs@;
    let ghost all_xs = xs@;
    let mut fs = fs;
    let mut xs = xs;
    let mut acc = xs.pop().unwrap();
    proof {
        assert(all_fs.subrange(all_fs.len() as int, all_fs.len() as int) =~= Seq::<F>::empty());
        assert(all_xs.subrange(all_fs.len() as int, all_xs.len() as int)[0] == acc);
    }
    while fs.len() > 0
        invariant
            forall|f: F, a: O, b: O| #[trigger] call_requires(f, (a, b)),
            all_xs.len() == all_fs.len() + 1,
            fs.len() <= all_fs.len(),
            xs.len() == fs.len(),
            fs@ == all_fs.take(fs.len() as int),
            xs@ == all_xs.take(xs.len() as int),
            folds_right(
                all_fs.subrange(fs.len() as int, all_fs.len() as int),
                all_xs.subrange(fs.len() as int, all_xs.len() as int),
                acc,
            ),
        decreases fs.len(),
    {
        let ghost k = fs.len() - 1;
        let f = fs.pop().unwrap();
        let x = xs.pop().unwrap();
        let next = f(x, acc);
        proof {
            let nf = all_fs.subrange(k, all_fs.len() as int);
            let nx = all_xs.subrange(k, all_xs.len() as int);
            assert(nf.drop_first() =~= all_fs.subrange(k + 1, all_fs.len() as int));
            assert(nx.drop_first() =~= all_xs.subrange(k + 1, all_xs.len() as int));
            assert(nf[0] == f);
            assert(nx[0] == x);
            assert(folds_right(nf, nx, next));
            assert(fs@ =~= all_fs.take(fs.len() as int));
            assert(xs@ =~= all_xs.take(xs.len() as int));
        }
        acc = next;
    }
    proof {
        assert(all_fs.subrange(0, all_fs.len() as int) =~= all_fs);
        assert(all_xs.subrange(0, all_xs.len() as int) =~= all_xs);
    }
    acc
}

/// A parser of one or more occurrences of `operand_parser` separated by `operator_parser`,
/// which combines the operands with the functions that the operators return, from the left:
/// `a - b - c` is `(a - b) - c`.
///
/// When an operator and the operand after it both match without consuming any input, the chain
/// would go on forever: it fails instead with [`Error::NonConsumingLoop`] where it stopped (see
/// [`chain_outcome`]).
pub fn chain_left<'a, P, IT: InputToken, O, OP, F>(operand_parser: &'a P, operator_parser: &'a OP) -> (res: impl Parser<
    IT,
    O,
> + 'a) where P: Parser<IT, O>, OP: Parser<IT, F>, F: Fn(O, O) -> O,

    requires
        total(*operand_parser),
        total(*operator_parser),
        forall|i: &mut Input<IT>, r: Result<O, Error>|
            #[trigger] call_ensures(*operand_parser, (i,), r) ==> final(i).wf() && parser_step(i@, final(i)@),
        forall|i: &mut Input<IT>, r: Result<F, Error>|
            #[trigger] call_ensures(*operator_parser, (i,), r) ==> final(i).wf() && parser_step(i@, final(i)@),
        forall|f: F, a: O, b: O| #[trigger] call_requires(f, (a, b)),
    ensures
        total(res),
        forall|i: &mut Input<IT>, r: Result<O, Error>|
            #[trigger] call_ensures(res, (i,), r) ==> {
                &&& final(i).wf()
                &&& parser_step(i@, final(i)@)
                &&& exists|first: Run<IT, O>, ops: Seq<Run<IT, F>>, operands: Seq<Run<IT, O>>|
                    {
                        &&& exists|j: &mut Input<IT>|
                            #[trigger] call_ensures(*operand_parser, (j,), first.out) && j@ == first.pre
                                && final(j)@ == first.post
                        &&& forall|k: int| #![trigger ops[k]]
                            0 <= k < ops.len() ==> exists|j: &mut Input<IT>|
                                #[trigger] call_ensures(*operator_parser, (j,), ops[k].out) && j@ == ops[k].pre
                                    && final(j)@ == ops[k].post
                        &&& forall|k: int| #![trigger operands[k]]
                            0 <= k < operands.len() ==> exists|j: &mut Input<IT>|
                                #[trigger] call_ensures(*operand_parser, (j,), operands[k].out) && j@
                                    == operands[k].pre && final(j)@ == operands[k].post
                        &&& chain_outcome(false, i@, first, ops, operands, final(i)@, r)
                    }
            },
{
    move |input: &mut Input<IT>| -> (r: Result<O, Error>)
        requires
            input.wf(),
        ensures
            final(input).wf(),
            parser_step(old(input)@, final(input)@),
            exists|first: Run<IT, O>, ops: Seq<Run<IT, F>>, operands: Seq<Run<IT, O>>|
                {
                    &&& exists|j: &mut Input<IT>|
                        #[trigger] call_ensures(*operand_parser, (j,), first.out) && j@ == first.pre
                            && final(j)@ == first.post
                    &&& forall|k: int| #![trigger ops[k]]
                        0 <= k < ops.len() ==> exists|j: &mut Input<IT>|
                            #[trigger] call_ensures(*operator_parser, (j,), ops[k].out) && j@ == ops[k].pre
                                && final(j)@ == ops[k].post
                    &&& forall|k: int| #![trigger operands[k]]
                        0 <= k < operands.len() ==> exists|j: &mut Input<IT>|
                            #[trigger] call_ensures(*operand_parser, (j,), operands[k].out) && j@
                                == operands[k].pre && final(j)@ == operands[k].post
                    &&& chain_outcome(false, old(input)@, first, ops, operands, final(input)@, r)
                },
        {
            let ghost pre = input@;
            let outcome = operand_parser(input);
            let ghost first = Run { pre, post: input@, out: outcome };
            proof {
                assert(exists|j: &mut Input<IT>|
                    #[trigger] call_ensures(*operand_parser, (j,), first.out) && j@ == first.pre
                        && final(j)@ == first.post);
            }
            match outcome {
                Ok(x) => {
                    let ghost tail_pre = input@;
                    let initial = vec![x];
                    proof {
                        assert(initial@ =~= seq![x]);
                    }
                    let tail = separated_tail(operand_parser, operator_parser, input, initial);
                    let result = match tail {
                        Ok((xs, fs)) => Ok(fold_left(fs, xs)),
                        Err(e) => Err(e),
                    };
                    proof {
                        let (ops, operands) = choose|ops: Seq<Run<IT, F>>, operands: Seq<Run<IT, O>>|
                            {
                                &&& forall|k: int| #![trigger ops[k]]
                                    0 <= k < ops.len() ==> exists|j: &mut Input<IT>|
                                        #[trigger] call_ensures(*operator_parser, (j,), ops[k].out) && j@
                                            == ops[k].pre && final(j)@ == ops[k].post
                                &&& forall|k: int| #![trigger operands[k]]
                                    0 <= k < operands.len() ==> exists|j: &mut Input<IT>|
                                        #[trigger] call_ensures(*operand_parser, (j,), operands[k].out) && j@
                                            == operands[k].pre && final(j)@ == operands[k].post
                                &&& tail_trace(tail_pre, ops, operands)
                                &&& input@ == tail_post(ops, operands)
                                &&& tail_collected(tail_pre, ops, operands, seq![x], tail)
                            };
                        assert((seq![x] + successes(operands)).drop_first() =~= successes(operands));
                        assert(chain_outcome(false, pre, first, ops, operands, input@, result));
                    }
                    result
                },
                Err(e) => {
                    let result = Err(e);
                    proof {
                        let ops = Seq::<Run<IT, F>>::empty();
                        let operands = Seq::<Run<IT, O>>::empty();
                        assert(chain_outcome(false, pre, first, ops, operands, input@, result));
                    }
                    result
                },
            }
        }
}

/// A parser of one or more occurrences of `operand_parser` separated by `operator_parser`,
/// which combines the operands with the functions that the operators return, from the right:
/// `a - b - c` is `a - (b - c)`.
///
/// When an operator and the operand after it both match without consuming any input, the chain
/// would go on forever: it fails instead with [`Error::NonConsumingLoop`] where it stopped (see
/// [`chain_outcome`]).
pub fn chain_right<'a, P, IT: InputToken, O, OP, F>(operand_parser: &'a P, operator_parser: &'a OP) -> (res: impl Parser<
    IT,
    O,
> + 'a) where P: Parser<IT, O>, OP: Parser<IT, F>, F: Fn(O, O) -> O,

    requires
        total(*operand_parser),
        total(*operator_parser),
        forall|i: &mut Input<IT>, r: Result<O, Error>|
            #[trigger] call_ensures(*operand_parser, (i,), r) ==> final(i).wf() && parser_step(i@, final(i)@),
        forall|i: &mut Input<IT>, r: Result<F, Error>|
            #[trigger] call_ensures(*operator_parser, (i,), r) ==> final(i).wf() && parser_step(i@, final(i)@),
        forall|f: F, a: O, b: O| #[trigger] call_requires(f, (a, b)),
    ensures
        total(res),
        forall|i: &mut Input<IT>, r: Result<O, Error>|
            #[trigger] call_ensures(res, (i,), r) ==> {
                &&& final(i).wf()
                &&& parser_step(i@, final(i)@)
                &&& exists|first: Run<IT, O>, ops: Seq<Run<IT, F>>, operands: Seq<Run<IT, O>>|
                    {
                        &&& exists|j: &mut Input<IT>|
                            #[trigger] call_ensures(*operand_parser, (j,), first.out) && j@ == first.pre
                                && final(j)@ == first.post
                        &&& forall|k: int| #![trigger ops[k]]
                            0 <= k < ops.len() ==> exists|j: &mut Input<IT>|
                                #[trigger] call_ensures(*operator_parser, (j,), ops[k].out) && j@ == ops[k].pre
                                    && final(j)@ == ops[k].post
                        &&& forall|k: int| #![trigger operands[k]]
                            0 <= k < operands.len() ==> exists|j: &mut Input<IT>|
                                #[trigger] call_ensures(*operand_parser, (j,), operands[k].out) && j@
                                    == operands[k].pre && final(j)@ == operands[k].post
                        &&& chain_outcome(true, i@, first, ops, operands, final(i)@, r)
                    }
            },
{
    move |input: &mut Input<IT>| -> (r: Result<O, Error>)
        requires
            input.wf(),
        ensures
            final(input).wf(),
            parser_step(old(input)@, final(input)@),
            exists|first: Run<IT, O>, ops: Seq<Run<IT, F>>, operands: Seq<Run<IT, O>>|
                {
                    &&& exists|j: &mut Input<IT>|
                        #[trigger] call_ensures(*operand_parser, (j,), first.out) && j@ == first.pre
                            && final(j)@ == first.post
                    &&& forall|k: int| #![trigger ops[k]]
                        0 <= k < ops.len() ==> exists|j: &mut Input<IT>|
                            #[trigger] call_ensures(*operator_parser, (j,), ops[k].out) && j@ == ops[k].pre
                                && final(j)@ == ops[k].post
                    &&& forall|k: int| #![trigger operands[k]]
                        0 <= k < operands.len() ==> exists|j: &mut Input<IT>|
                            #[trigger] call_ensures(*operand_parser, (j,), operands[k].out) && j@
                                == operands[k].pre && final(j)@ == operands[k].post
                    &&& chain_outcome(true, old(input)@, first, ops, operands, final(input)@, r)
                },
        {
            let ghost pre = input@;
            let outcome = operand_parser(input);
            let ghost first = Run { pre, post: input@, out: outcome };
            proof {
                assert(exists|j: &mut Input<IT>|
                    #[trigger] call_ensures(*operand_parser, (j,), first.out) && j@ == first.pre
                        && final(j)@ == first.post);
            }
            match outcome {
                Ok(x) => {
                    let ghost tail_pre = input@;
                    let initial = vec![x];
                    proof {
                        assert(initial@ =~= seq![x]);
                    }
                    let tail = separated_tail(operand_parser, operator_parser, input, initial);
                    let result = match tail {
                        Ok((xs, fs)) => Ok(fold_right(fs, xs)),
                        Err(e) => Err(e),
                    };
                    proof {
                        let (ops, operands) = choose|ops: Seq<Run<IT, F>>, operands: Seq<Run<IT, O>>|
                            {
                                &&& forall|k: int| #![trigger ops[k]]
                                    0 <= k < ops.len() ==> exists|j: &mut Input<IT>|
                                        #[trigger] call_ensures(*operator_parser, (j,), ops[k].out) && j@
                                            == ops[k].pre && final(j)@ == ops[k].post
                                &&& forall|k: int| #![trigger operands[k]]
                                    0 <= k < operands.len() ==> exists|j: &mut Input<IT>|
                                        #[trigger] call_ensures(*operand_parser, (j,), operands[k].out) && j@
                                            == operands[k].pre && final(j)@ == operands[k].post
                                &&& tail_trace(tail_pre, ops, operands)
                                &&& input@ == tail_post(ops, operands)
                                &&& tail_collected(tail_pre, ops, operands, seq![x], tail)
                            };
                        assert((seq![x] + successes(operands)).drop_first() =~= successes(operands));
                        assert(chain_outcome(true, pre, first, ops, operands, input@, result));
                    }
                    result
                },
                Err(e) => {
                    let result = Err(e);
                    proof {
                        let ops = Seq::<Run<IT, F>>::empty();
                        let operands = Seq::<Run<IT, O>>::empty();
                        assert(chain_outcome(true, pre, first, ops, operands, input@, result));
                    }
                    result
                },
            }
        }
}

} // verus!
