# yapcol

A parser combinator library whose combinators are verified with Verus.

A parser is any closure `Fn(&mut Input<IT>) -> Result<O, Error>`. The input holds a sequence
of tokens (characters with their positions for string input) and supports nested lookahead
with backtracking. Every combinator states, in its contract, what the parser it builds
returns and how it moves the input, in terms of the runs of its argument parsers.

Layout of `src/`:

- `input/`: the input stream (`Input`, its model `InputView`), token sources, positions and
  lookahead bookkeeping.
- `error.rs`: `Error`, `Mismatch` and their texts.
- `parser.rs`: the `Parser` trait and the combinators that take parsers by value (`map`,
  `and_then`, `and`, `exhaustive`, `discard`, `with_expectation`).
- `combinators/`: the combinators; `repetition/` holds the shared repetition loop and the
  counting and collecting repetitions built on it.
- `laws.rs`: properties that span several functions, proved over the models.
