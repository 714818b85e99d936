use super::lookahead::{LookAheadFrame, LookAheadHandler, TokenLocation};
use super::position::Position;
use super::source::{InputSource, TokenInputSource};
use super::token::{CharToken, InputToken};
use crate::error::opt_text;
use std::collections::VecDeque;
use vstd::prelude::*;

verus! {

/// What an [`Input`] stands for: the whole token sequence of its source, the index of the next
/// token to read, the stack of lookahead marks (the index at which each active lookahead
/// started, innermost last), and the source name.
pub struct InputView<IT> {
    pub tokens: Seq<IT>,
    pub pos: nat,
    pub marks: Seq<nat>,
    pub source_name: Option<Seq<char>>,
}

impl<IT> InputView<IT> {
    /// Whether a token remains to be read.
    pub open spec fn has_next(self) -> bool {
        self.pos < self.tokens.len()
    }

    /// The next token to be read.
    pub open spec fn next(self) -> IT {
        self.tokens[self.pos as int]
    }

    /// The view after reading one token.
    pub open spec fn advance(self) -> Self {
        InputView { pos: self.pos + 1, ..self }
    }

    /// The view with the reading index moved to `pos`.
    pub open spec fn with_pos(self, pos: nat) -> Self {
        InputView { pos, ..self }
    }

    /// The index before which tokens are read for good: where the outermost active lookahead
    /// started, or the reading index when no lookahead is active.
    pub open spec fn committed(self) -> nat {
        if self.marks.len() == 0 {
            self.pos
        } else {
            self.marks[0]
        }
    }

    /// The view after starting a lookahead at the current index.
    pub open spec fn push_mark(self) -> Self {
        InputView { marks: self.marks.push(self.pos), ..self }
    }

    /// The view after stopping the innermost lookahead: on backtrack the reading index returns
    /// to where that lookahead started, otherwise the tokens it read stay read.
    pub open spec fn pop_mark(self, backtrack: bool) -> Self {
        InputView {
            pos: if backtrack {
                self.marks.last()
            } else {
                self.pos
            },
            marks: self.marks.drop_last(),
            ..self
        }
    }
}

impl<IT: InputToken> InputView<IT> {
    /// The position reported by the input: that of the next token, or, when the input is
    /// exhausted, that of its last token (`1:1` for an empty input).
    pub open spec fn position(self) -> Position {
        if self.pos < self.tokens.len() {
            self.tokens[self.pos as int].spec_position()
        } else {
            end_position(self.tokens)
        }
    }
}

/// The position reported once all of `tokens` has been read.
pub open spec fn end_position<IT: InputToken>(tokens: Seq<IT>) -> Position {
    if tokens.len() == 0 {
        Position { line: 1, column: 1 }
    } else {
        tokens.last().spec_position()
    }
}

/// What a parser may do to the input: read forward on the same tokens, leaving the lookahead
/// marks and the source name as it found them.
pub open spec fn parser_step<IT>(pre: InputView<IT>, post: InputView<IT>) -> bool {
    &&& post.tokens == pre.tokens
    &&& post.marks == pre.marks
    &&& post.source_name == pre.source_name
    &&& pre.pos <= post.pos <= pre.tokens.len()
}

/// An input stream that parsers fetch tokens from. Tokens come from the source one at a time;
/// while a lookahead is active, fetched tokens are kept in a buffer so that the input can
/// backtrack to them.
pub struct Input<IT> {
    /// Every token of the source, fetched or not.
    tokens: Ghost<Seq<IT>>,
    /// Where the tokens not fetched yet come from.
    source: TokenInputSource<IT>,
    /// How many tokens have been consumed for good (outside of any lookahead).
    consumed_count: usize,
    next_location: TokenLocation,
    look_ahead_frames: Vec<LookAheadFrame>,
    /// Fetched tokens that are not consumed for good yet.
    look_ahead_buffer: VecDeque<IT>,
    last_token_position: Position,
}

/// A string-based input: a stream of characters with their positions.
pub type StringInput = Input<CharToken>;

impl<IT: InputToken> Input<IT> {
    /// How many tokens have been fetched from the source: those read so far, including those
    /// read by lookaheads that later backtracked.
    pub closed spec fn fetched(&self) -> nat {
        (self.tokens@.len() - self.source.spec_remaining().len()) as nat
    }

    /// Index in the lookahead buffer of the next token, inside the innermost lookahead.
    closed spec fn top_next(&self) -> nat {
        let n = self.look_ahead_frames@.len();
        (self.look_ahead_frames@[n - 1].start_index + self.look_ahead_frames@[n - 1].length) as nat
    }

    closed spec fn spec_pos(&self) -> nat {
        if self.look_ahead_frames@.len() == 0 {
            self.consumed_count as nat
        } else {
            (self.consumed_count + self.top_next()) as nat
        }
    }

    closed spec fn source_wf(&self) -> bool {
        &&& self.tokens@.len() < usize::MAX
        &&& self.source.spec_remaining().len() <= self.tokens@.len()
        &&& forall|i: int|
            0 <= i < self.source.spec_remaining().len() ==> #[trigger] self.source.spec_remaining()[i]
                == self.tokens@[self.fetched() + i]
        &&& self.consumed_count + self.look_ahead_buffer@.len() == self.fetched()
        &&& forall|i: int|
            0 <= i < self.look_ahead_buffer@.len() ==> #[trigger] self.look_ahead_buffer@[i]
                == self.tokens@[self.consumed_count + i]
    }

    closed spec fn frames_wf(&self) -> bool {
        let frames = self.look_ahead_frames@;
        let n = frames.len();
        let blen = self.look_ahead_buffer@.len();
        if n == 0 {
            &&& (self.next_location == TokenLocation::Stream) == (blen == 0)
            &&& (self.next_location == TokenLocation::BufferHead) == (blen > 0)
        } else {
            &&& frames[0].start_index == 0
            &&& forall|k: int|
                0 <= k < n - 1 ==> #[trigger] frames[k + 1].start_index == frames[k].start_index
                    + frames[k].length
            &&& forall|k: int| 0 <= k < n ==> #[trigger] frames[k].start_index <= self.top_next()
            &&& forall|k1: int, k2: int|
                0 <= k1 <= k2 < n ==> #[trigger] frames[k1].start_index <= #[trigger] frames[k2].start_index
            &&& self.top_next() <= blen
            &&& (self.next_location == TokenLocation::StreamLookingAhead) == (self.top_next() == blen)
            &&& (self.next_location == TokenLocation::BufferTail) == (self.top_next() < blen)
        }
    }

    /// The internal consistency of the input.
    pub closed spec fn wf(&self) -> bool {
        &&& self.source_wf()
        &&& self.frames_wf()
        &&& self.spec_pos() == self.tokens@.len() ==> self.last_token_position == end_position(
            self.tokens@,
        )
    }
}

impl<IT: InputToken> View for Input<IT> {
    type V = InputView<IT>;

    closed spec fn view(&self) -> InputView<IT> {
        InputView {
            tokens: self.tokens@,
            pos: self.spec_pos(),
            marks: Seq::new(
                self.look_ahead_frames@.len(),
                |k: int| (self.consumed_count + self.look_ahead_frames@[k].start_index) as nat,
            ),
            source_name: self.source.spec_name(),
        }
    }
}


impl<IT: InputToken> Input<IT> {
    /// Creates an input that reads the given tokens, in order.
    pub fn new_from_tokens(tokens: Vec<IT>, source_name: Option<String>) -> (input: Input<IT>)
        requires
            tokens@.len() < usize::MAX,
        ensures
            input.wf(),
            input@ == (InputView {
                tokens: tokens@,
                pos: 0,
                marks: Seq::<nat>::empty(),
                source_name: opt_text(source_name),
            }),
    {
        let ghost all = tokens@;
        let source = TokenInputSource::new(tokens, source_name);
        let input = Input {
            tokens: Ghost(all),
            source,
            consumed_count: 0,
            next_location: TokenLocation::Stream,
            look_ahead_frames: Vec::new(),
            look_ahead_buffer: VecDeque::new(),
            last_token_position: Position::new(1, 1),
        };
        proof {
            assert(input@.marks =~= Seq::<nat>::empty());
            assert(input.source.spec_remaining().len() == all.len());
            assert(input.source_wf());
            assert(input.frames_wf());
        }
        input
    }

    /// Creates an input that reads the given tokens, with no source name.
    pub fn new(tokens: Vec<IT>) -> (input: Input<IT>)
        requires
            tokens@.len() < usize::MAX,
        ensures
            input.wf(),
            input@ == (InputView {
                tokens: tokens@,
                pos: 0,
                marks: Seq::<nat>::empty(),
                source_name: None,
            }),
    {
        Input::new_from_tokens(tokens, None)
    }

    /// Fetches the next token, advancing the input by one token. Returns `None`, and leaves the
    /// input unchanged, when the input is exhausted.
    pub fn next_token(&mut self) -> (r: Option<IT>)
        requires
            old(self).wf(),
        ensures
            final(self).wf(),
            old(self)@.has_next() ==> r == Some(old(self)@.next()) && final(self)@ == old(self)@.advance(),
            !old(self)@.has_next() ==> r is None && final(self)@ == old(self)@,
            final(self).fetched() == if old(self)@.has_next() && old(self)@.pos == old(self).fetched() {
                old(self).fetched() + 1
            } else {
                old(self).fetched()
            },
    {
        let ghost old_view = self@;
        match self.next_location {
            TokenLocation::Stream => {
                match self.source.next_token() {
                    None => None,
                    Some(token) => {
                        self.consumed_count = self.consumed_count + 1;
                        self.last_token_position = token.position();
                        proof {
                            assert(self@.marks =~= old_view.marks);
                        }
                        Some(token)
                    },
                }
            },
            TokenLocation::StreamLookingAhead => {
                match self.source.next_token() {
                    None => None,
                    Some(token) => {
                        self.last_token_position = token.position();
                        let cloned = token.duplicate();
                        self.look_ahead_buffer.push_back(token);
                        let n = self.look_ahead_frames.len();
                        let mut frame = self.look_ahead_frames[n - 1];
                        frame.increment();
                        self.look_ahead_frames.set(n - 1, frame);
                        proof {
                            assert(self@.marks =~= old_view.marks);
                        }
                        Some(cloned)
                    },
                }
            },
            TokenLocation::BufferHead => {
                let output = self.look_ahead_buffer.pop_front();
                self.consumed_count = self.consumed_count + 1;
                self.next_location =
                    if self.look_ahead_buffer.len() == 0 {
                        TokenLocation::Stream
                    } else {
                        TokenLocation::BufferHead
                    };
                let token = output.unwrap();
                self.last_token_position = token.position();
                proof {
                    assert(self@.marks =~= old_view.marks);
                }
                Some(token)
            },
            TokenLocation::BufferTail => {
                let n = self.look_ahead_frames.len();
                let mut frame = self.look_ahead_frames[n - 1];
                let token = self.look_ahead_buffer[frame.next_token_ix()].duplicate();
                frame.increment();
                self.look_ahead_frames.set(n - 1, frame);
                self.next_location =
                    if frame.next_token_ix() == self.look_ahead_buffer.len() {
                        TokenLocation::StreamLookingAhead
                    } else {
                        TokenLocation::BufferTail
                    };
                self.last_token_position = token.position();
                proof {
                    assert(self@.marks =~= old_view.marks);
                }
                Some(token)
            },
        }
    }

    /// Returns the next token without consuming it. Repeated calls return the same token.
    pub fn peek(&self) -> (r: Option<&IT>)
        requires
            self.wf(),
        ensures
            self@.has_next() ==> (r matches Some(t) && *t == self@.next()),
            !self@.has_next() ==> r is None,
    {
        match self.next_location {
            TokenLocation::Stream | TokenLocation::StreamLookingAhead => {
                self.source.peek()
            },
            TokenLocation::BufferHead => Some(&self.look_ahead_buffer[0]),
            TokenLocation::BufferTail => {
                let n = self.look_ahead_frames.len();
                let frame = &self.look_ahead_frames[n - 1];
                Some(&self.look_ahead_buffer[frame.next_token_ix()])
            },
        }
    }

    /// How many tokens the input has consumed, that is, the index of the next token.
    pub fn consumed_count(&self) -> (r: usize)
        requires
            self.wf(),
        ensures
            r == self@.pos,
    {
        let n = self.look_ahead_frames.len();
        if n == 0 {
            self.consumed_count
        } else {
            self.consumed_count + self.look_ahead_frames[n - 1].next_token_ix()
        }
    }

    /// The position of the next token or, when the input is exhausted, of its last token.
    pub fn position(&self) -> (p: Position)
        requires
            self.wf(),
        ensures
            p == self@.position(),
    {
        match self.peek() {
            Some(token) => token.position(),
            None => self.last_token_position,
        }
    }

    /// The name of the source, if any.
    pub fn source_name(&self) -> (r: Option<String>)
        requires
            self.wf(),
        ensures
            opt_text(r) == self@.source_name,
    {
        match self.source.source_name() {
            Some(s) => Some(s.clone()),
            None => None,
        }
    }

    /// Starts a lookahead operation: tokens read from now on can be given back by stopping it
    /// with backtracking. Operations nest; only the innermost one can be stopped. The returned
    /// handler must be handed to [`Input::stop_look_ahead`].
    pub fn start_look_ahead(&mut self) -> (h: LookAheadHandler)
        requires
            old(self).wf(),
        ensures
            final(self).wf(),
            final(self)@ == old(self)@.push_mark(),
            final(self).fetched() == old(self).fetched(),
            h.id == old(self)@.marks.len(),
    {
        let ghost old_view = self@;
        let n = self.look_ahead_frames.len();
        let new_frame = if n > 0 {
            LookAheadFrame::new(self.look_ahead_frames[n - 1].next_token_ix())
        } else {
            LookAheadFrame::new(0)
        };
        self.next_location =
            if self.look_ahead_buffer.len() == 0 || new_frame.next_token_ix()
                == self.look_ahead_buffer.len() {
                TokenLocation::StreamLookingAhead
            } else {
                TokenLocation::BufferTail
            };
        self.look_ahead_frames.push(new_frame);
        proof {
            assert(self@.marks =~= old_view.push_mark().marks);
        }
        LookAheadHandler::new(n)
    }

    /// Stops the innermost lookahead operation. With `backtrack`, the input returns to where
    /// that operation started, as if its tokens had not been read; otherwise its tokens stay
    /// read.
    pub fn stop_look_ahead(&mut self, handler: LookAheadHandler, backtrack: bool)
        requires
            old(self).wf(),
            old(self)@.marks.len() > 0,
            handler.id == old(self)@.marks.len() - 1,
        ensures
            final(self).wf(),
            final(self)@ == old(self)@.pop_mark(backtrack),
            final(self).fetched() == old(self).fetched(),
    {
        let ghost old_view = self@;
        let ghost old_frames = self.look_ahead_frames@;
        let ghost old_buffer = self.look_ahead_buffer@;
        let ghost old_consumed = self.consumed_count;
        let ghost m = old_frames.len() - 1;
        let frame = self.look_ahead_frames.pop().unwrap();
        proof {
            assert(frame == old_frames[m]);
            assert(self.look_ahead_frames@ =~= old_frames.take(m));
            if m > 0 {
                let k = m - 1;
                assert(old_frames[k + 1].start_index == old_frames[k].start_index
                    + old_frames[k].length);
            }
        }
        if !backtrack {
            let n = self.look_ahead_frames.len();
            if n > 0 {
                let mut parent = self.look_ahead_frames[n - 1];
                parent.length = parent.length + frame.length;
                self.look_ahead_frames.set(n - 1, parent);
            } else {
                self.consumed_count = self.consumed_count + frame.length;
                let rest = self.look_ahead_buffer.split_off(frame.length);
                self.look_ahead_buffer = rest;
            }
        }
        let n = self.look_ahead_frames.len();
        self.next_location =
            if n == 0 {
                if self.look_ahead_buffer.len() == 0 {
                    TokenLocation::Stream
                } else {
                    TokenLocation::BufferHead
                }
            } else {
                if self.look_ahead_frames[n - 1].next_token_ix() == self.look_ahead_buffer.len() {
                    TokenLocation::StreamLookingAhead
                } else {
                    TokenLocation::BufferTail
                }
            };
        proof {
            let frames = self.look_ahead_frames@;
            if n > 0 {
                assert forall|k: int| 0 <= k < n implies #[trigger] frames[k].start_index
                    <= self.top_next() by {
                    assert(old_frames[k].start_index <= old_frames[m].start_index);
                }
                assert forall|k: int| 0 <= k < n - 1 implies #[trigger] frames[k + 1].start_index
                    == frames[k].start_index + frames[k].length by {
                    assert(old_frames[k + 1].start_index == old_frames[k].start_index
                        + old_frames[k].length);
                }
                assert forall|k1: int, k2: int| 0 <= k1 <= k2 < n implies #[trigger] frames[k1].start_index
                    <= #[trigger] frames[k2].start_index by {
                    assert(old_frames[k1].start_index <= old_frames[k2].start_index);
                }
            }
            if !backtrack && n == 0 {
                assert forall|i: int| 0 <= i < self.look_ahead_buffer@.len() implies #[trigger] self.look_ahead_buffer@[i]
                    == self.tokens@[self.consumed_count + i] by {
                    assert(old_buffer[frame.length + i] == self.tokens@[old_consumed + frame.length + i]);
                }
            }
            assert(self@.marks =~= old_view.pop_mark(backtrack).marks);
            assert(self@.pos == old_view.pop_mark(backtrack).pos);
        }
        if let Some(token) = self.peek() {
            self.last_token_position = token.position();
        }
    }

    /// A consistent input reads within its tokens, and holds fewer than `usize::MAX` of them.
    pub proof fn lemma_view_bounds(&self)
        requires
            self.wf(),
        ensures
            self@.pos <= self@.tokens.len() < usize::MAX,
    {
    }

    /// Tokens are read for good before the reading index, and fetched at least up to it.
    pub proof fn lemma_fetched_bounds(&self)
        requires
            self.wf(),
        ensures
            self@.committed() <= self@.pos <= self.fetched() <= self@.tokens.len(),
    {
    }

    /// How many fetched tokens are kept in the lookahead buffer, for lookahead or because a
    /// lookahead gave them back: those fetched but not read for good.
    pub fn look_ahead_buffer_len(&self) -> (r: usize)
        requires
            self.wf(),
        ensures
            r == self.fetched() - self@.committed(),
    {
        self.look_ahead_buffer.len()
    }

    /// How many lookahead operations are active.
    pub fn look_ahead_depth(&self) -> (r: usize)
        ensures
            r == self@.marks.len(),
    {
        self.look_ahead_frames.len()
    }
}

/// The position that follows `p` after the character `c`: the next line, at column 1, after a
/// newline; the next column otherwise.
pub open spec fn next_position(p: Position, c: char) -> Position {
    if c == '\n' {
        Position { line: (p.line + 1) as usize, column: 1 }
    } else {
        Position { line: p.line, column: (p.column + 1) as usize }
    }
}

/// The position of the `i`-th character (from 0) of `chars`: the first one is at line 1,
/// column 1, and each following one is where the previous one leaves it (see
/// [`next_position`]).
pub open spec fn char_position(chars: Seq<char>, i: nat) -> Position
    decreases i,
{
    if i == 0 {
        Position { line: 1, column: 1 }
    } else {
        next_position(char_position(chars, (i - 1) as nat), chars[i - 1])
    }
}

impl Input<CharToken> {
    /// Creates a string input from a sequence of characters. Each character carries its line
    /// and column (see [`char_position`]): a newline starts a new line.
    pub fn new_from_chars(chars: Vec<char>, source_name: Option<String>) -> (input: StringInput)
        requires
            chars@.len() < usize::MAX,
        ensures
            input.wf(),
            input@.pos == 0,
            input@.marks.len() == 0,
            input@.source_name == opt_text(source_name),
            input@.tokens.len() == chars@.len(),
            forall|i: int|
                0 <= i < chars@.len() ==> #[trigger] input@.tokens[i] == (CharToken {
                    token: chars@[i],
                    position: char_position(chars@, i as nat),
                }),
    {
        let mut tokens: Vec<CharToken> = Vec::new();
        let mut position = Position::new(1, 1);
        let mut i: usize = 0;
        while i < chars.len()
            invariant
                i <= chars@.len() < usize::MAX,
                tokens@.len() == i,
                position == char_position(chars@, i as nat),
                1 <= position.line <= i + 1,
                1 <= position.column <= i + 1,
                forall|j: int|
                    0 <= j < i ==> #[trigger] tokens@[j] == (CharToken {
                        token: chars@[j],
                        position: char_position(chars@, j as nat),
                    }),
            decreases chars@.len() - i,
        {
            let c = chars[i];
            tokens.push(CharToken::new(c, position));
            if c == '\n' {
                position = Position::new(position.line + 1, 1);
            } else {
                position.advance_column();
            }
            i = i + 1;
        }
        Input::new_from_tokens(tokens, source_name)
    }
}

} // verus!
