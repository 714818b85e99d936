use vstd::prelude::*;

verus! {

/// A frame that keeps track of one lookahead operation: where in the lookahead buffer it
/// started, and how many tokens it has read.
#[derive(Clone, Copy)]
pub struct LookAheadFrame {
    /// Where in the lookahead buffer this frame started.
    pub start_index: usize,
    /// How many tokens this frame has read.
    pub length: usize,
}

impl LookAheadFrame {
    /// Creates a new frame starting at `start_index` in the lookahead buffer.
    pub fn new(start_index: usize) -> (f: LookAheadFrame)
        ensures
            f.start_index == start_index,
            f.length == 0,
    {
        LookAheadFrame { start_index, length: 0 }
    }

    /// Returns the number of tokens in this frame.
    pub fn length(&self) -> (r: usize)
        ensures
            r == self.length,
    {
        self.length
    }

    /// The lookahead buffer index of the token right after this frame.
    pub fn next_token_ix(&self) -> (r: usize)
        requires
            self.start_index + self.length <= usize::MAX,
        ensures
            r == self.start_index + self.length,
    {
        self.start_index + self.length
    }

    /// Counts one more token read by this frame.
    pub fn increment(&mut self)
        requires
            old(self).length < usize::MAX,
        ensures
            final(self).start_index == old(self).start_index,
            final(self).length == old(self).length + 1,
    {
        self.length = self.length + 1;
    }
}

/// The ticket of a lookahead operation, which must be handed back to stop it. Its `id` is the
/// depth of the operation among the nested ones.
pub struct LookAheadHandler {
    pub id: usize,
}

impl LookAheadHandler {
    /// Creates a handler with the given `id`.
    pub fn new(id: usize) -> (h: Self)
        ensures
            h.id == id,
    {
        Self { id }
    }

    /// Returns the identifier of this handler.
    pub fn id(&self) -> (r: usize)
        ensures
            r == self.id,
    {
        self.id
    }
}

/// Where the next input token is.
#[derive(Clone, Copy, PartialEq, Eq, Structural)]
pub enum TokenLocation {
    /// Read directly from the source.
    Stream,
    /// Looking ahead: read from the source and kept in the lookahead buffer.
    StreamLookingAhead,
    /// Taken from the front of the lookahead buffer (normal reading after a backtrack).
    BufferHead,
    /// Looking ahead: read from inside the lookahead buffer.
    BufferTail,
}

} // verus!
