use crate::error::opt_text;
use vstd::prelude::*;

verus! {

/// Where the tokens of an [`Input`](crate::Input) come from: a named sequence of tokens that
/// are handed out one at a time.
pub trait InputSource: Sized {
    /// The type of the tokens handed out.
    type Token;

    /// The name of the source, if any.
    spec fn spec_name(&self) -> Option<Seq<char>>;

    /// The tokens not handed out yet, the next one first.
    spec fn spec_remaining(&self) -> Seq<Self::Token>;

    /// Returns the name of the source, if any.
    fn source_name(&self) -> (r: Option<&String>)
        ensures
            match r {
                Some(name) => self.spec_name() == Some(name@),
                None => self.spec_name() is None,
            },
    ;

    /// Hands out the next token, or `None` when there is none left.
    fn next_token(&mut self) -> (r: Option<Self::Token>)
        ensures
            final(self).spec_name() == old(self).spec_name(),
            old(self).spec_remaining().len() == 0 ==> r is None && final(self).spec_remaining()
                == old(self).spec_remaining(),
            old(self).spec_remaining().len() > 0 ==> r == Some(old(self).spec_remaining()[0])
                && final(self).spec_remaining() == old(self).spec_remaining().drop_first(),
    ;

    /// Returns the next token without handing it out.
    fn peek(&self) -> (r: Option<&Self::Token>)
        ensures
            self.spec_remaining().len() == 0 ==> r is None,
            self.spec_remaining().len() > 0 ==> (r matches Some(t) && *t == self.spec_remaining()[0]),
    ;
}

/// A source that hands out the tokens of a vector, in order.
pub struct TokenInputSource<IT> {
    source_name: Option<String>,
    /// The tokens not handed out yet; the next one is the last element.
    stream: Vec<IT>,
}

impl<IT> TokenInputSource<IT> {
    /// Creates a source that hands out `source` in order, under the name `source_name`.
    pub fn new(source: Vec<IT>, source_name: Option<String>) -> (s: Self)
        ensures
            s.spec_remaining() == source@,
            s.spec_name() == opt_text(source_name),
    {
        let ghost all = source@;
        let mut rest = source;
        let mut stream: Vec<IT> = Vec::new();
        while rest.len() > 0
            invariant
                rest@ == all.take(rest@.len() as int),
                rest@.len() + stream@.len() == all.len(),
                forall|i: int| 0 <= i < stream@.len() ==> #[trigger] stream@[i] == all[all.len() - 1 - i],
            decreases rest@.len(),
        {
            let t = rest.pop().unwrap();
            stream.push(t);
            proof {
                assert(rest@ =~= all.take(rest@.len() as int));
            }
        }
        let s = TokenInputSource { source_name, stream };
        proof {
            assert(s.spec_remaining() =~= all);
        }
        s
    }
}

impl<IT> InputSource for TokenInputSource<IT> {
    type Token = IT;

    closed spec fn spec_name(&self) -> Option<Seq<char>> {
        opt_text(self.source_name)
    }

    closed spec fn spec_remaining(&self) -> Seq<IT> {
        Seq::new(self.stream@.len(), |i: int| self.stream@[self.stream@.len() - 1 - i])
    }

    fn source_name(&self) -> (r: Option<&String>) {
        match &self.source_name {
            Some(name) => Some(name),
            None => None,
        }
    }

    fn next_token(&mut self) -> (r: Option<IT>) {
        let ghost before = self.spec_remaining();
        let r = self.stream.pop();
        proof {
            if before.len() > 0 {
                assert(self.spec_remaining() =~= before.drop_first());
            }
        }
        r
    }

    fn peek(&self) -> (r: Option<&IT>) {
        let n = self.stream.len();
        if n > 0 {
            Some(&self.stream[n - 1])
        } else {
            None
        }
    }
}

} // verus!
