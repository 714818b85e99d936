use vstd::prelude::*;

verus! {

/// Gathers the matches of a repetition, and the outcome of its end parser.
pub trait RepetitionAccumulator<I, O, E>: Sized {
    /// The values added so far, in order.
    spec fn spec_added(&self) -> Seq<I>;

    /// The end value recorded, if any.
    spec fn spec_end(&self) -> Option<E>;

    /// Whether `r` is what [`RepetitionAccumulator::result`] returns for these added values and
    /// end value.
    spec fn spec_result(added: Seq<I>, end: Option<E>, r: (O, Option<E>)) -> bool;

    /// An empty accumulator.
    fn new() -> (a: Self)
        ensures
            a.spec_added() == Seq::<I>::empty(),
            a.spec_end() is None,
    ;

    /// Adds a value. No value may be added once the end is recorded.
    fn add(&mut self, value: I)
        requires
            old(self).spec_end() is None,
            old(self).spec_added().len() < usize::MAX,
        ensures
            final(self).spec_added() == old(self).spec_added().push(value),
            final(self).spec_end() is None,
    ;

    /// Records the end value.
    fn end(&mut self, value: Option<E>)
        ensures
            final(self).spec_added() == old(self).spec_added(),
            final(self).spec_end() == value,
    ;

    /// The accumulated result, and the end value.
    fn result(self) -> (r: (O, Option<E>))
        ensures
            Self::spec_result(self.spec_added(), self.spec_end(), r),
    ;
}

/// An accumulator that keeps every match.
pub struct MatchesAccumulator<T, E> {
    matches: Vec<T>,
    end: Option<E>,
}

impl<T, E> RepetitionAccumulator<T, Vec<T>, E> for MatchesAccumulator<T, E> {
    closed spec fn spec_added(&self) -> Seq<T> {
        self.matches@
    }

    closed spec fn spec_end(&self) -> Option<E> {
        self.end
    }

    open spec fn spec_result(added: Seq<T>, end: Option<E>, r: (Vec<T>, Option<E>)) -> bool {
        r.0@ == added && r.1 == end
    }

    fn new() -> (a: Self) {
        MatchesAccumulator { matches: Vec::new(), end: None }
    }

    fn add(&mut self, value: T) {
        self.matches.push(value);
    }

    fn end(&mut self, value: Option<E>) {
        self.end = value;
    }

    fn result(self) -> (r: (Vec<T>, Option<E>)) {
        (self.matches, self.end)
    }
}

/// An accumulator that only counts the matches. Its result never holds an end value.
pub struct CountAccumulator<T, E> {
    count: usize,
    added: Ghost<Seq<T>>,
    end: Option<E>,
}

impl<T, E> CountAccumulator<T, E> {
    #[verifier::type_invariant]
    spec fn counts_added(self) -> bool {
        self.count == self.added@.len()
    }
}

impl<T, E> RepetitionAccumulator<T, usize, E> for CountAccumulator<T, E> {
    closed spec fn spec_added(&self) -> Seq<T> {
        self.added@
    }

    closed spec fn spec_end(&self) -> Option<E> {
        self.end
    }

    open spec fn spec_result(added: Seq<T>, end: Option<E>, r: (usize, Option<E>)) -> bool {
        r.0 == added.len() && r.1 is None
    }

    fn new() -> (a: Self) {
        CountAccumulator { count: 0, added: Ghost(Seq::empty()), end: None }
    }

    fn add(&mut self, value: T) {
        proof {
            use_type_invariant(&*self);
        }
        *self = CountAccumulator {
            count: self.count + 1,
            added: Ghost(self.added@.push(value)),
            end: None,
        };
    }

    fn end(&mut self, value: Option<E>) {
        proof {
            use_type_invariant(&*self);
        }
        self.end = value;
    }

    fn result(self) -> (r: (usize, Option<E>)) {
        proof {
            use_type_invariant(&self);
        }
        (self.count, None)
    }
}

} // verus!
