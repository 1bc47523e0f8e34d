use vstd::prelude::*;
use vstd::std_specs::iter::IteratorSpec;

use crate::par_spliter::ParSpliter;

verus! {

/// `t` follows vstd's iterator laws, so that what it will still produce is
/// `t.remaining()`, and carries a termination measure that each produced item
/// lowers.
pub open spec fn well_formed<T: Iterator>(t: T) -> bool {
    &&& t.obeys_prophetic_iter_laws()
    &&& t.decrease() is Some
}

/// The termination measure of a well-formed iterator.
pub open spec fn measure<T: Iterator>(t: T) -> nat {
    t.decrease()->0
}

/// An iterator that can be split.
///
/// A successful split moves part of the work that the receiver has not
/// produced yet into the returned iterator: afterwards the receiver and the
/// new half together produce, as a multiset, exactly what the receiver alone
/// would have produced. An implementation refuses (returns `None`) when
/// fewer than two independent units of work are pending, so that neither half
/// is ever empty. The bridge relies on this without testing it: a split that
/// loses or duplicates work changes every result computed over the iterator.
pub trait Spliterator: Iterator + Sized {
    /// Split this iterator in two, if possible.
    fn split(&mut self) -> (r: Option<Self>)
        ensures
            well_formed(*old(self)) ==> well_formed(*final(self)),
            well_formed(*old(self)) ==> match r {
                None => {
                    &&& (*final(self)).remaining().to_multiset() == (*old(self)).remaining().to_multiset()
                    &&& measure(*final(self)) <= measure(*old(self))
                },
                Some(half) => {
                    &&& well_formed(half)
                    &&& (*old(self)).remaining().to_multiset() == (*final(self)).remaining().to_multiset().add(
                        half.remaining().to_multiset(),
                    )
                    &&& (*final(self)).remaining().len() > 0
                    &&& half.remaining().len() > 0
                    &&& measure(*final(self)) < measure(*old(self))
                    &&& measure(half) < measure(*old(self))
                },
            },
    ;
}

/// Converts a [`Spliterator`] into a [`ParSpliter`].
pub trait ParallelSpliterator: Sized {
    /// Parallelize this.
    fn par_split(self) -> (r: ParSpliter<Self>)
        ensures
            r.iter == self,
            r.splits >= 1,
    ;
}

impl<T> ParallelSpliterator for T where T: Spliterator + Send, T::Item: Send {
    fn par_split(self) -> (r: ParSpliter<Self>) {
        ParSpliter::new(self)
    }
}

} // verus!
