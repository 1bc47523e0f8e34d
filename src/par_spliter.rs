use vstd::prelude::*;
use vstd::multiset::Multiset;
use vstd::std_specs::iter::IteratorSpec;

use crate::pool::{current_num_threads, join_context};
use crate::spliterator::{measure, well_formed, Spliterator};

verus! {

broadcast use {
    vstd::seq_lib::group_to_multiset_ensures,
    vstd::multiset::group_multiset_axioms,
    vstd::multiset::group_multiset_properties,
};

/// An adapter that consumes a [`Spliterator`] in parallel pieces.
///
/// Besides the iterator it carries a split budget: how many more splits are
/// worth attempting before the piece is consumed directly.
#[derive(Clone, Copy, Debug)]
pub struct ParSpliter<T> {
    /// The underlying Spliterator.
    pub iter: T,
    /// The number of pieces we'd like to split into.
    pub splits: usize,
}

/// What a piece of work does next, as decided by [`ParSpliter::step`].
pub enum Step<T: Iterator> {
    /// Nothing more is to be done here: the accumulator is full or the
    /// iterator is exhausted.
    Stop,
    /// Feed this item to the accumulator, then step again.
    Item(T::Item),
    /// The piece was split: run the receiver and this new piece as two
    /// concurrent tasks, and combine their results after what was consumed
    /// so far.
    Fork(ParSpliter<T>),
}

/// A nonempty sequence holds, as a multiset, its first element and the rest.
proof fn lemma_to_multiset_drop_first<A>(s: Seq<A>)
    requires
        s.len() > 0,
    ensures
        s.to_multiset() == s.drop_first().to_multiset().insert(s[0]),
{
    assert(s.drop_first() == s.remove(0));
    assert(s.remove(0).to_multiset() == s.to_multiset().remove(s[0]));
    assert(s.to_multiset().contains(s[0]));
}

impl<T: Spliterator> ParSpliter<T> {
    /// Wraps `iter` with a split budget of the current pool's size, which is
    /// never zero.
    pub fn new(iter: T) -> (r: Self)
        ensures
            r.iter == iter,
            r.splits >= 1,
    {
        ParSpliter { iter, splits: current_num_threads() }
    }

    /// Wraps `iter` with a split budget of `workers`.
    pub fn with_workers(iter: T, workers: usize) -> (r: Self)
        ensures
            r.iter == iter,
            r.splits == workers,
    {
        ParSpliter { iter, splits: workers }
    }

    /// Splits off a second piece while the budget lasts. A successful split
    /// halves the budget, and the new piece gets the same halved budget.
    pub fn split(&mut self) -> (r: Option<Self>)
        ensures
            old(self).splits == 0 ==> r is None && *final(self) == *old(self),
            r is None ==> final(self).splits == old(self).splits,
            r matches Some(other) ==> {
                &&& old(self).splits > 0
                &&& final(self).splits == old(self).splits / 2
                &&& other.splits == old(self).splits / 2
            },
            well_formed(old(self).iter) ==> well_formed(final(self).iter),
            well_formed(old(self).iter) ==> match r {
                None => {
                    &&& final(self).iter.remaining().to_multiset() == old(self).iter.remaining().to_multiset()
                    &&& measure(final(self).iter) <= measure(old(self).iter)
                },
                Some(other) => {
                    &&& well_formed(other.iter)
                    &&& old(self).iter.remaining().to_multiset() == final(self).iter.remaining().to_multiset().add(
                        other.iter.remaining().to_multiset(),
                    )
                    &&& measure(final(self).iter) < measure(old(self).iter)
                    &&& measure(other.iter) < measure(old(self).iter)
                },
            },
    {
        if self.splits == 0 {
            return None;
        }
        match self.iter.split() {
            Some(split) => {
                self.splits = self.splits / 2;
                Some(ParSpliter { iter: split, splits: self.splits })
            },
            None => None,
        }
    }

    /// Thief-splitting: a piece that was moved to another worker takes
    /// `workers` as its new budget, since its move shows that workers are
    /// idle. A piece that was not moved keeps its budget.
    pub fn restart(&mut self, stolen: bool, workers: usize)
        ensures
            final(self).iter == old(self).iter,
            final(self).splits == (if stolen { workers } else { old(self).splits }),
    {
        if stolen {
            self.splits = workers;
        }
    }

    /// [`ParSpliter::restart`] with the size of the current pool: a stolen
    /// piece gets a fresh budget, never zero, whatever it had before.
    pub fn resume(&mut self, stolen: bool)
        ensures
            final(self).iter == old(self).iter,
            !stolen ==> final(self).splits == old(self).splits,
            stolen ==> final(self).splits >= 1,
    {
        if stolen {
            let workers = current_num_threads();
            self.restart(true, workers);
        }
    }

    /// Decides the next move of a piece whose accumulator reports `full`.
    ///
    /// A full accumulator stops the piece at once, before any split or pull.
    /// Otherwise a split is attempted while the budget lasts; where none is
    /// made, one item is pulled from the iterator, and an exhausted iterator
    /// stops the piece.
    pub fn step(&mut self, full: bool) -> (r: Step<T>)
        ensures
            full ==> r is Stop && *final(self) == *old(self),
            r matches Step::Fork(other) ==> {
                &&& !full
                &&& old(self).splits > 0
                &&& final(self).splits == old(self).splits / 2
                &&& other.splits == old(self).splits / 2
            },
            !(r is Fork) ==> final(self).splits == old(self).splits,
            old(self).splits == 0 ==> !(r is Fork),
            well_formed(old(self).iter) ==> well_formed(final(self).iter),
            well_formed(old(self).iter) && !full && old(self).splits == 0 ==> {
                if old(self).iter.remaining().len() > 0 {
                    &&& r == Step::<T>::Item(old(self).iter.remaining()[0])
                    &&& final(self).iter.remaining() == old(self).iter.remaining().drop_first()
                } else {
                    r is Stop
                }
            },
            well_formed(old(self).iter) && !full ==> match r {
                Step::Stop => {
                    &&& old(self).iter.remaining().len() == 0
                    &&& final(self).iter.remaining().len() == 0
                },
                Step::Item(item) => {
                    &&& old(self).iter.remaining().to_multiset() == final(self).iter.remaining().to_multiset().insert(item)
                    &&& measure(final(self).iter) < measure(old(self).iter)
                },
                Step::Fork(other) => {
                    &&& well_formed(other.iter)
                    &&& old(self).iter.remaining().to_multiset() == final(self).iter.remaining().to_multiset().add(
                        other.iter.remaining().to_multiset(),
                    )
                    &&& measure(final(self).iter) < measure(old(self).iter)
                    &&& measure(other.iter) < measure(old(self).iter)
                },
            },
    {
        if full {
            return Step::Stop;
        }
        if let Some(other) = self.split() {
            return Step::Fork(other);
        }
        proof {
            assert forall|s: Seq<T::Item>| s.len() > 0 implies s.to_multiset() == #[trigger] s.drop_first().to_multiset().insert(s[0]) by {
                lemma_to_multiset_drop_first(s);
            }
            assert forall|s: Seq<T::Item>| (#[trigger] s.to_multiset()).len() == s.len() by {}
        }
        let next = self.iter.next();
        match next {
            Some(item) => Step::Item(item),
            None => Step::Stop,
        }
    }

    /// Runs the bridge over this piece on the calling thread, appending every
    /// item that it produces to `out`. Each fork runs both halves in turn: the
    /// receiver first, reported as not moved, then the new piece, reported as
    /// moved when `steal` holds. A moved piece takes `workers` as its budget.
    ///
    /// Whatever the budget, the worker count and the forks, `out` gains
    /// exactly the items that the iterator would have produced on its own,
    /// counted with multiplicity, and the run ends even where the iterator
    /// discovers new work as it goes.
    pub fn run_inline(self, stolen: bool, workers: usize, steal: bool, out: &mut Vec<T::Item>)
        requires
            well_formed(self.iter),
        ensures
            final(out)@.to_multiset() == old(out)@.to_multiset().add(self.iter.remaining().to_multiset()),
            final(out)@.len() == old(out)@.len() + self.iter.remaining().len(),
        decreases measure(self.iter),
    {
        let mut piece = self;
        piece.restart(stolen, workers);
        loop
            invariant
                well_formed(piece.iter),
                measure(piece.iter) <= measure(self.iter),
                out@.to_multiset().add(piece.iter.remaining().to_multiset()) == old(out)@.to_multiset().add(
                    self.iter.remaining().to_multiset(),
                ),
            decreases measure(piece.iter),
        {
            let ghost before = out@;
            match piece.step(false) {
                Step::Stop => {
                    assert(piece.iter.remaining() =~= Seq::<T::Item>::empty());
                    assert(out@.to_multiset().add(piece.iter.remaining().to_multiset()) =~= out@.to_multiset());
                    assert(self.iter.remaining().to_multiset().len() == self.iter.remaining().len());
                    assert(old(out)@.to_multiset().add(self.iter.remaining().to_multiset()).len() == old(out)@.len()
                        + self.iter.remaining().len());
                    return ;
                },
                Step::Item(item) => {
                    out.push(item);
                    assert(out@ == before.push(item));
                    assert(out@.to_multiset().add(piece.iter.remaining().to_multiset()) =~= before.to_multiset().add(
                        piece.iter.remaining().to_multiset().insert(item)));
                },
                Step::Fork(other) => {
                    piece.run_inline(false, workers, steal, out);
                    other.run_inline(steal, workers, steal, out);
                    assert(self.iter.remaining().to_multiset().len() == self.iter.remaining().len());
                    assert(old(out)@.to_multiset().add(self.iter.remaining().to_multiset()).len() == old(out)@.len()
                        + self.iter.remaining().len());
                    return ;
                },
            }
        }
    }

    /// Searches this piece on the calling thread for an item that `f`
    /// accepts, forking as [`ParSpliter::run_inline`] does. A found item fills
    /// the accumulator: the piece stops before any further split or pull, and
    /// the pieces not started yet are skipped.
    ///
    /// The answer is the one that a search of the iterator on its own gives:
    /// `true` only for an item that the iterator would produce and that `f`
    /// accepted, `false` only after `f` refused every such item.
    pub fn any_inline<F: Fn(&T::Item) -> bool>(
        self,
        stolen: bool,
        workers: usize,
        steal: bool,
        f: &F,
    ) -> (r: bool)
        requires
            well_formed(self.iter),
            forall|x: &T::Item| #[trigger] f.requires((x,)),
        ensures
            r ==> exists|x: T::Item| #[trigger] self.iter.remaining().contains(x) && f.ensures((&x,), true),
            !r ==> forall|x: T::Item| #[trigger] self.iter.remaining().contains(x) ==> f.ensures((&x,), false),
        decreases measure(self.iter),
    {
        let mut piece = self;
        piece.restart(stolen, workers);
        let mut found = false;
        let ghost mut seen: Multiset<T::Item> = Multiset::empty();
        loop
            invariant
                forall|x: &T::Item| #[trigger] f.requires((x,)),
                well_formed(piece.iter),
                measure(piece.iter) <= measure(self.iter),
                !found ==> self.iter.remaining().to_multiset() == seen.add(piece.iter.remaining().to_multiset()),
                forall|x: T::Item| #[trigger] seen.count(x) > 0 ==> f.ensures((&x,), false),
                found ==> exists|x: T::Item| #[trigger] self.iter.remaining().contains(x) && f.ensures((&x,), true),
            decreases measure(piece.iter),
        {
            match piece.step(found) {
                Step::Stop => {
                    proof {
                        if !found {
                            assert(piece.iter.remaining().to_multiset() =~= Multiset::empty());
                            assert forall|x: T::Item| #[trigger] self.iter.remaining().contains(x) implies f.ensures((&x,), false) by {
                                assert(self.iter.remaining().to_multiset().count(x) > 0);
                            }
                        }
                    }
                    return found;
                },
                Step::Item(item) => {
                    found = f(&item);
                    proof {
                        if !found {
                            seen = seen.insert(item);
                        } else {
                            assert(self.iter.remaining().to_multiset().count(item) > 0);
                            assert(self.iter.remaining().contains(item));
                        }
                    }
                },
                Step::Fork(other) => {
                    let ghost left = piece.iter;
                    let ghost right = other.iter;
                    assert forall|x: T::Item| #[trigger] left.remaining().contains(x) implies self.iter.remaining().contains(x) by {
                        assert(left.remaining().to_multiset().count(x) > 0);
                        assert(self.iter.remaining().to_multiset().count(x) > 0);
                    }
                    assert forall|x: T::Item| #[trigger] right.remaining().contains(x) implies self.iter.remaining().contains(x) by {
                        assert(right.remaining().to_multiset().count(x) > 0);
                        assert(self.iter.remaining().to_multiset().count(x) > 0);
                    }
                    if piece.any_inline(false, workers, steal, f) {
                        return true;
                    }
                    let r = other.any_inline(steal, workers, steal, f);
                    assert(!r ==> forall|x: T::Item| #[trigger] self.iter.remaining().contains(x) ==> f.ensures((&x,), false)) by {
                        if !r {
                            assert forall|x: T::Item| #[trigger] self.iter.remaining().contains(x) implies f.ensures((&x,), false) by {
                                assert(self.iter.remaining().to_multiset().count(x) > 0);
                                if seen.count(x) == 0 {
                                    if left.remaining().to_multiset().count(x) > 0 {
                                        assert(left.remaining().contains(x));
                                    } else {
                                        assert(right.remaining().to_multiset().count(x) > 0);
                                        assert(right.remaining().contains(x));
                                    }
                                }
                            }
                        }
                    }
                    return r;
                },
            }
        }
    }

    /// Runs the bridge over this piece on rayon's pool and collects the
    /// items. Each fork hands the two pieces to `rayon::join_context`; a
    /// piece that runs on another thread than the one that forked it takes
    /// the pool's size as its new budget.
    ///
    /// The result holds exactly the items that the iterator would have
    /// produced on its own, counted with multiplicity, whatever the budget,
    /// the pool's size and the moves that rayon reports; the run ends even
    /// where the iterator discovers new work as it goes.
    pub fn collect_par(self, stolen: bool) -> (r: Vec<T::Item>) where T: Send, T::Item: Send
        requires
            well_formed(self.iter),
        ensures
            r@.to_multiset() == self.iter.remaining().to_multiset(),
            r@.len() == self.iter.remaining().len(),
        decreases measure(self.iter),
    {
        let mut piece = self;
        piece.resume(stolen);
        let mut out: Vec<T::Item> = Vec::new();
        loop
            invariant
                well_formed(piece.iter),
                measure(piece.iter) <= measure(self.iter),
                out@.to_multiset().add(piece.iter.remaining().to_multiset())
                    == self.iter.remaining().to_multiset(),
            decreases measure(piece.iter),
        {
            let ghost before = out@;
            match piece.step(false) {
                Step::Stop => {
                    assert(piece.iter.remaining() =~= Seq::<T::Item>::empty());
                    assert(out@.to_multiset().add(piece.iter.remaining().to_multiset()) =~= out@.to_multiset());
                    assert(self.iter.remaining().to_multiset().len() == self.iter.remaining().len());
                    return out;
                },
                Step::Item(item) => {
                    out.push(item);
                    assert(out@ == before.push(item));
                },
                Step::Fork(other) => {
                    let left_task = move |moved: bool| -> (v: Vec<T::Item>)
                        requires
                            well_formed(piece.iter),
                            measure(piece.iter) < measure(self.iter),
                        ensures
                            v@.to_multiset() == piece.iter.remaining().to_multiset(),
                    {
                        piece.collect_par(moved)
                    };
                    let right_task = move |moved: bool| -> (v: Vec<T::Item>)
                        requires
                            well_formed(other.iter),
                            measure(other.iter) < measure(self.iter),
                        ensures
                            v@.to_multiset() == other.iter.remaining().to_multiset(),
                    {
                        other.collect_par(moved)
                    };
                    let (mut left, mut right) = join_context(left_task, right_task);
                    let ghost (head, l, r) = (out@, left@, right@);
                    out.append(&mut left);
                    out.append(&mut right);
                    proof {
                        vstd::seq_lib::lemma_multiset_commutative(head, l);
                        vstd::seq_lib::lemma_multiset_commutative(head + l, r);
                        assert(out@ == head + l + r);
                            assert(self.iter.remaining().to_multiset().len() == self.iter.remaining().len());
                    }
                    return out;
                },
            }
        }
    }
}

} // verus!
