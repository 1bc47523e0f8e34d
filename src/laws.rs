use vstd::prelude::*;

verus! {

broadcast use {
    vstd::seq_lib::group_to_multiset_ensures,
    vstd::multiset::group_multiset_axioms,
    vstd::multiset::group_multiset_properties,
};

/// Consuming the two halves of a split one after the other produces, as a
/// multiset, what consuming the whole sequence produces: `whole`, `first` and
/// `second` are what the sequence, the receiver after the split and the new
/// half produce, and a split conserves their multisets.
pub proof fn lemma_halves_in_turn<A>(whole: Seq<A>, first: Seq<A>, second: Seq<A>)
    requires
        whole.to_multiset() == first.to_multiset().add(second.to_multiset()),
    ensures
        (first + second).to_multiset() == whole.to_multiset(),
        (first + second).len() == whole.len(),
{
    vstd::seq_lib::lemma_multiset_commutative(first, second);
    assert((first + second).to_multiset().len() == (first + second).len());
    assert(whole.to_multiset().len() == whole.len());
}

/// `op` is commutative and associative.
pub open spec fn commutative_associative<B>(op: spec_fn(B, B) -> B) -> bool {
    &&& forall|x: B, y: B| #[trigger] op(x, y) == op(y, x)
    &&& forall|x: B, y: B, z: B| #[trigger] op(op(x, y), z) == op(x, op(y, z))
}

/// The aggregate of the items of `s`: starting from `init`, each item is
/// mapped by `w` and combined into the result with `op`, in order.
pub open spec fn aggregate<A, B>(s: Seq<A>, init: B, w: spec_fn(A) -> B, op: spec_fn(B, B) -> B) -> B
    decreases s.len(),
{
    if s.len() == 0 {
        init
    } else {
        op(aggregate(s.drop_last(), init, w, op), w(s.last()))
    }
}

/// Under a commutative and associative `op`, the item at `i` can be
/// combined last.
pub proof fn lemma_aggregate_remove<A, B>(
    s: Seq<A>,
    i: int,
    init: B,
    w: spec_fn(A) -> B,
    op: spec_fn(B, B) -> B,
)
    requires
        0 <= i < s.len(),
        commutative_associative(op),
    ensures
        aggregate(s, init, w, op) == op(aggregate(s.remove(i), init, w, op), w(s[i])),
    decreases s.len(),
{
    if i == s.len() - 1 {
        assert(s.remove(i) =~= s.drop_last());
    } else {
        let rest = aggregate(s.drop_last().remove(i), init, w, op);
        lemma_aggregate_remove(s.drop_last(), i, init, w, op);
        assert(s.remove(i).drop_last() =~= s.drop_last().remove(i));
        assert(s.remove(i).last() == s.last());
        assert(op(op(rest, w(s[i])), w(s.last())) == op(rest, op(w(s[i]), w(s.last()))));
        assert(op(w(s[i]), w(s.last())) == op(w(s.last()), w(s[i])));
        assert(op(op(rest, w(s.last())), w(s[i])) == op(rest, op(w(s.last()), w(s[i]))));
    }
}

/// An aggregation whose combining operation is commutative and associative
/// (a sum, a count, `any`, `all`, a maximum) comes out the same for two runs
/// that produce the same items with the same multiplicities, whatever order
/// they produced them in. Runs of the bridge produce, as a multiset, what
/// the iterator alone produces, so such an aggregate does not depend on where
/// the pieces were split, on how many workers there were, or on which pieces
/// were stolen.
pub proof fn lemma_aggregate_ignores_order<A, B>(
    a: Seq<A>,
    b: Seq<A>,
    init: B,
    w: spec_fn(A) -> B,
    op: spec_fn(B, B) -> B,
)
    requires
        a.to_multiset() == b.to_multiset(),
        commutative_associative(op),
    ensures
        aggregate(a, init, w, op) == aggregate(b, init, w, op),
    decreases a.len(),
{
    if a.len() == 0 {
        assert(b.to_multiset().len() == 0);
        assert(b.len() == 0);
    } else {
        let x = a.last();
        assert(a.to_multiset().count(x) > 0);
        assert(b.contains(x));
        let j = b.index_of(x);
        lemma_aggregate_remove(b, j, init, w, op);
        assert(a.remove(a.len() - 1) =~= a.drop_last());
        assert(a.drop_last().to_multiset() == a.to_multiset().remove(x));
        assert(b.remove(j).to_multiset() == b.to_multiset().remove(x));
        lemma_aggregate_ignores_order(a.drop_last(), b.remove(j), init, w, op);
    }
}

} // verus!
