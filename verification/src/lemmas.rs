//! Laws that relate the tree operations, stated over the `Set` views that
//! the operations' contracts use.

use vstd::prelude::*;

use crate::order::TotalOrder;

verus! {

/// The set a tree views as after the values of `vs` are inserted in order
/// into an initially empty tree: by `insert`'s contract each call adds
/// exactly its value to the view.
pub open spec fn set_after_inserts<T>(vs: Seq<T>) -> Set<T>
    decreases vs.len(),
{
    if vs.len() == 0 {
        Set::empty()
    } else {
        set_after_inserts(vs.drop_last()).insert(vs.last())
    }
}

/// Insert/contains round trip: after inserting a sequence of values, in any
/// order and with or without repetitions, membership holds for exactly the
/// values inserted — `contains` answers true for each of them and false for
/// every value never inserted.
pub proof fn lemma_insert_contains_round_trip<T>(vs: Seq<T>)
    ensures
        forall|x: T| #[trigger] set_after_inserts(vs).contains(x) <==> vs.contains(x),
    decreases vs.len(),
{
    if vs.len() == 0 {
    } else {
        lemma_insert_contains_round_trip(vs.drop_last());
        assert forall|x: T| #[trigger] set_after_inserts(vs).contains(x) <==> vs.contains(x) by {
            if set_after_inserts(vs).contains(x) {
                if x == vs.last() {
                    assert(vs[vs.len() - 1] == x);
                } else {
                    assert(set_after_inserts(vs.drop_last()).contains(x));
                    assert(vs.drop_last().contains(x));
                    let i = choose|i: int|
                        0 <= i < vs.drop_last().len() && vs.drop_last()[i] == x;
                    assert(vs[i] == x);
                }
                assert(vs.contains(x));
            }
            if vs.contains(x) {
                let i = choose|i: int| 0 <= i < vs.len() && vs[i] == x;
                if i < vs.len() - 1 {
                    assert(vs.drop_last()[i] == x);
                    assert(vs.drop_last().contains(x));
                    assert(set_after_inserts(vs.drop_last()).contains(x));
                } else {
                    assert(x == vs.last());
                }
                assert(set_after_inserts(vs).contains(x));
            }
        };
    }
}

/// Successive minima come out in strictly increasing order: when `m1` is the
/// minimum that `pop_min` took from a tree holding `s`, and `m2` the one it
/// took right after, then `m1` is strictly below `m2`.
pub proof fn lemma_pop_min_increasing<T: TotalOrder>(s: Set<T>, m1: T, m2: T)
    requires
        s.contains(m1),
        forall|x: T| #[trigger] s.contains(x) ==> m1.le(x),
        s.remove(m1).contains(m2),
    ensures
        m1.le(m2),
        m1 != m2,
{
    assert(s.contains(m2));
}

/// Inserting a value twice adds it exactly once: the first insertion makes
/// the set contain the value, so by `insert`'s contract the second call
/// reports a duplicate and leaves the set unchanged, and membership holds
/// after both calls.
pub proof fn lemma_insert_twice<T>(s: Set<T>, x: T)
    ensures
        s.insert(x).contains(x),
        s.insert(x).insert(x) == s.insert(x),
{
    assert(s.insert(x).insert(x) =~= s.insert(x));
}

/// Deleting a present value removes exactly that value: afterwards it is no
/// longer a member, while every other value keeps its membership.
pub proof fn lemma_delete_removes_exactly_one<T>(s: Set<T>, x: T)
    ensures
        !s.remove(x).contains(x),
        forall|y: T| y != x ==> #[trigger] s.remove(x).contains(y) == s.contains(y),
{
}

/// Deleting an absent value changes nothing.
pub proof fn lemma_delete_absent_no_op<T>(s: Set<T>, x: T)
    requires
        !s.contains(x),
    ensures
        s.remove(x) == s,
{
    assert(s.remove(x) =~= s);
}

} // verus!
