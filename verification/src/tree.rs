//! The binary search tree itself: either empty or the exclusive owner of a
//! root node, each node owning a value and two child trees. Viewed as the
//! `Set` of values it holds; every operation keeps the search-tree ordering.

use vstd::prelude::*;

use crate::order::Cmp;
use crate::order::TotalOrder;

verus! {

/// A binary search tree over a totally ordered value type: for every node,
/// all values in its left subtree are strictly below its own value, and all
/// values in its right subtree strictly above it. Holds no duplicates.
#[derive(Debug)]
pub struct Tree<T: TotalOrder>(Option<Box<Node<T>>>);

/// One node: a value and the two child subtrees it exclusively owns.
#[derive(Debug)]
struct Node<T: TotalOrder> {
    value: T,
    left: Tree<T>,
    right: Tree<T>,
}

impl<T: TotalOrder> Tree<T> {
    /// The set of values the tree holds.
    pub closed spec fn as_set(self) -> Set<T>
        decreases self,
    {
        match self.0 {
            None => Set::empty(),
            Some(n) => n.left.as_set().union(n.right.as_set()).insert(n.value),
        }
    }

    /// The search-tree ordering: at every node, the left subtree holds only
    /// strictly smaller values and the right subtree only strictly larger
    /// ones. Constructors establish it and every operation preserves it.
    pub closed spec fn ordered(self) -> bool
        decreases self,
    {
        match self.0 {
            None => true,
            Some(n) => {
                &&& (forall|x: T| #[trigger] n.left.as_set().contains(x) ==> x.le(n.value)
                    && x != n.value)
                &&& (forall|x: T| #[trigger] n.right.as_set().contains(x) ==> n.value.le(x)
                    && x != n.value)
                &&& n.left.ordered()
                &&& n.right.ordered()
            },
        }
    }
}

impl<T: TotalOrder> View for Tree<T> {
    type V = Set<T>;

    open spec fn view(&self) -> Set<T> {
        self.as_set()
    }
}

impl<T: TotalOrder> Tree<T> {
    /// Returns an empty tree.
    pub fn new() -> (t: Self)
        ensures
            t.ordered(),
            t@ == Set::<T>::empty(),
    {
        Tree(None)
    }

    /// Returns a tree holding exactly `value`.
    pub fn leaf(value: T) -> (t: Self)
        ensures
            t.ordered(),
            t@ == Set::<T>::empty().insert(value),
    {
        let t = Tree(Some(Box::new(Node { value, left: Tree::new(), right: Tree::new() })));
        proof {
            assert(t@ =~= Set::<T>::empty().insert(value));
        }
        t
    }

    /// Returns true if and only if `value` belongs to the tree.
    pub fn contains(&self, value: T) -> (present: bool)
        requires
            self.ordered(),
        ensures
            present == self@.contains(value),
        decreases self,
    {
        match &self.0 {
            None => false,
            Some(n) => match value.compare(&n.value) {
                Cmp::Eq => true,
                Cmp::Lt => {
                    proof {
                        if n.right.as_set().contains(value) {
                            TotalOrder::antisymmetric(value, n.value);
                        }
                    }
                    n.left.contains(value)
                },
                Cmp::Gt => {
                    proof {
                        if n.left.as_set().contains(value) {
                            TotalOrder::antisymmetric(n.value, value);
                        }
                    }
                    n.right.contains(value)
                },
            },
        }
    }

    /// Inserts `value` into the tree, keeping the ordering and creating no
    /// duplicate. Returns true iff the value was newly added, false iff it
    /// was already present.
    pub fn insert(&mut self, value: T) -> (added: bool)
        requires
            old(self).ordered(),
        ensures
            final(self).ordered(),
            final(self)@ == old(self)@.insert(value),
            added == !old(self)@.contains(value),
            old(self)@.contains(value) ==> *final(self) == *old(self),
        decreases *old(self),
    {
        match self.0.take() {
            None => {
                *self = Tree::leaf(value);
                proof {
                    assert(self@ =~= old(self)@.insert(value));
                }
                true
            },
            Some(mut n) => {
                let ghost root = *n;
                match value.compare(&n.value) {
                    Cmp::Lt => {
                        proof {
                            if root.right.as_set().contains(value) {
                                TotalOrder::antisymmetric(value, root.value);
                            }
                        }
                        let added = n.left.insert(value);
                        self.0 = Some(n);
                        proof {
                            assert(self@ =~= old(self)@.insert(value));
                        }
                        added
                    },
                    Cmp::Eq => {
                        self.0 = Some(n);
                        proof {
                            assert(*self == *old(self));
                            assert(old(self)@.insert(value) =~= old(self)@);
                        }
                        false
                    },
                    Cmp::Gt => {
                        proof {
                            if root.left.as_set().contains(value) {
                                TotalOrder::antisymmetric(root.value, value);
                            }
                        }
                        let added = n.right.insert(value);
                        self.0 = Some(n);
                        proof {
                            assert(self@ =~= old(self)@.insert(value));
                        }
                        added
                    },
                }
            },
        }
    }

    /// Removes the smallest value from the tree and returns it.
    /// If the tree is empty, `None` is returned and nothing changes.
    pub fn pop_min(&mut self) -> (popped: Option<T>)
        requires
            old(self).ordered(),
        ensures
            final(self).ordered(),
            (match popped {
                None => old(self)@ == Set::<T>::empty() && *final(self) == *old(self),
                Some(m) => {
                    &&& old(self)@.contains(m)
                    &&& final(self)@ == old(self)@.remove(m)
                    &&& forall|x: T| #[trigger] old(self)@.contains(x) ==> m.le(x)
                },
            }),
        decreases *old(self),
    {
        match self.0.take() {
            None => {
                proof {
                    assert(*self == *old(self));
                }
                None
            },
            Some(mut n) => {
                let ghost root = *n;
                if n.left.0.is_none() {
                    proof {
                        assert(root.left.as_set() =~= Set::<T>::empty());
                    }
                    *self = n.right;
                    let popped = Some(n.value);
                    proof {
                        assert(self@ =~= old(self)@.remove(root.value));
                        assert forall|x: T| #[trigger] old(self)@.contains(x) implies root.value.le(
                            x,
                        ) by {
                            TotalOrder::reflexive(root.value);
                        };
                    }
                    popped
                } else {
                    let popped = n.left.pop_min();
                    proof {
                        assert(root.left.as_set().contains(root.left.0->0.value));
                        assert(popped is Some);
                    }
                    self.0 = Some(n);
                    proof {
                        let m = popped->0;
                        if root.right.as_set().contains(m) {
                            TotalOrder::antisymmetric(m, root.value);
                        }
                        assert(self@ =~= old(self)@.remove(m));
                        assert forall|x: T| #[trigger] old(self)@.contains(x) implies m.le(x) by {
                            if root.right.as_set().contains(x) {
                                TotalOrder::transitive(m, root.value, x);
                            }
                        };
                    }
                    popped
                }
            },
        }
    }

    /// Deletes `value` from the tree, keeping the ordering. Returns true
    /// when a node was removed, false when the value was absent (then the
    /// tree is unchanged).
    pub fn delete(&mut self, value: T) -> (removed: bool)
        requires
            old(self).ordered(),
        ensures
            final(self).ordered(),
            final(self)@ == old(self)@.remove(value),
            removed == old(self)@.contains(value),
            !old(self)@.contains(value) ==> *final(self) == *old(self),
        decreases *old(self),
    {
        match self.0.take() {
            None => {
                proof {
                    assert(*self == *old(self));
                    assert(old(self)@.remove(value) =~= old(self)@);
                }
                false
            },
            Some(mut n) => {
                let ghost root = *n;
                match value.compare(&n.value) {
                    Cmp::Lt => {
                        proof {
                            if root.right.as_set().contains(value) {
                                TotalOrder::antisymmetric(value, root.value);
                            }
                        }
                        let removed = n.left.delete(value);
                        self.0 = Some(n);
                        proof {
                            assert(self@ =~= old(self)@.remove(value));
                        }
                        removed
                    },
                    Cmp::Gt => {
                        proof {
                            if root.left.as_set().contains(value) {
                                TotalOrder::antisymmetric(root.value, value);
                            }
                        }
                        let removed = n.right.delete(value);
                        self.0 = Some(n);
                        proof {
                            assert(self@ =~= old(self)@.remove(value));
                        }
                        removed
                    },
                    Cmp::Eq => {
                        proof {
                            assert(!root.left.as_set().contains(value));
                            assert(!root.right.as_set().contains(value));
                        }
                        if n.left.0.is_none() {
                            proof {
                                assert(root.left.as_set() =~= Set::<T>::empty());
                            }
                            *self = n.right;
                            proof {
                                assert(self@ =~= old(self)@.remove(value));
                            }
                        } else if n.right.0.is_none() {
                            proof {
                                assert(root.right.as_set() =~= Set::<T>::empty());
                            }
                            *self = n.left;
                            proof {
                                assert(self@ =~= old(self)@.remove(value));
                            }
                        } else {
                            // two children: the root's value is replaced by the
                            // in-order successor, the minimum of the right subtree
                            let got = n.right.pop_min();
                            proof {
                                assert(root.right.as_set().contains(root.right.0->0.value));
                                assert(got is Some);
                            }
                            let m = got.unwrap();
                            let ghost succ = m;
                            n.value = m;
                            self.0 = Some(n);
                            proof {
                                assert forall|x: T| #[trigger] root.left.as_set().contains(
                                    x,
                                ) implies x.le(succ) && x != succ by {
                                    TotalOrder::transitive(x, root.value, succ);
                                    if x == succ {
                                        TotalOrder::antisymmetric(root.value, x);
                                    }
                                };
                                assert(self@ =~= old(self)@.remove(value));
                            }
                        }
                        true
                    },
                }
            },
        }
    }
}

} // verus!
