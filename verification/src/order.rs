//! A total order on a value type, decided by an executable three-way
//! comparison. The tree is parametrized over this trait rather than over a
//! concrete numeric type.

use vstd::prelude::*;

verus! {

/// Outcome of a three-way comparison between two values of an ordered type.
pub enum Cmp {
    Lt,
    Eq,
    Gt,
}

/// A total order, given as a specification-level relation `le` together with
/// the laws that make it a total order and an executable comparison that
/// decides it. Equality under the order coincides with value equality.
pub trait TotalOrder: Sized {
    /// The ordering relation itself: `self` is below or equal to `other`.
    spec fn le(self, other: Self) -> bool;

    /// Every value is below or equal to itself.
    proof fn reflexive(a: Self)
        ensures
            a.le(a),
    ;

    /// A value below a second, itself below a third, is below the third.
    proof fn transitive(a: Self, b: Self, c: Self)
        requires
            a.le(b),
            b.le(c),
        ensures
            a.le(c),
    ;

    /// Two values each below the other are the same value.
    proof fn antisymmetric(a: Self, b: Self)
        requires
            a.le(b),
            b.le(a),
        ensures
            a == b,
    ;

    /// Any two values are comparable.
    proof fn total(a: Self, b: Self)
        ensures
            a.le(b) || b.le(a),
    ;

    /// Decides where `self` stands to `other` under the order.
    fn compare(&self, other: &Self) -> (c: Cmp)
        ensures
            (match c {
                Cmp::Lt => self.le(*other) && *self != *other,
                Cmp::Eq => *self == *other,
                Cmp::Gt => other.le(*self) && *self != *other,
            }),
    ;
}

impl TotalOrder for i32 {
    open spec fn le(self, other: Self) -> bool {
        self <= other
    }

    proof fn reflexive(a: Self) {
    }

    proof fn transitive(a: Self, b: Self, c: Self) {
    }

    proof fn antisymmetric(a: Self, b: Self) {
    }

    proof fn total(a: Self, b: Self) {
    }

    fn compare(&self, other: &Self) -> (c: Cmp) {
        if *self < *other {
            Cmp::Lt
        } else if *self == *other {
            Cmp::Eq
        } else {
            Cmp::Gt
        }
    }
}

impl TotalOrder for i64 {
    open spec fn le(self, other: Self) -> bool {
        self <= other
    }

    proof fn reflexive(a: Self) {
    }

    proof fn transitive(a: Self, b: Self, c: Self) {
    }

    proof fn antisymmetric(a: Self, b: Self) {
    }

    proof fn total(a: Self, b: Self) {
    }

    fn compare(&self, other: &Self) -> (c: Cmp) {
        if *self < *other {
            Cmp::Lt
        } else if *self == *other {
            Cmp::Eq
        } else {
            Cmp::Gt
        }
    }
}

} // verus!
