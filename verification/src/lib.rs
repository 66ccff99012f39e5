//! An in-memory, unbalanced binary search tree that holds a set of distinct
//! values of a totally ordered type, with verified insertion, membership
//! lookup, deletion and minimum extraction.

pub mod lemmas;
pub mod order;
pub mod tree;

pub use order::Cmp;
pub use order::TotalOrder;
pub use tree::Tree;
