//! One link of a doubly-linked chain.

use vstd::prelude::*;

verus! {

/// An element together with the slots of its neighbours in the arena of the list
/// that owns it. A slot is a stable handle: it names the same node for as long as
/// the node stays in the list.
pub struct Node<T> {
    pub item: T,
    pub next: Option<usize>,
    pub prev: Option<usize>,
}

impl<T> Node<T> {
    /// A node that holds `item` and has no neighbours yet.
    pub fn new(item: T) -> (node: Self)
        ensures
            node == (Node { item, next: None, prev: None }),
    {
        Self { item, next: None, prev: None }
    }
}

} // verus!
