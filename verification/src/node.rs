//! A payload together with the place in the source where it began.

use vstd::prelude::*;
use crate::position::Position;

verus! {

/// A payload and the position of its first character.
#[derive(Clone, Debug, PartialEq, Eq)]
pub struct Node<T> {
    pub data: T,
    pub position: Position,
}

/// The mathematical model of a [`Node`]: the model of its payload, and its
/// position.
pub struct NodeView<V> {
    pub data: V,
    pub position: Position,
}

impl<T: DeepView> DeepView for Node<T> {
    type V = NodeView<T::V>;

    open spec fn deep_view(&self) -> NodeView<T::V> {
        NodeView { data: self.data.deep_view(), position: self.position }
    }
}

impl<T> Node<T> {
    /// Pairs `data` with `position`.
    pub fn new(data: T, position: Position) -> (node: Node<T>)
        ensures
            node == (Node { data, position }),
    {
        Node { data, position }
    }
}

} // verus!
