//! The nodes a rope is built from.

use crate::shape::Shape;
use vstd::prelude::*;

verus! {

/// A node of a rope.
///
/// Each node caches a weight, counted in characters, by which a position is
/// routed through the tree without reading any text.
#[derive(Debug)]
pub enum RopeNode {
    /// A fragment of text; `weight` is its length.
    Leaf { value: String, weight: usize },
    /// Two subtrees; `weight` is the length of all the text under `left`.
    Internal { left: Box<RopeNode>, right: Box<RopeNode>, weight: usize },
}

impl RopeNode {
    /// The tree under this node, without the cached weights.
    pub open spec fn shape(self) -> Shape
        decreases self,
    {
        match self {
            RopeNode::Leaf { value, weight } => Shape::leaf(value@),
            RopeNode::Internal { left, right, weight } => Shape::concat(
                left.shape(),
                right.shape(),
            ),
        }
    }

    /// Every cached weight under this node is right: a leaf's is the length
    /// of its fragment, an internal node's the length of its whole left
    /// subtree. The length of the text under every node fits in a `usize`.
    pub open spec fn wf(self) -> bool
        decreases self,
    {
        match self {
            RopeNode::Leaf { value, weight } => weight == value@.len(),
            RopeNode::Internal { left, right, weight } => {
                &&& left.wf()
                &&& right.wf()
                &&& weight == left.shape().len()
                &&& weight + right.shape().len() <= usize::MAX
            },
        }
    }
}

impl View for RopeNode {
    type V = Seq<char>;

    /// The text under this node.
    open spec fn view(&self) -> Seq<char> {
        self.shape().text()
    }
}

impl Clone for RopeNode {
    /// A deep copy, equal to the value it was made from.
    fn clone(&self) -> (copy: Self)
        ensures
            copy == *self,
        decreases self,
    {
        match self {
            RopeNode::Leaf { value, weight } => RopeNode::Leaf {
                value: value.clone(),
                weight: *weight,
            },
            RopeNode::Internal { left, right, weight } => RopeNode::Internal {
                left: Box::new((&**left).clone()),
                right: Box::new((&**right).clone()),
                weight: *weight,
            },
        }
    }
}

} // verus!
