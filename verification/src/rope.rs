//! The rope and its operations.

use crate::error::RopeError;
use crate::node::RopeNode;
use crate::shape::Shape;
use vstd::prelude::*;

verus! {

/// A text held as a tree of fragments.
///
/// A rope is never changed in place: every operation that edits leaves the
/// rope it was called on as it was and returns new ropes. The weights cached
/// in the tree are right in every rope, so a caller never has to ask for it.
#[derive(Debug)]
pub struct Rope {
    root: RopeNode,
}

impl View for Rope {
    type V = Seq<char>;

    /// The text of the rope.
    open spec fn view(&self) -> Seq<char> {
        self.shape().text()
    }
}

impl Clone for Rope {
    /// A deep copy, equal to the value it was made from.
    fn clone(&self) -> (copy: Self)
        ensures
            copy == *self,
    {
        proof {
            use_type_invariant(self);
        }
        Rope { root: self.root.clone() }
    }
}

impl Rope {
    #[verifier::type_invariant]
    spec fn inv(self) -> bool {
        self.root.wf()
    }

    /// The tree of the rope, without the cached weights.
    pub closed spec fn shape(self) -> Shape {
        self.root.shape()
    }

    /// The rope that holds `val` in a single leaf.
    pub fn new(val: &str) -> (rope: Rope)
        ensures
            rope.shape() == Shape::leaf(val@),
            rope@ == val@,
    {
        Rope { root: RopeNode::Leaf { value: val.to_owned(), weight: val.unicode_len() } }
    }

    /// The root node of the rope.
    pub fn root(&self) -> (node: &RopeNode)
        ensures
            node.wf(),
            node.shape() == self.shape(),
    {
        proof {
            use_type_invariant(self);
        }
        &self.root
    }

    /// The number of characters in the rope.
    pub fn total_length(&self) -> (n: usize)
        ensures
            n == self@.len(),
    {
        proof {
            use_type_invariant(self);
        }
        self.weight_recursive(&self.root)
    }

    /// The number of characters under `node`.
    ///
    /// The count is read off the right spine of the subtree: the cached
    /// weight of each node there stands for everything to its left.
    pub fn weight_recursive(&self, node: &RopeNode) -> (n: usize)
        requires
            node.wf(),
        ensures
            n == node@.len(),
        decreases node,
    {
        match node {
            RopeNode::Leaf { weight, .. } => *weight,
            RopeNode::Internal { right, weight, .. } => *weight + self.weight_recursive(right),
        }
    }

    /// Joins two ropes under a new root, `left` before `right`.
    ///
    /// Both ropes are used up. Joining with an empty rope is allowed. The two
    /// lengths together must fit in a `usize`.
    pub fn concat(left: Rope, right: Rope) -> (rope: Rope)
        requires
            left@.len() + right@.len() <= usize::MAX,
        ensures
            rope.shape() == Shape::concat(left.shape(), right.shape()),
            rope@ == left@ + right@,
    {
        proof {
            use_type_invariant(&left);
            use_type_invariant(&right);
        }
        let weight = left.total_length();
        Rope {
            root: RopeNode::Internal {
                left: Box::new(left.root),
                right: Box::new(right.root),
                weight,
            },
        }
    }

    /// The character at position `index`.
    pub fn char_at_index(&self, index: usize) -> (res: Result<char, RopeError>)
        ensures
            match res {
                Ok(c) => {
                    &&& index < self@.len()
                    &&& c == self@[index as int]
                    &&& c == self.shape().char_at(index as int)
                },
                Err(e) => index >= self@.len() && e == RopeError::IndexOutOfRange,
            },
    {
        proof {
            use_type_invariant(self);
        }
        self.find_at_index(&self.root, index)
    }

    /// The character at position `index` of the text under `rope`.
    ///
    /// The descent goes left where `index` is below the weight of a node, and
    /// right, with the weight taken off, where it is not.
    pub fn find_at_index(&self, rope: &RopeNode, index: usize) -> (res: Result<char, RopeError>)
        requires
            rope.wf(),
        ensures
            match res {
                Ok(c) => {
                    &&& index < rope@.len()
                    &&& c == rope@[index as int]
                    &&& c == rope.shape().char_at(index as int)
                },
                Err(e) => index >= rope@.len() && e == RopeError::IndexOutOfRange,
            },
        decreases rope,
    {
        proof {
            if index < rope@.len() {
                rope.shape().lemma_char_at_text(index as int);
            }
        }
        match rope {
            RopeNode::Leaf { value, weight } => {
                if index < *weight {
                    Ok(value.as_str().get_char(index))
                } else {
                    Err(RopeError::IndexOutOfRange)
                }
            },
            RopeNode::Internal { left, right, weight } => {
                if index < *weight {
                    self.find_at_index(left, index)
                } else {
                    self.find_at_index(right, index - *weight)
                }
            },
        }
    }

    /// Splits the rope before position `index`: the first rope holds the
    /// first `index` characters, the second all the others.
    ///
    /// Splitting at 0 gives an empty rope and the whole text; splitting at
    /// the length gives the whole text and an empty rope.
    pub fn split_at_index(&self, index: usize) -> (res: Result<(Rope, Rope), RopeError>)
        ensures
            match res {
                Ok((left, right)) => {
                    &&& index <= self@.len()
                    &&& (left.shape(), right.shape()) == self.shape().split(index as int)
                    &&& left@ == self@.take(index as int)
                    &&& right@ == self@.skip(index as int)
                },
                Err(e) => index > self@.len() && e == RopeError::IndexOutOfRange,
            },
    {
        proof {
            use_type_invariant(self);
        }
        if index > self.total_length() {
            return Err(RopeError::IndexOutOfRange);
        }
        let (left, right) = self.split_recursive(&self.root, index);
        proof {
            self.root.shape().lemma_split_text(index as int);
        }
        Ok((Rope { root: left }, Rope { root: right }))
    }

    /// Splits the tree under `node` before position `index`.
    ///
    /// Only the child that holds the position is split further; the other
    /// child is copied and joined back on its own side.
    fn split_recursive(&self, node: &RopeNode, index: usize) -> (res: (RopeNode, RopeNode))
        requires
            node.wf(),
            index <= node@.len(),
        ensures
            res.0.wf(),
            res.1.wf(),
            (res.0.shape(), res.1.shape()) == node.shape().split(index as int),
        decreases node,
    {
        match node {
            RopeNode::Leaf { value, weight } => {
                let head = value.as_str().substring_char(0, index).to_owned();
                let tail = value.as_str().substring_char(index, *weight).to_owned();
                (
                    RopeNode::Leaf { value: head, weight: index },
                    RopeNode::Leaf { value: tail, weight: *weight - index },
                )
            },
            RopeNode::Internal { left, right, weight } => {
                if index < *weight {
                    let (ll, lr) = self.split_recursive(left, index);
                    proof {
                        left.shape().lemma_split_concat(index as int);
                    }
                    let joined = RopeNode::Internal {
                        left: Box::new(lr),
                        right: Box::new((&**right).clone()),
                        weight: *weight - index,
                    };
                    (ll, joined)
                } else if index == *weight {
                    ((&**left).clone(), (&**right).clone())
                } else {
                    let (rl, rr) = self.split_recursive(right, index - *weight);
                    proof {
                        right.shape().lemma_split_concat(index - *weight);
                    }
                    let joined = RopeNode::Internal {
                        left: Box::new((&**left).clone()),
                        right: Box::new(rl),
                        weight: *weight,
                    };
                    (joined, rr)
                }
            },
        }
    }

    /// Inserts `val` before position `index`.
    ///
    /// The rope is split at `index` and a new leaf that holds `val` is joined
    /// between the two halves. The new length must fit in a `usize`.
    pub fn insert_at_index(&self, index: usize, val: &str) -> (res: Result<Rope, RopeError>)
        requires
            index <= self@.len() ==> self@.len() + val@.len() <= usize::MAX,
        ensures
            match res {
                Ok(rope) => {
                    &&& index <= self@.len()
                    &&& rope.shape() == self.shape().insert(index as int, val@)
                    &&& rope@ == self@.take(index as int) + val@ + self@.skip(index as int)
                },
                Err(e) => index > self@.len() && e == RopeError::IndexOutOfRange,
            },
    {
        match self.split_at_index(index) {
            Ok((left, right)) => {
                let middle = Rope::new(val);
                let front = Rope::concat(left, middle);
                Ok(Rope::concat(front, right))
            },
            Err(e) => Err(e),
        }
    }

    /// Deletes the characters from position `start` up to, not including,
    /// position `end`.
    ///
    /// The rope is split twice, once at each bound, and what lies before
    /// `start` is joined to what lies from `end` on. A bound beyond the end
    /// of the text is out of range; two bounds within the text of which the
    /// first lies after the second are an invalid range.
    pub fn delete_between_index(&self, start: usize, end: usize) -> (res: Result<Rope, RopeError>)
        ensures
            match res {
                Ok(rope) => {
                    &&& start <= end <= self@.len()
                    &&& rope.shape() == self.shape().delete(start as int, end as int)
                    &&& rope@ == self@.take(start as int) + self@.skip(end as int)
                },
                Err(e) => if start > self@.len() || end > self@.len() {
                    e == RopeError::IndexOutOfRange
                } else {
                    start > end && e == RopeError::InvalidRange
                },
            },
    {
        proof {
            use_type_invariant(self);
        }
        let len = self.total_length();
        if start > len || end > len {
            return Err(RopeError::IndexOutOfRange);
        }
        if start > end {
            return Err(RopeError::InvalidRange);
        }
        let (left, _) = self.split_recursive(&self.root, start);
        let (_, right) = self.split_recursive(&self.root, end);
        proof {
            self.root.shape().lemma_split_text(start as int);
            self.root.shape().lemma_split_text(end as int);
        }
        Ok(Rope::concat(Rope { root: left }, Rope { root: right }))
    }

    /// The text of the rope as one string: its fragments, read in order.
    pub fn to_string(&self) -> (text: String)
        ensures
            text@ == self@,
    {
        proof {
            use_type_invariant(self);
        }
        let mut text = String::new();
        Self::append_text(&self.root, &mut text);
        text
    }

    /// Appends the text under `node` to `out`.
    fn append_text(node: &RopeNode, out: &mut String)
        ensures
            final(out)@ == old(out)@ + node@,
        decreases node,
    {
        match node {
            RopeNode::Leaf { value, .. } => {
                out.append(value.as_str());
            },
            RopeNode::Internal { left, right, .. } => {
                Self::append_text(left, out);
                Self::append_text(right, out);
            },
        }
    }
}

} // verus!
