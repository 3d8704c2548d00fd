//! The mathematical model of a rope: a binary tree with text at its leaves.
//!
//! A [`Shape`] is what a rope is once the cached weights are forgotten: they
//! are determined by the tree. The operations of the rope are defined here on
//! shapes, and proved to act on the text as splicing acts on a sequence.

use vstd::prelude::*;

verus! {

/// A binary tree with a fragment of text at each leaf.
pub enum Shape {
    /// A single fragment.
    Leaf { text: Seq<char> },
    /// Two subtrees, read left to right.
    Internal { left: Box<Shape>, right: Box<Shape> },
}

impl Shape {
    /// The tree made of the one fragment `text`.
    pub open spec fn leaf(text: Seq<char>) -> Shape {
        Shape::Leaf { text }
    }

    /// The tree whose root joins `left` and `right`.
    pub open spec fn concat(left: Shape, right: Shape) -> Shape {
        Shape::Internal { left: Box::new(left), right: Box::new(right) }
    }

    /// The text of the tree: its fragments, read in order.
    pub open spec fn text(self) -> Seq<char>
        decreases self,
    {
        match self {
            Shape::Leaf { text } => text,
            Shape::Internal { left, right } => left.text() + right.text(),
        }
    }

    /// The number of characters in the tree.
    pub open spec fn len(self) -> nat {
        self.text().len()
    }

    /// The character that a descent to position `index` arrives at: left
    /// where the position is below the length of the left subtree, right,
    /// with that length taken off, where it is not.
    pub open spec fn char_at(self, index: int) -> char
        decreases self,
    {
        match self {
            Shape::Leaf { text } => text[index],
            Shape::Internal { left, right } => {
                if index < left.len() {
                    left.char_at(index)
                } else {
                    right.char_at(index - left.len())
                }
            },
        }
    }

    /// The two trees that splitting before position `index` gives.
    ///
    /// A leaf is cut in two. Below an internal node only the child that holds
    /// the position is split; the other child is joined back on its own side,
    /// so that no text is lost. A position exactly between the two children
    /// separates them without cutting anything.
    pub open spec fn split(self, index: int) -> (Shape, Shape)
        decreases self,
    {
        match self {
            Shape::Leaf { text } => (Shape::leaf(text.take(index)), Shape::leaf(text.skip(index))),
            Shape::Internal { left, right } => {
                if index < left.len() {
                    let (ll, lr) = left.split(index);
                    (ll, Shape::concat(lr, *right))
                } else if index == left.len() {
                    (*left, *right)
                } else {
                    let (rl, rr) = right.split(index - left.len());
                    (Shape::concat(*left, rl), rr)
                }
            },
        }
    }

    /// The tree that inserting `text` before position `index` gives: the two
    /// halves of the split at `index`, with a new leaf between them.
    pub open spec fn insert(self, index: int, text: Seq<char>) -> Shape {
        let (l, r) = self.split(index);
        Shape::concat(Shape::concat(l, Shape::leaf(text)), r)
    }

    /// The tree that deleting the positions from `start` up to, not
    /// including, `end` gives: what lies before `start` joined to what lies
    /// from `end` on, each taken from a split of the whole tree.
    pub open spec fn delete(self, start: int, end: int) -> Shape {
        Shape::concat(self.split(start).0, self.split(end).1)
    }

    /// A tree of one fragment reads back as that fragment.
    pub proof fn lemma_leaf_text(text: Seq<char>)
        ensures
            Shape::leaf(text).text() == text,
            Shape::leaf(text).len() == text.len(),
    {
    }

    /// Joining two trees joins their texts, left before right.
    pub proof fn lemma_concat_text(left: Shape, right: Shape)
        ensures
            Shape::concat(left, right).text() == left.text() + right.text(),
            Shape::concat(left, right).len() == left.len() + right.len(),
    {
    }

    /// Joining the trees of two fragments gives the first fragment followed
    /// by the second.
    pub proof fn lemma_concat_leaves_text(a: Seq<char>, b: Seq<char>)
        ensures
            Shape::concat(Shape::leaf(a), Shape::leaf(b)).text() == a + b,
    {
        Shape::lemma_concat_text(Shape::leaf(a), Shape::leaf(b));
    }

    /// The descent to a position within bounds arrives at the character that
    /// the text has at that position.
    pub proof fn lemma_char_at_text(self, index: int)
        requires
            0 <= index < self.len(),
        ensures
            self.char_at(index) == self.text()[index],
        decreases self,
    {
        match self {
            Shape::Leaf { text } => {},
            Shape::Internal { left, right } => {
                if index < left.len() {
                    left.lemma_char_at_text(index);
                } else {
                    right.lemma_char_at_text(index - left.len());
                }
            },
        }
    }

    /// Splitting within bounds cuts the text at `index`: the left tree holds
    /// the first `index` characters and the right tree all the others.
    pub proof fn lemma_split_text(self, index: int)
        requires
            0 <= index <= self.len(),
        ensures
            self.split(index).0.text() == self.text().take(index),
            self.split(index).1.text() == self.text().skip(index),
        decreases self,
    {
        match self {
            Shape::Leaf { text } => {},
            Shape::Internal { left, right } => {
                let whole = self.text();
                if index < left.len() {
                    left.lemma_split_text(index);
                    assert(whole.take(index) =~= left.text().take(index));
                    assert(whole.skip(index) =~= left.text().skip(index) + right.text());
                } else if index == left.len() {
                    assert(whole.take(index) =~= left.text());
                    assert(whole.skip(index) =~= right.text());
                } else {
                    let rest = index - left.len();
                    right.lemma_split_text(rest);
                    assert(whole.take(index) =~= left.text() + right.text().take(rest));
                    assert(whole.skip(index) =~= right.text().skip(rest));
                }
            },
        }
    }

    /// Splitting within bounds and joining the two halves again gives back
    /// the text; the left half has `index` characters, the right half all
    /// the others.
    pub proof fn lemma_split_concat(self, index: int)
        requires
            0 <= index <= self.len(),
        ensures
            Shape::concat(self.split(index).0, self.split(index).1).text() == self.text(),
            self.split(index).0.len() == index,
            self.split(index).1.len() == self.len() - index,
    {
        self.lemma_split_text(index);
        assert(self.text().take(index) + self.text().skip(index) =~= self.text());
    }

    /// Inserting within bounds splices `text` into the text at `index`, and
    /// makes it longer by the length of `text`.
    pub proof fn lemma_insert_text(self, index: int, text: Seq<char>)
        requires
            0 <= index <= self.len(),
        ensures
            self.insert(index, text).text() == self.text().take(index) + text + self.text().skip(
                index,
            ),
            self.insert(index, text).len() == self.len() + text.len(),
    {
        let (l, r) = self.split(index);
        self.lemma_split_text(index);
        Shape::lemma_concat_text(l, Shape::leaf(text));
        Shape::lemma_concat_text(Shape::concat(l, Shape::leaf(text)), r);
    }

    /// Inserting an empty text changes no character.
    pub proof fn lemma_insert_empty_text(self, index: int)
        requires
            0 <= index <= self.len(),
        ensures
            self.insert(index, Seq::empty()).text() == self.text(),
    {
        self.lemma_insert_text(index, Seq::empty());
        assert(self.text().take(index) + Seq::<char>::empty() + self.text().skip(index)
            =~= self.text());
    }

    /// Deleting a range within bounds removes exactly the characters of that
    /// range from the text.
    pub proof fn lemma_delete_text(self, start: int, end: int)
        requires
            0 <= start <= end <= self.len(),
        ensures
            self.delete(start, end).text() == self.text().take(start) + self.text().skip(end),
            self.delete(start, end).len() == self.len() - (end - start),
    {
        self.lemma_split_text(start);
        self.lemma_split_text(end);
    }

    /// Deleting an empty range changes no character.
    pub proof fn lemma_delete_empty_range(self, index: int)
        requires
            0 <= index <= self.len(),
        ensures
            self.delete(index, index).text() == self.text(),
    {
        self.lemma_split_text(index);
        assert(self.text().take(index) + self.text().skip(index) =~= self.text());
    }
}

} // verus!
