//! A rope: text kept as a binary tree of fragments, which is indexed, split,
//! joined and edited by walking the tree.
//!
//! Positions and lengths count characters (Unicode scalar values), never
//! bytes, in every operation.
//!
//! Every operation is verified against a mathematical model: the text of a
//! rope is a `Seq<char>`, and its tree is a [`shape::Shape`].

pub mod error;
pub mod node;
pub mod rope;
pub mod shape;

pub use error::RopeError;
pub use node::RopeNode;
pub use rope::Rope;
pub use shape::Shape;
