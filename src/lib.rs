//! A red-black tree of `i64` keys whose balancing engine is proved with Verus: rotations,
//! insertion and deletion with their fix-ups, and the ordered queries.
pub mod node;
pub mod order;
pub mod insert;
pub mod delete;
pub mod tree;
pub mod laws;
