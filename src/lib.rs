//! Structural editing of syntax trees: building fragments, staging edits and
//! applying them, and recording which new nodes were built from which old ones.
pub mod tree;
pub mod editor;
pub mod mapping;
pub mod factory;
pub mod edits;
