//! A collaborative rich-text editing engine built on an operation-based CRDT.
//!
//! Each client holds a replica of a shared document made of paragraphs that
//! contain text fragments.  Clients mint operations describing local edits,
//! exchange them in any order, and fold the totally ordered operation log into
//! a concrete document tree whose convergence follows from the total order on
//! operation identifiers, the determinism of the fold, and anchor-based
//! positioning that survives concurrent splits and erasures.
#![verifier::loop_isolation(false)]

pub mod anchor;
pub mod client;
pub mod contiguity;
pub mod doc;
pub mod fold;
pub mod format;
pub mod iter;
pub mod ids;
pub mod laws;
pub mod node;
pub mod ops;
pub mod paragraph;
pub mod printer;
pub mod render;
pub mod selection;
