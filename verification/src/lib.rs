//! Structural outline engine for a small sectioned configuration language.
//!
//! A parsed document is a tree: a root whose children are sections, each
//! section holding a name and statements among its children. The engine
//! flattens that tree into one document-ordered sequence of named units
//! (section names and statements), skipping syntactic scaffolding and
//! stopping silently at the first shape it does not expect.

pub mod eds;
pub mod laws;
