//! Governance validators.
//!
//! These enforce how a repository's own documents are organised: how long a
//! governed file may be, what a reader is told of a file's length, and which
//! layers and categories the governance tree may hold.

pub mod companion;
pub mod directory_map;
pub mod instructions;
pub mod structure;
pub mod word_budget;
