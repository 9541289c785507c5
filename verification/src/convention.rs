//! Conventions a repository holds its non-Markdown files to.
pub mod emoji;
