//! The documentation tree.
pub mod config;
pub mod docs_builder;
