//! The code tree.
pub mod code_builder;
pub mod config;
