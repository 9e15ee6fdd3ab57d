//! A literate-programming build engine. A source tree mixes plain files with notebook
//! files (`*.lpnb`), each an ordered list of sections that pair a code fragment with its
//! documentation. The engine decodes the notebooks, indexes their headed sections, checks
//! that every cross-reference names a section, assembles each notebook's code (with
//! import lines written by per-extension plugins) and renders its documentation. What
//! it computes is a plan of files to write or copy; carrying it out is left to the
//! caller.
pub mod builder;
pub mod cli;
pub mod code;
pub mod config;
pub mod docs;
pub mod emission;
pub mod error;
pub mod index;
pub mod module;
pub mod paths;
pub mod plugins;
pub mod sections;
pub mod structs;
pub mod text;
