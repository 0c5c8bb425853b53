//! A minimal version-control engine: snapshot trees of a working directory,
//! their structural differences, and the plans that commit and restore them.

pub mod builder;
pub mod cli;
pub mod commit;
pub mod diff;
pub mod error;
pub mod repo;
pub mod store;
pub mod tree;
