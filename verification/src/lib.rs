//! Directory listing core: entry classification, permission decoding, sorting,
//! size formatting, rendering and a depth-bounded tree walk, with every rule
//! stated as a contract.

pub mod classify;
pub mod cli;
pub mod entry;
pub mod error;
pub mod identity;
pub mod metadata;
pub mod permission;
pub mod render;
pub mod size;
pub mod sorter;
pub mod text;
pub mod tree;
pub mod walker;
