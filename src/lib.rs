//! Walks a directory hierarchy into an arena-backed tree and renders it as JSON.
pub mod node;
pub mod tree;
pub mod paths;
pub mod walk;
pub mod json;
pub mod layout;
