//! The application's tables, what each row holds, and the operations that the
//! application runs on them.

pub mod laws;
pub mod manager;
pub mod migrate;
pub mod models;
pub mod operations;
pub mod pattern;
pub mod sorting;
pub mod store;
pub mod tree;
