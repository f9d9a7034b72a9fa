//! Index of developer project directories: the project store with its
//! recency ordering, and the rules around discovering and opening projects.

pub mod age;
pub mod config;
pub mod index;
pub mod input;
pub mod laws;
pub mod opener;
pub mod order;
pub mod pipeline;
pub mod project;
pub mod store;
pub mod table;
