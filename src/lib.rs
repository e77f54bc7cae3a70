//! Restricted SQL `SELECT` queries over documents made of named sections.

pub mod config;
pub mod document;
pub mod engine;
pub mod error;
pub mod mapping;
pub mod query;
pub mod summary;
pub mod value_at_position;
