//! Per-identifier waiting lists of participant records, with ownership rules:
//! a caller may add, change or remove only the record that carries its own
//! identity, and never the records of other callers.

pub mod config;
pub mod entity;
pub mod error;
pub mod laws;
pub mod rules;
pub mod service;
pub mod store;
