//! Reconciliation of two key-indexed tables: row indexing, column
//! classification, cell-level diffing and a bounded diff report.

pub mod text;
pub mod index;
pub mod columns;
pub mod engine;
pub mod report;
pub mod order;
pub mod stats;
pub mod laws;
pub mod source;
