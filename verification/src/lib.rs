//! Transaction queries and submission for a blockchain node: ordered cursors,
//! cursor-based pagination, status reconciliation and the submission pipeline.

pub mod vectors;
pub mod cursor;
pub mod walker;
pub mod page;
pub mod status;
pub mod submission;
pub mod query;
pub mod mutation;
pub mod subscription;
pub mod service;
