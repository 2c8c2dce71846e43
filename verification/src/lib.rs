//! A minimal persistent transaction store: create, read, update-status and
//! delete over a single record type, backed by a durable identifier counter
//! and a durable map from identifier to encoded record.

pub mod codec;
pub mod laws;
pub mod service;
pub mod store;
pub mod text;
pub mod transaction;
