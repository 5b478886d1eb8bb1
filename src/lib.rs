//! An embedded key-value store with named trees, a durable snapshot and a
//! policy that decides how a store is opened.
pub mod codec;
pub mod config;
pub mod error;
pub mod laws;
pub mod policy;
pub mod store;
