//! A virtual filesystem engine over a message-oriented remote blob store.
//!
//! The library keeps a local metadata index that models a folder/file tree,
//! resolves slash-delimited paths against that index, plans content-cache
//! use and chunked uploads, and implements the decision logic of the
//! filesystem verbs a protocol server exposes.

pub mod adapter;
pub mod cache;
pub mod ext;
pub mod naming;
pub mod records;
pub mod resolve;
pub mod store;
pub mod upload;
