//! A single-process store for UML-like diagram documents.
//!
//! The library holds the document model (a file of classes with fields,
//! operations and relation edges), a binary snapshot codec that turns the
//! whole store or a single document into a length-prefixed blob and back,
//! the store itself (an id-keyed map with save/get/delete/exists/snapshot),
//! and a translator between the document model and a JSON-shaped value tree.

pub mod codec;
pub mod error;
pub mod json;
pub mod model;
pub mod service;
pub mod store;
pub mod translate;
