//! Typed configuration bound to a document on disk.
//!
//! An application declares a configuration structure, binds it to a
//! document reference such as `app.toml#audio`, and receives a live value
//! that is refreshed whenever the document changes. The crate holds the
//! pieces of that pipeline: the document model, the path resolver, the
//! per-format adapters, the binding registry and the reload step itself.
pub mod doc;
pub mod path;
pub mod adapter;
pub mod binding;
pub mod pipeline;
pub mod settings;
pub mod json;
pub mod toml;
