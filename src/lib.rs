//! Version diagnostics for Cargo manifests: where a package's versions live in the
//! registry's sparse index, a cache of what was fetched, the open documents and their
//! edits, and the classification of each dependency's requirement.
pub mod cache;
pub mod diagnostics;
pub mod documents;
pub mod extension;
pub mod registry;
pub mod text;
