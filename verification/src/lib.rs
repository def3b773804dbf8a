//! Source-mapped diagnostics: a source-map cache and position resolver that
//! translates generated positions back to original source positions, and an
//! error model and formatter that renders a runtime exception with every
//! frame's position passed through the resolver.

pub mod cache;
pub mod error_model;
pub mod format;
pub mod json;
pub mod ops;
pub mod source_map;
pub mod text;

