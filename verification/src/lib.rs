//! Build-time resolution and compilation of per-language text resources.
//!
//! A set of declared language variants, each carrying raw key/value template
//! strings, is validated against a mandatory default variant, filled up to key
//! parity through ordered fallback chains, and compiled into an immutable
//! catalog of literal/placeholder segment lists. At runtime a selector picks
//! one variant and templates are formatted against positional arguments.

pub mod arity;
pub mod catalog;
pub mod compile;
pub mod escape;
pub mod format;
pub mod parse;
pub mod registry;
pub mod resolve;
pub mod strutil;
pub mod template;
