//! Utilities for checking a generated static site: identifier and slug
//! normalisation, URL classification, HTML scanning, the per-file index and
//! the cross-reference validator that runs over it.

pub mod index;
pub mod scan;
pub mod text;
pub mod time;
pub mod url;
pub mod validate;
