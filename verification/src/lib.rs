//! A retained-mode document tree with integrated style and layout resolution.
//!
//! The crate keeps an arena of nodes (document, elements, text, comments)
//! whose identities stay stable across mutation, a registry of parsed
//! stylesheets partitioned by origin, and a resolve pipeline that cascades
//! declarations onto elements and then computes box geometry.  Resolved
//! geometry can be queried by spatial hit-testing.

pub mod arena;
pub mod cascade;
pub mod css;
pub mod document;
pub mod errors;
pub mod geom;
pub mod hittest;
pub mod layout;
pub mod node;
pub mod parse;
pub mod strutil;
pub mod unescape;
pub mod urls;
