//! Styled, cached renditions of structured e-books: style fingerprints and
//! rendition directories, markup rewriting for navigation and stylesheets,
//! table-of-contents reconciliation and least-recently-used eviction.

pub mod cli;
pub mod config;
pub mod css;
pub mod epub;
pub mod library;
pub mod markup;
pub mod paths;
pub mod style;
