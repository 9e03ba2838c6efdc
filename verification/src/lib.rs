//! Rhizome: a personal knowledge base of interlinked markdown pages.
//!
//! This crate holds the logic of the knowledge base: how a page's markdown is
//! read (its summary line and its internal links), how links are normalised
//! before they are stored, how internal links are rewritten before rendering,
//! how credentials are checked, and what each web route decides to answer.
//! Input and output (the database, the HTTP server, sessions) live outside.

pub mod authentication;
pub mod error;
pub mod markup;
pub mod page;
pub mod replacements;
pub mod routes;
pub mod text;
pub mod utils;
