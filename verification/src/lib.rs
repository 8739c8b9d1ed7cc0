//! Text-scanning and rewriting engine for technical-specification HTML.
//!
//! The crate rewrites a converted HTML document so that cross-references
//! between clauses and companion documents become hyperlinks, and so that
//! the table of contents and the heading clauses carry stable anchors.
//! It works purely on text: a cursor scans for literal patterns, a
//! copy-forward builder assembles the rewritten buffer, and a ranked
//! grammar recognizes the surface forms of a cross-reference.

pub mod grammar;
pub mod rich_html;
pub mod scan;
pub mod source_modifier;
pub mod source_parser;
pub mod ts_number;
