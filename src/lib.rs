//! Completion engine for LaTeX and BibTeX documents: resolves where the cursor
//! stands in a syntax tree, collects candidates from many independent sources
//! and ranks them into one final list.

pub mod pos;
pub mod syntax;
pub mod scope;
pub mod pattern;
pub mod item;
pub mod fuzzy;
pub mod rank;
pub mod text;
pub mod doc;
pub mod complete;
pub mod engine;
pub mod symbol;
pub mod bounds;

