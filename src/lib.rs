//! Resolution of scripture references against an in-memory corpus: fuzzy book
//! lookup, the `Book:Chapter[:Verse[-Verse]]` grammar, verse-range extraction and
//! fixed-width line layout.

pub mod text;
pub mod reference;
pub mod corpus;
pub mod resolver;
pub mod format;
pub mod engine;
