//! Front end for the Technique procedures language: lexical recognizers for
//! identifiers, formas and years, parsers for the document header and for
//! procedure declarations, a document assembler with per-statement error
//! recovery, and a canonical serializer, with the round-trip and
//! error-aggregation laws proved over them.

pub mod ast;
pub mod chars;
pub mod decl;
pub mod document;
pub mod header;
pub mod ident;
pub mod laws;
pub mod serialize;
pub mod year;
