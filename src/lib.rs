//! A lexicon for a constructed language: validation of new entries, the
//! morphological analysis of verbs, bulk import of `definition=word` pairs and
//! an in-memory model of the word store.

pub mod text;
pub mod word;
pub mod etymology;
pub mod validate;
pub mod import;
pub mod store;
