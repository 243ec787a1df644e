//! A source-to-source preprocessor for Lua: it parses a source file into a
//! lossless syntax tree, expands compile-time macro constructs by running
//! their bodies in an embedded interpreter, splices the generated text back
//! into the tree as inert trivia, and decides through a small build cache
//! whether a file has to be rebuilt at all.
//!
//! The modules here hold the verified core: the token editor that attaches
//! literal text to a tree without changing its structure, the macro resolver
//! that recognizes the two macro forms, the pragma and parameter-record
//! parsing, and the cache-freshness decision. Calls into the outside parser,
//! rewriter, formatter and interpreter stand behind a small set of trusted
//! wrappers; everything around them is proved.

pub mod cache;
pub mod errors;
pub mod laws;
pub mod optimizer;
pub mod params;
pub mod pipeline;
pub mod pragma;
pub mod rewrite;
pub mod text;
pub mod token_edit;
pub mod transformer;
pub mod tree;
