//! Detection of near-duplicate code among many submissions.
//!
//! Every file of a submission is a stream of tokens. A window of fixed width
//! slides over the stream, and each position of the window gives a
//! fingerprint: a key made from the tokens in the window, and the place in
//! the file that the window covers. The index files the fingerprints of
//! every submission under their keys. A submission is then scored against
//! all the others by the keys it shares with each of them, leaving out the
//! keys that code given to everybody shares as well.
//!
//! - [`frontend`]: origins, locations, and the containers of token streams.
//! - [`strategy`]: how a window becomes a key.
//! - [`ngram`]: the fingerprints of a stream.
//! - [`model`]: the index as a mathematical map, and what populating and
//!   scoring mean on it.
//! - [`backend`]: the index itself, and the scorer.
//! - [`laws`]: what holds of all of this, whatever the submissions are.
//! - [`spans`]: from the operations of a scope parser to a stream of tokens.
//! - [`ingestor`]: the filter on the names of the files that are read.
//! - [`tree_iterator`]: a walk over a syntax tree.

pub mod backend;
pub mod frontend;
pub mod ingestor;
pub mod laws;
pub mod model;
pub mod ngram;
pub mod spans;
pub mod strategy;
pub mod tree_iterator;
