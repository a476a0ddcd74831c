//! Streaming decoder that turns XML sentence markup into tabular corpus
//! sentences: one token per line inside a sentence element, each token
//! carrying the feature annotation fixed when the sentence element opened.

pub mod corpus;
pub mod events;
pub mod text;
pub mod decoder;
pub mod source;
