//! Feature templates for a part-of-speech tagger: the keys of every word of
//! a sentence, the label vocabulary, and the reading of annotated text.

pub mod buffer;
pub mod corpus;
pub mod definition;
pub mod extract;
pub mod template;
pub mod text;

pub use crate::corpus::{CorpusError, LineError, Sample, TokenFault};
pub use crate::definition::{POSDefinition, UnknownLabel};
