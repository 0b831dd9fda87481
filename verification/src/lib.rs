//! Candidate resolution and span disambiguation for an ontology parser.
//!
//! A language-specific rule engine turns free text into a forest of
//! overlapping, scored parse candidates.  This crate takes such a forest and
//! produces a minimal, non-overlapping, priority-ordered set of typed
//! outputs: it filters candidates by a caller-supplied ordered list of
//! output kinds, arbitrates overlapping spans by kind priority and score,
//! and resolves each surviving candidate's intermediate value into a typed
//! output against a caller-supplied resolution context.

pub mod grammar;
pub mod kinds;
pub mod laws;
pub mod parser;
pub mod resolve;
pub mod seqs;
pub mod span;
pub mod tagger;

pub use grammar::{dims, examples, rules, Lang};
pub use kinds::{OntologyError, Output, OutputKind};
pub use parser::{
    build_parser, build_raw_parser, train_parser, Parser, ParserMatch, ParsingAnalysis, RawParser,
};
pub use resolve::ResolverContext;
pub use span::Span;
pub use tagger::{Candidate, CandidateTagger};
