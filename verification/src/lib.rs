//! Semantic retrieval and answer synthesis over a personal document corpus.
//!
//! Documents are cut into overlapping chunks ([`chunker`], [`semantic`]),
//! the chunks are embedded ([`embeddings`]) and held in an index
//! ([`vector_search`]). A question is answered from the chunks that are most
//! similar to it: they are gathered into a context ([`retrieval`]), the
//! context is assessed ([`scoring`], [`quality`]), an answer is drawn from it
//! by one of four strategies ([`answers`], [`key_info`], [`questions`]), and
//! notes are put behind the answer ([`validation`]). [`pipeline`] ties these
//! together.
//!
//! The library does no input or output and no floating-point arithmetic.
//! Similarities are whole numbers of millionths, vectors are carried as the
//! bit patterns of their components, and whatever comes from outside (the
//! similarity of a query to each stored vector, the matches of a remote
//! vector store, the text that a language model generated) is handed in by
//! the caller.
//!
//! Every function states what it returns over `Seq<char>` and other
//! mathematical values; the text operations that these statements rest on
//! are in [`text`], [`pattern`], [`split`] and [`number`].

pub mod answers;
pub mod chunker;
pub mod config;
pub mod context;
pub mod display;
pub mod embeddings;
pub mod error;
pub mod hashing;
pub mod indexer;
pub mod key_info;
pub mod llm;
pub mod number;
pub mod pattern;
pub mod pinecone;
pub mod pipeline;
pub mod quality;
pub mod questions;
pub mod retrieval;
pub mod ranking;
pub mod reading;
pub mod scoring;
pub mod semantic;
pub mod split;
pub mod stored;
pub mod summary;
pub mod text;
pub mod types;
pub mod validation;
pub mod vector_search;
