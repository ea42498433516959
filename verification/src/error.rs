//! What can go wrong in the pipeline.

use vstd::prelude::*;
use crate::number::{decimal, push_decimal};
use crate::text::{chars_of, extend, string_of};

verus! {

/// The failures that reach the caller. A failing remote service is not among
/// them: it only makes the pipeline fall back on what is local.
#[derive(Debug, Clone, Copy, PartialEq, Eq, Structural)]
pub enum RagError {
    /// A vector's length is not the dimension of the index.
    DimensionMismatch { expected: usize, got: usize },
    /// The number of similarities handed in is not the number of indexed
    /// entries.
    ScoreCountMismatch { expected: usize, got: usize },
    /// Retrieval found no source at all.
    EmptyContext,
}

impl RagError {
    /// The message of an error.
    pub open spec fn message_of(self) -> Seq<char> {
        match self {
            RagError::DimensionMismatch { expected, got } => "Vector dimension mismatch: expected "@
                + decimal(expected as nat) + ", got "@ + decimal(got as nat),
            RagError::ScoreCountMismatch { expected, got } => "Similarity count mismatch: expected "@
                + decimal(expected as nat) + ", got "@ + decimal(got as nat),
            RagError::EmptyContext => "No relevant content found for the question"@,
        }
    }

    /// The message of this error.
    pub fn message(&self) -> (r: String)
        ensures
            r@ == self.message_of(),
    {
        match self {
            RagError::DimensionMismatch { expected, got } => {
                let mut out = chars_of("Vector dimension mismatch: expected ");
                push_decimal(&mut out, *expected as u128);
                extend(&mut out, &chars_of(", got "));
                push_decimal(&mut out, *got as u128);
                string_of(&out)
            },
            RagError::ScoreCountMismatch { expected, got } => {
                let mut out = chars_of("Similarity count mismatch: expected ");
                push_decimal(&mut out, *expected as u128);
                extend(&mut out, &chars_of(", got "));
                push_decimal(&mut out, *got as u128);
                string_of(&out)
            },
            RagError::EmptyContext => {
                let out = chars_of("No relevant content found for the question");
                string_of(&out)
            },
        }
    }
}

} // verus!
