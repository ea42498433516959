//! Choosing between a remote embedding and the local one, and laying out the
//! local one.
//!
//! The local embedding of a text is a function of the text alone. Its first
//! half holds character frequencies, its second half word hashes, and what is
//! left of the second half a wave. This module says which feature stands in
//! which place; turning features into numbers is left to the caller.

use std::collections::hash_map::DefaultHasher;
use std::hash::Hasher;
use vstd::prelude::*;
use vstd::std_specs::hash::DefaultHasherAdditionalSpecFns;
use vstd::string::StringSliceAdditionalSpecFns;
use crate::split::{split_whitespace, words};
use crate::text::{byte_len, chars_of, string_of, utf8_len, views};

verus! {

/// The dimension of embeddings where none is configured.
pub const DEFAULT_DIMENSION: usize = 768;

/// Where an embedding comes from.
#[derive(Debug, Clone, Copy, PartialEq, Eq, Structural)]
pub enum EmbeddingSource {
    /// The remote service answered with a vector of the right length.
    Remote,
    /// The local, deterministic embedding.
    Deterministic,
}

/// One place of the local embedding.
#[derive(Debug, Clone, Copy, PartialEq, Eq, Structural)]
pub enum Feature {
    /// Nothing: the place holds zero.
    Zero,
    /// A character of the text: its code point and how often it occurs in the
    /// text.
    CharFrequency { code: u32, count: usize },
    /// The hash of a word of the text.
    WordHash { hash: u64 },
    /// A wave over the place's index.
    Wave { index: usize },
}

/// The embedding provider: the dimension of its vectors, and whether a remote
/// service is configured.
#[derive(Debug, Clone, Copy, PartialEq, Eq, Structural)]
pub struct EmbeddingModel {
    pub dimension: usize,
    pub remote_configured: bool,
}

/// The hash of a text: what the default hasher gives for the text's bytes
/// followed by the byte `0xff`.
pub open spec fn hash_of(text: Seq<char>) -> u64 {
    DefaultHasher::spec_finish(seq![vstd::utf8::encode_utf8(text), seq![0xffu8]])
}

/// How often `c` occurs in `text`.
pub open spec fn occurrences(text: Seq<char>, c: char) -> int
    decreases text.len(),
{
    if text.len() == 0 {
        0
    } else {
        occurrences(text.drop_last(), c) + if text.last() == c {
            1int
        } else {
            0int
        }
    }
}

/// The feature at place `i` of the local embedding of `text` in `dimension`
/// places.
pub open spec fn feature_at(text: Seq<char>, dimension: int, i: int) -> Feature {
    let half = dimension / 2;
    let ws = words(text);
    if i < half {
        if i < text.len() {
            Feature::CharFrequency {
                code: text[i] as u32,
                count: occurrences(text, text[i]) as usize,
            }
        } else {
            Feature::Zero
        }
    } else if i - half < ws.len() && i - half < half {
        Feature::WordHash { hash: hash_of(ws[i - half]) }
    } else {
        Feature::Wave { index: i as usize }
    }
}

/// The features of the local embedding of `text`, place by place.
pub open spec fn features_of(text: Seq<char>, dimension: int) -> Seq<Feature> {
    Seq::new(dimension as nat, |i: int| feature_at(text, dimension, i))
}

/// Every length is `dimension`.
pub open spec fn all_of_length(lengths: Seq<usize>, dimension: usize) -> bool {
    forall|i: int| 0 <= i < lengths.len() ==> (#[trigger] lengths[i]) == dimension
}

fn count_char(text: &Vec<char>, c: char) -> (n: usize)
    ensures
        n == occurrences(text@, c),
{
    let mut n: usize = 0;
    let mut i: usize = 0;
    while i < text.len()
        invariant
            i <= text.len(),
            n == occurrences(text@.take(i as int), c),
            n <= i,
        decreases text.len() - i,
    {
        assert(text@.take(i + 1).drop_last() == text@.take(i as int));
        if text[i] == c {
            n += 1;
        }
        i += 1;
    }
    assert(text@.take(text.len() as int) == text@);
    n
}

impl EmbeddingModel {
    /// A provider of vectors of the default dimension, without a remote
    /// service.
    pub fn new() -> (r: Self)
        ensures
            r.dimension == DEFAULT_DIMENSION,
            !r.remote_configured,
    {
        EmbeddingModel { dimension: DEFAULT_DIMENSION, remote_configured: false }
    }

    /// The dimension of the vectors.
    pub fn get_dimension(&self) -> (r: usize)
        ensures
            r == self.dimension,
    {
        self.dimension
    }

    /// The hash of a text.
    pub fn hash_string(&self, s: &str) -> (h: u64)
        ensures
            h == hash_of(s@),
    {
        let mut hasher = DefaultHasher::new();
        hasher.write(s.as_bytes());
        let end: [u8; 1] = [0xff];
        hasher.write(end.as_slice());
        proof {
            assert(end@ =~= seq![0xffu8]);
            assert(hasher@ =~= seq![vstd::utf8::encode_utf8(s@), seq![0xffu8]]);
        }
        hasher.finish()
    }

    /// Where the embedding of one text comes from. `remote_length` is the
    /// length of the vector that the remote service answered with, if it was
    /// asked and answered.
    pub fn resolve(&self, remote_length: Option<usize>) -> (r: EmbeddingSource)
        ensures
            r == EmbeddingSource::Remote <==> remote_length == Some(self.dimension),
    {
        match remote_length {
            Some(n) => if n == self.dimension {
                EmbeddingSource::Remote
            } else {
                EmbeddingSource::Deterministic
            },
            None => EmbeddingSource::Deterministic,
        }
    }

    /// Where the embeddings of a batch of texts come from: from the remote
    /// service only where it answered and every vector has the right length.
    pub fn resolve_batch(&self, remote_lengths: Option<&Vec<usize>>) -> (r: EmbeddingSource)
        ensures
            r == EmbeddingSource::Remote <==> (remote_lengths is Some && all_of_length(
                remote_lengths->0@,
                self.dimension,
            )),
    {
        match remote_lengths {
            Some(lengths) => {
                let mut i: usize = 0;
                while i < lengths.len()
                    invariant
                        i <= lengths.len(),
                        remote_lengths == Some(lengths),
                        forall|j: int| 0 <= j < i ==> (#[trigger] lengths@[j]) == self.dimension,
                    decreases lengths.len() - i,
                {
                    if lengths[i] != self.dimension {
                        assert(lengths@[i as int] != self.dimension);
                        return EmbeddingSource::Deterministic;
                    }
                    i += 1;
                }
                EmbeddingSource::Remote
            },
            None => EmbeddingSource::Deterministic,
        }
    }

    /// The features of the local embedding of `text`, place by place, and the
    /// number of bytes of the text.
    pub fn embedding_features(&self, text: &str) -> (r: (Vec<Feature>, u128))
        ensures
            r.0@ == features_of(text@, self.dimension as int),
            r.1 == utf8_len(text@),
    {
        let chars = chars_of(text);
        let ws = split_whitespace(&chars);
        let dimension = self.dimension;
        let half = dimension / 2;
        let mut out: Vec<Feature> = Vec::new();
        let mut i: usize = 0;
        while i < dimension
            invariant
                i <= dimension == self.dimension,
                half == dimension / 2,
                chars@ == text@,
                views(ws@) == words(text@),
                out.len() == i,
                forall|j: int| 0 <= j < i ==> out[j] == feature_at(text@, dimension as int, j),
            decreases dimension - i,
        {
            let feature = if i < half {
                if i < chars.len() {
                    Feature::CharFrequency {
                        code: chars[i] as u32,
                        count: count_char(&chars, chars[i]),
                    }
                } else {
                    Feature::Zero
                }
            } else if i - half < ws.len() && i - half < half {
                let word = string_of(&ws[i - half]);
                assert(views(ws@)[i - half] == word@);
                Feature::WordHash { hash: self.hash_string(word.as_str()) }
            } else {
                Feature::Wave { index: i }
            };
            out.push(feature);
            i += 1;
        }
        assert(out@ =~= features_of(text@, dimension as int));
        (out, byte_len(&chars))
    }
}

} // verus!
