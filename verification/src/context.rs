//! The text form in which retrieved chunks are handed on.
//!
//! Each chunk is a block of three lines and an empty one: a header with the
//! chunk's number and similarity, the source path, and the content.

use vstd::prelude::*;
use crate::number::{decimal, fixed3, push_decimal, push_fixed3};
use crate::text::{chars_of, extend};

verus! {

/// The block for one chunk.
pub open spec fn chunk_block(
    number: nat,
    similarity: u32,
    document_path: Seq<char>,
    chunk_text: Seq<char>,
) -> Seq<char> {
    "--- Chunk "@ + decimal(number) + " (Similarity: "@ + fixed3(similarity) + ") ---\n"@
        + "Source: "@ + document_path + "\n"@ + "Content: "@ + chunk_text + "\n\n"@
}

/// Appends the block for one chunk to `out`.
pub fn push_chunk_block(
    out: &mut Vec<char>,
    number: u128,
    similarity: u32,
    document_path: &str,
    chunk_text: &str,
)
    ensures
        final(out)@ == old(out)@ + chunk_block(
            number as nat,
            similarity,
            document_path@,
            chunk_text@,
        ),
{
    let ghost start = out@;
    extend(out, &chars_of("--- Chunk "));
    push_decimal(out, number);
    extend(out, &chars_of(" (Similarity: "));
    push_fixed3(out, similarity);
    extend(out, &chars_of(") ---\n"));
    extend(out, &chars_of("Source: "));
    extend(out, &chars_of(document_path));
    extend(out, &chars_of("\n"));
    extend(out, &chars_of("Content: "));
    extend(out, &chars_of(chunk_text));
    extend(out, &chars_of("\n\n"));
    assert(out@ =~= start + chunk_block(number as nat, similarity, document_path@, chunk_text@));
}

} // verus!
