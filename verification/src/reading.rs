//! Reading a context text back into chunks.
//!
//! The text is read line by line. A chunk header starts a chunk and gives its
//! similarity, a source line names its document, and a content line and the
//! lines that follow it give its content, each trimmed and followed by a
//! space.

use vstd::prelude::*;
use crate::number::{parse_similarity, similarity_of};
use crate::pattern::{
    find,
    first_occurrence,
    lemma_first_occurrence,
    occurs_in,
    pieces,
    remove_all,
    split,
    starts_with,
    without,
};
use crate::split::{lines, lines_of};
use crate::text::{chars_of, extend, slice_of, trim, trimmed, views};

verus! {

/// A chunk as it is read from a context text.
pub struct Draft {
    pub content: Seq<char>,
    pub source: Seq<char>,
    pub similarity: u32,
}

/// A chunk that is being read.
pub struct DraftBuf {
    pub content: Vec<char>,
    pub source: Vec<char>,
    pub similarity: u32,
}

impl View for DraftBuf {
    type V = Draft;

    open spec fn view(&self) -> Draft {
        Draft { content: self.content@, source: self.source@, similarity: self.similarity }
    }
}

/// What each of the drafts holds.
pub open spec fn draft_views(drafts: Seq<DraftBuf>) -> Seq<Draft> {
    Seq::new(drafts.len(), |i: int| drafts[i]@)
}

/// The chunks read so far and the one being read.
pub struct Reading {
    pub done: Seq<Draft>,
    pub current: Draft,
}

/// A chunk of which nothing is known yet.
pub open spec fn blank() -> Draft {
    Draft { content: seq![], source: seq![], similarity: 0 }
}

/// The similarity that a chunk header gives: what stands behind the first
/// `Similarity: ` and before the closing parenthesis, read as a plain decimal
/// number; zero where that cannot be read.
pub open spec fn header_similarity(line: Seq<char>) -> u32 {
    let parts = pieces(line, "Similarity: "@);
    if parts.len() >= 2 && occurs_in(parts[1], seq![')']) {
        match similarity_of(parts[1].take(first_occurrence(parts[1], seq![')']) as int)) {
            Some(v) => v,
            None => 0,
        }
    } else {
        0
    }
}

/// The chunks read so far with the current one, if it has content.
pub open spec fn closed(state: Reading) -> Seq<Draft> {
    if state.current.content.len() > 0 {
        state.done.push(state.current)
    } else {
        state.done
    }
}

/// `content` with a further piece and a space behind it.
pub open spec fn with_piece(content: Seq<char>, piece: Seq<char>) -> Seq<char> {
    content + piece + seq![' ']
}

/// The state after one more line.
pub open spec fn read_line(state: Reading, line: Seq<char>) -> Reading {
    if "--- Chunk"@.is_prefix_of(line) {
        Reading {
            done: closed(state),
            current: Draft { content: seq![], source: seq![], similarity: header_similarity(line) },
        }
    } else if "Source: "@.is_prefix_of(line) {
        Reading {
            done: state.done,
            current: Draft {
                content: state.current.content,
                source: trimmed(without(line, "Source: "@)),
                similarity: state.current.similarity,
            },
        }
    } else if "Content: "@.is_prefix_of(line) {
        if trimmed(without(line, "Content: "@)).len() > 0 {
            Reading {
                done: state.done,
                current: Draft {
                    content: with_piece(
                        state.current.content,
                        trimmed(without(line, "Content: "@)),
                    ),
                    source: state.current.source,
                    similarity: state.current.similarity,
                },
            }
        } else {
            state
        }
    } else if trimmed(line).len() > 0 && state.current.content.len() > 0 {
        Reading {
            done: state.done,
            current: Draft {
                content: with_piece(state.current.content, trimmed(line)),
                source: state.current.source,
                similarity: state.current.similarity,
            },
        }
    } else {
        state
    }
}

/// The state after a list of lines.
pub open spec fn read_lines(lines: Seq<Seq<char>>) -> Reading
    decreases lines.len(),
{
    if lines.len() == 0 {
        Reading { done: seq![], current: blank() }
    } else {
        read_line(read_lines(lines.drop_last()), lines.last())
    }
}

/// The chunks with content that a context text holds.
pub open spec fn drafts_of(context: Seq<char>) -> Seq<Draft> {
    closed(read_lines(lines_of(context)))
}

/// The similarity that a chunk header gives.
pub fn read_header_similarity(line: &Vec<char>) -> (r: u32)
    ensures
        r == header_similarity(line@),
{
    let label = chars_of("Similarity: ");
    let parts = split(line, &label);
    if parts.len() < 2 {
        return 0;
    }
    assert(views(parts@)[1] == parts[1]@);
    let mut paren: Vec<char> = Vec::new();
    paren.push(')');
    assert(paren@ =~= seq![')']);
    proof {
        lemma_first_occurrence(parts[1]@, paren@);
    }
    match find(&parts[1], &paren) {
        None => 0,
        Some(end) => {
            let number = slice_of(&parts[1], 0, end);
            assert(number@ == parts[1]@.take(end as int));
            match parse_similarity(&number) {
                Some(v) => v,
                None => 0,
            }
        },
    }
}

/// Moves the current chunk, if it has content, to the chunks that are done.
fn close(done: &mut Vec<DraftBuf>, current: DraftBuf)
    ensures
        draft_views(final(done)@) == closed(
            Reading { done: draft_views(old(done)@), current: current@ },
        ),
{
    let ghost before = draft_views(done@);
    if current.content.len() > 0 {
        let ghost c = current@;
        done.push(current);
        assert(draft_views(done@) =~= before.push(c));
    }
}

/// The chunks with content that a context text holds.
pub fn read_drafts(context: &Vec<char>) -> (r: Vec<DraftBuf>)
    ensures
        draft_views(r@) == drafts_of(context@),
{
    let all = lines(context);
    let header = chars_of("--- Chunk");
    let source_label = chars_of("Source: ");
    let content_label = chars_of("Content: ");
    let ghost ls = lines_of(context@);
    let mut done: Vec<DraftBuf> = Vec::new();
    let mut current = DraftBuf { content: Vec::new(), source: Vec::new(), similarity: 0 };
    let mut i: usize = 0;
    assert(draft_views(done@) =~= Seq::<Draft>::empty());
    assert(current@ == blank());
    while i < all.len()
        invariant
            i <= all.len(),
            views(all@) == ls,
            header@ == "--- Chunk"@,
            source_label@ == "Source: "@,
            content_label@ == "Content: "@,
            (Reading { done: draft_views(done@), current: current@ }) == read_lines(
                ls.take(i as int),
            ),
        decreases all.len() - i,
    {
        proof {
            assert(ls.take(i + 1).drop_last() == ls.take(i as int));
            assert(ls.take(i + 1).last() == all[i as int]@);
        }
        let line = &all[i];
        if starts_with(line, &header) {
            let similarity = read_header_similarity(line);
            close(&mut done, current);
            current = DraftBuf { content: Vec::new(), source: Vec::new(), similarity };
        } else if starts_with(line, &source_label) {
            current.source = trim(&remove_all(line, &source_label));
        } else if starts_with(line, &content_label) {
            let piece = trim(&remove_all(line, &content_label));
            if piece.len() > 0 {
                let ghost before = current.content@;
                extend(&mut current.content, &piece);
                current.content.push(' ');
                assert(current.content@ =~= with_piece(before, piece@));
            }
        } else {
            let piece = trim(line);
            if piece.len() > 0 && current.content.len() > 0 {
                let ghost before = current.content@;
                extend(&mut current.content, &piece);
                current.content.push(' ');
                assert(current.content@ =~= with_piece(before, piece@));
            }
        }
        i += 1;
    }
    assert(ls.take(all.len() as int) == ls);
    close(&mut done, current);
    done
}

} // verus!
