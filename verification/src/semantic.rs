//! Cutting a document into chunks along its sections.
//!
//! Lines are gathered into a chunk until the next line starts a section and
//! the chunk is over its minimum size, or until the next line would take the
//! chunk over its maximum size. A line that is itself over the maximum size is
//! cut into windows.

use vstd::prelude::*;
use crate::chunker::{
    chunk_chars,
    chunk_text_internal,
    chunk_texts,
    chunks_are,
    lemma_chunk_texts,
};
use crate::config::ChunkingConfig;
use crate::pattern::matches_at;
use crate::split::{lines, lines_of};
use crate::text::{
    chars_of,
    extend,
    is_space,
    leading_spaces,
    lemma_trimmed,
    lemma_views_push,
    slice_of,
    string_of,
    trim,
    trim_bounds,
    trimmed,
    views,
};
use crate::types::Chunk;

verus! {

/// What a section can start with.
pub open spec fn section_marks() -> Seq<Seq<char>> {
    seq!["#"@, "fn "@, "pub fn "@, "class "@, "struct "@, "impl "@, "//"@, "/*"@]
}

/// A line starts a section where, behind its indentation, it starts with a
/// header sign, a function, class, struct or impl declaration, or a comment.
pub open spec fn is_section_start(line: Seq<char>) -> bool {
    exists|i: int|
        0 <= i < section_marks().len() && (#[trigger] section_marks()[i]).is_prefix_of(
            line.skip(leading_spaces(line)),
        )
}

/// The sizes that chunks are held to, in characters.
pub struct Sizes {
    pub min: int,
    pub max: int,
    pub overlap: int,
    pub sections: bool,
    pub room: int,
}

/// The chunks made so far and the lines of the chunk in the making.
pub struct Gathering {
    pub chunks: Seq<Seq<char>>,
    pub current: Seq<char>,
}

/// The state after the chunk in the making was closed: trimmed, it is a
/// chunk, unless nothing is left of it.
pub open spec fn flushed(state: Gathering) -> Gathering {
    Gathering {
        chunks: if trimmed(state.current).len() > 0 {
            state.chunks.push(trimmed(state.current))
        } else {
            state.chunks
        },
        current: seq![],
    }
}

/// Whether the chunk in the making is closed before `line`.
pub open spec fn closes_before(state: Gathering, line: Seq<char>, sizes: Sizes) -> bool {
    state.current.len() > 0 && ((sizes.sections && is_section_start(line) && state.current.len()
        > sizes.min) || state.current.len() + 1 + line.len() > sizes.max)
}

/// The state after one more line.
pub open spec fn take_line(state: Gathering, line: Seq<char>, sizes: Sizes) -> Gathering {
    if line.len() > sizes.max {
        Gathering {
            chunks: flushed(state).chunks + chunk_texts(line, sizes.max, sizes.overlap, sizes.room),
            current: seq![],
        }
    } else if closes_before(state, line, sizes) {
        Gathering { chunks: flushed(state).chunks, current: line }
    } else if state.current.len() == 0 {
        Gathering { chunks: state.chunks, current: line }
    } else {
        Gathering { chunks: state.chunks, current: state.current + seq!['\n'] + line }
    }
}

/// The state after a list of lines.
pub open spec fn take_lines(lines: Seq<Seq<char>>, sizes: Sizes) -> Gathering
    decreases lines.len(),
{
    if lines.len() == 0 {
        Gathering { chunks: seq![], current: seq![] }
    } else {
        take_line(take_lines(lines.drop_last(), sizes), lines.last(), sizes)
    }
}

/// The first `n` of `parts`, or all of them where there are fewer.
pub open spec fn capped(parts: Seq<Seq<char>>, n: int) -> Seq<Seq<char>> {
    if 0 <= n < parts.len() {
        parts.take(n)
    } else {
        parts
    }
}

/// The texts of the chunks that a document is cut into along its sections.
pub open spec fn semantic_texts(text: Seq<char>, sizes: Sizes) -> Seq<Seq<char>> {
    capped(flushed(take_lines(lines_of(text), sizes)).chunks, sizes.room)
}

/// The sizes that a configuration asks for.
pub open spec fn sizes_of(config: ChunkingConfig, max_chunks: usize) -> Sizes {
    Sizes {
        min: config.min_chunk_size as int,
        max: config.max_chunk_size as int,
        overlap: config.overlap_size as int,
        sections: config.respect_section_boundaries,
        room: max_chunks as int,
    }
}

/// The texts of the chunks of a document under a configuration: cut along
/// sections where that is asked for, else by sliding windows.
pub open spec fn document_texts(text: Seq<char>, config: ChunkingConfig, max_chunks: usize) -> Seq<
    Seq<char>,
> {
    if config.use_semantic_chunking {
        semantic_texts(text, sizes_of(config, max_chunks))
    } else {
        chunk_texts(
            text,
            config.max_chunk_size as int,
            config.overlap_size as int,
            max_chunks as int,
        )
    }
}

fn starts_section(line: &Vec<char>) -> (r: bool)
    ensures
        r == is_section_start(line@),
{
    let (from, _) = trim_bounds(line);
    let rest = slice_of(line, from, line.len());
    assert(rest@ == line@.skip(leading_spaces(line@)));
    let mut marks: Vec<Vec<char>> = Vec::new();
    marks.push(chars_of("#"));
    marks.push(chars_of("fn "));
    marks.push(chars_of("pub fn "));
    marks.push(chars_of("class "));
    marks.push(chars_of("struct "));
    marks.push(chars_of("impl "));
    marks.push(chars_of("//"));
    marks.push(chars_of("/*"));
    assert(views(marks@) =~= section_marks());
    let mut i: usize = 0;
    while i < marks.len()
        invariant
            i <= marks.len(),
            views(marks@) == section_marks(),
            rest@ == line@.skip(leading_spaces(line@)),
            forall|j: int| 0 <= j < i ==> !(#[trigger] section_marks()[j]).is_prefix_of(rest@),
        decreases marks.len() - i,
    {
        assert(section_marks()[i as int] == marks[i as int]@);
        if matches_at(&rest, &marks[i], 0) {
            return true;
        }
        i += 1;
    }
    false
}

fn flush(chunks: &mut Vec<Vec<char>>, current: &mut Vec<char>)
    ensures
        (Gathering { chunks: views(final(chunks)@), current: final(current)@ }) == flushed(
            Gathering { chunks: views(old(chunks)@), current: old(current)@ },
        ),
{
    let piece = trim(current);
    if piece.len() > 0 {
        let ghost before = chunks@;
        chunks.push(piece);
        proof {
            lemma_views_push(before, piece);
        }
    }
    current.clear();
}

/// The texts of the chunks that a document is cut into along its sections.
fn gather(
    text: &Vec<char>,
    min: usize,
    max: usize,
    overlap: usize,
    sections: bool,
    room: usize,
) -> (r: Vec<Vec<char>>)
    ensures
        views(r@) == semantic_texts(
            text@,
            Sizes {
                min: min as int,
                max: max as int,
                overlap: overlap as int,
                sections,
                room: room as int,
            },
        ),
{
    let ghost sizes = Sizes {
        min: min as int,
        max: max as int,
        overlap: overlap as int,
        sections,
        room: room as int,
    };
    let all = lines(text);
    let ghost ls = lines_of(text@);
    let mut chunks: Vec<Vec<char>> = Vec::new();
    let mut current: Vec<char> = Vec::new();
    let mut i: usize = 0;
    assert(views(chunks@) =~= Seq::<Seq<char>>::empty());
    while i < all.len()
        invariant
            i <= all.len(),
            views(all@) == ls,
            sizes == (Sizes {
                min: min as int,
                max: max as int,
                overlap: overlap as int,
                sections,
                room: room as int,
            }),
            (Gathering { chunks: views(chunks@), current: current@ }) == take_lines(
                ls.take(i as int),
                sizes,
            ),
        decreases all.len() - i,
    {
        proof {
            assert(ls.take(i + 1).drop_last() == ls.take(i as int));
            assert(ls.take(i + 1).last() == all[i as int]@);
        }
        let line = &all[i];
        if line.len() > max {
            flush(&mut chunks, &mut current);
            let windows = chunk_chars(line, max, overlap, room);
            let ghost start = views(chunks@);
            let ghost texts = chunk_texts(line@, max as int, overlap as int, room as int);
            let mut k: usize = 0;
            while k < windows.len()
                invariant
                    k <= windows.len(),
                    chunks_are(windows@, texts),
                    views(chunks@) == start + texts.take(k as int),
                decreases windows.len() - k,
            {
                let ghost before = chunks@;
                let piece = chars_of(windows[k].text.as_str());
                chunks.push(piece);
                proof {
                    lemma_views_push(before, piece);
                    assert(texts.take(k + 1) =~= texts.take(k as int).push(texts[k as int]));
                    assert(views(chunks@) =~= start + texts.take(k + 1));
                }
                k += 1;
            }
            assert(texts.take(windows.len() as int) == texts);
        } else {
            let closes = current.len() > 0 && ((sections && starts_section(line) && current.len()
                > min) || line.len() >= max - current.len());
            if closes {
                flush(&mut chunks, &mut current);
                extend(&mut current, line);
                assert(current@ =~= line@);
            } else if current.len() == 0 {
                extend(&mut current, line);
                assert(current@ =~= line@);
            } else {
                let ghost before = current@;
                current.push('\n');
                extend(&mut current, line);
                assert(current@ =~= before + seq!['\n'] + line@);
            }
        }
        i += 1;
    }
    assert(ls.take(all.len() as int) == ls);
    flush(&mut chunks, &mut current);
    if room < chunks.len() {
        let ghost whole = views(chunks@);
        chunks.truncate(room);
        assert(views(chunks@) =~= whole.take(room as int));
    }
    chunks
}

/// The chunks of a document under a configuration: cut along sections where
/// that is asked for, else by sliding windows; at most `max_chunks` of them.
pub fn chunk_document(text: &str, config: &ChunkingConfig, max_chunks: usize) -> (r: Vec<Chunk>)
    ensures
        chunks_are(r@, document_texts(text@, *config, max_chunks)),
{
    if !config.use_semantic_chunking {
        return chunk_text_internal(text, config.max_chunk_size, config.overlap_size, max_chunks);
    }
    let chars = chars_of(text);
    let pieces = gather(
        &chars,
        config.min_chunk_size,
        config.max_chunk_size,
        config.overlap_size,
        config.respect_section_boundaries,
        max_chunks,
    );
    let ghost texts = views(pieces@);
    let mut out: Vec<Chunk> = Vec::new();
    let mut i: usize = 0;
    while i < pieces.len()
        invariant
            i <= pieces.len(),
            texts == views(pieces@),
            out.len() == i,
            forall|j: int|
                0 <= j < i ==> {
                    &&& (#[trigger] out[j]).text@ == texts[j]
                    &&& out[j].chunk_index == j
                    &&& out[j].id == j % 0x1_0000_0000
                    &&& out[j].document_id == 0
                },
        decreases pieces.len() - i,
    {
        out.push(
            Chunk {
                id: (i as u64 % 0x1_0000_0000u64) as u32,
                document_id: 0,
                text: string_of(&pieces[i]),
                chunk_index: i,
            },
        );
        i += 1;
    }
    out
}

/// A chunk holds between one and `max` characters and neither starts nor
/// ends with whitespace.
pub open spec fn fits(chunk: Seq<char>, max: int) -> bool {
    0 < chunk.len() <= max && !is_space(chunk.first()) && !is_space(chunk.last())
}

proof fn lemma_take_lines(lines: Seq<Seq<char>>, sizes: Sizes)
    requires
        0 <= sizes.room,
    ensures
        take_lines(lines, sizes).current.len() <= sizes.max || take_lines(lines, sizes).current.len()
            == 0,
        forall|i: int|
            0 <= i < take_lines(lines, sizes).chunks.len() ==> fits(
                #[trigger] take_lines(lines, sizes).chunks[i],
                sizes.max,
            ),
    decreases lines.len(),
{
    if lines.len() > 0 {
        let before = take_lines(lines.drop_last(), sizes);
        let line = lines.last();
        let after = take_line(before, line, sizes);
        lemma_take_lines(lines.drop_last(), sizes);
        lemma_trimmed(before.current);
        let closed = flushed(before).chunks;
        assert forall|i: int| 0 <= i < closed.len() implies fits(#[trigger] closed[i], sizes.max) by {
            if i < before.chunks.len() {
                assert(closed[i] == before.chunks[i]);
            }
        }
        if line.len() > sizes.max {
            lemma_chunk_texts(line, sizes.max, sizes.overlap, sizes.room);
            let windows = chunk_texts(line, sizes.max, sizes.overlap, sizes.room);
            assert forall|i: int| 0 <= i < after.chunks.len() implies fits(
                #[trigger] after.chunks[i],
                sizes.max,
            ) by {
                if i < closed.len() {
                    assert(after.chunks[i] == closed[i]);
                } else {
                    assert(after.chunks[i] == windows[i - closed.len()]);
                }
            }
        }
    }
}

/// The chunks that a document is cut into along its sections: at most as many
/// as there is room for, each of one to `max` characters, none starting or
/// ending with whitespace.
pub proof fn lemma_semantic_texts(text: Seq<char>, sizes: Sizes)
    requires
        0 <= sizes.room,
    ensures
        semantic_texts(text, sizes).len() <= sizes.room,
        forall|i: int|
            0 <= i < semantic_texts(text, sizes).len() ==> fits(
                #[trigger] semantic_texts(text, sizes)[i],
                sizes.max,
            ),
{
    let state = take_lines(lines_of(text), sizes);
    lemma_take_lines(lines_of(text), sizes);
    lemma_trimmed(state.current);
    let closed = flushed(state).chunks;
    assert forall|i: int| 0 <= i < closed.len() implies fits(#[trigger] closed[i], sizes.max) by {
        if i < state.chunks.len() {
            assert(closed[i] == state.chunks[i]);
        }
    }
    let out = semantic_texts(text, sizes);
    assert forall|i: int| 0 <= i < out.len() implies fits(#[trigger] out[i], sizes.max) by {
        assert(out[i] == closed[i]);
    }
}

} // verus!
