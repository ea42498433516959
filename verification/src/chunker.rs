//! Cutting a document into bounded, overlapping chunks.
//!
//! A window of at most `size` characters slides over the text. A window that
//! does not reach the end of the text is cut back to the last space among its
//! final hundred characters, or else to the last line feed there, so that
//! words are not split. The next window starts `overlap` characters before the
//! place where the last one stopped, and always after the start of the last
//! one. Each window, trimmed, is a chunk unless nothing is left of it.

use vstd::prelude::*;
use crate::pattern::{find_last, last_at, lemma_last_at, occurs_at};
use crate::text::{chars_of, slice_of, string_of, trim_bounds, trimmed, utf8_len, width_of};
use crate::types::Chunk;

verus! {

/// How far back from the end of a window a word boundary is looked for.
pub const BOUNDARY_SEARCH: usize = 100;

/// Window size where none is configured.
pub const DEFAULT_CHUNK_SIZE: usize = 1000;

/// Overlap where none is configured.
pub const DEFAULT_OVERLAP: usize = 200;

/// Documents are cut off after this many bytes.
pub const MAX_CONTENT_BYTES: usize = 5 * 1024 * 1024;

/// Where the window that starts at `start` ends before any cut.
pub open spec fn window_limit(text: Seq<char>, start: int, size: int) -> int {
    if start + size < text.len() {
        start + size
    } else {
        text.len() as int
    }
}

/// Where the window that starts at `start` is cut: at the last space among
/// its final hundred characters, else at the last line feed there, else at its
/// limit. A window that reaches the end of the text is not cut.
pub open spec fn window_cut(text: Seq<char>, start: int, size: int) -> int {
    let limit = window_limit(text, start, size);
    let from = if limit - BOUNDARY_SEARCH > start {
        limit - BOUNDARY_SEARCH
    } else {
        start
    };
    if limit >= text.len() {
        limit
    } else if last_at(text, ' ', from, limit) >= 0 {
        last_at(text, ' ', from, limit)
    } else if last_at(text, '\n', from, limit) >= 0 {
        last_at(text, '\n', from, limit)
    } else {
        limit
    }
}

/// Where the window that starts at `start` stops: at its cut, and in any case
/// after one character.
pub open spec fn window_stop(text: Seq<char>, start: int, size: int) -> int {
    if window_cut(text, start, size) > start {
        window_cut(text, start, size)
    } else {
        start + 1
    }
}

/// Where the text goes on after the window that starts at `start`: at the
/// stop, or one further where the window was cut at a boundary character.
pub open spec fn window_resume(text: Seq<char>, start: int, size: int) -> int {
    let cut = window_cut(text, start, size);
    if start < cut < window_limit(text, start, size) {
        cut + 1
    } else {
        window_stop(text, start, size)
    }
}

/// Where the window after the one at `start` starts: `overlap` characters
/// before the place where the text goes on, but after `start`; at the end of
/// the text there is no stepping back.
pub open spec fn next_start(text: Seq<char>, start: int, size: int, overlap: int) -> int {
    let resume = window_resume(text, start, size);
    if resume >= text.len() {
        resume
    } else if resume - overlap > start {
        resume - overlap
    } else {
        start + 1
    }
}

/// What one window does: it stops within the text and within `size`
/// characters, the text goes on at or after the stop with only a boundary
/// character left out, and the next window starts later than this one and no
/// later than where the text goes on.
pub proof fn lemma_window(text: Seq<char>, start: int, size: int, overlap: int)
    requires
        0 <= start < text.len(),
        0 < size,
        0 <= overlap,
    ensures
        start < window_stop(text, start, size) <= text.len(),
        window_stop(text, start, size) <= start + size,
        window_stop(text, start, size) <= window_resume(text, start, size) <= window_stop(
            text,
            start,
            size,
        ) + 1,
        window_resume(text, start, size) <= text.len(),
        window_stop(text, start, size) < window_resume(text, start, size) ==> crate::text::is_space(
            text[window_stop(text, start, size)],
        ),
        start < next_start(text, start, size, overlap) <= window_resume(text, start, size),
{
    let limit = window_limit(text, start, size);
    let from = if limit - BOUNDARY_SEARCH > start {
        limit - BOUNDARY_SEARCH
    } else {
        start
    };
    lemma_last_at(text, ' ', from, limit);
    lemma_last_at(text, '\n', from, limit);
}

/// The chunk texts from `start` on, with room for `room` more chunks.
pub open spec fn chunk_texts_from(
    text: Seq<char>,
    start: int,
    size: int,
    overlap: int,
    room: int,
) -> Seq<Seq<char>>
    decreases text.len() - start,
    via chunk_texts_from_decreases
{
    if start < 0 || start >= text.len() || size <= 0 || overlap < 0 || room <= 0 {
        seq![]
    } else {
        let body = trimmed(text.subrange(start, window_stop(text, start, size)));
        let next = next_start(text, start, size, overlap);
        if body.len() > 0 {
            seq![body] + chunk_texts_from(text, next, size, overlap, room - 1)
        } else {
            chunk_texts_from(text, next, size, overlap, room)
        }
    }
}

#[via_fn]
proof fn chunk_texts_from_decreases(
    text: Seq<char>,
    start: int,
    size: int,
    overlap: int,
    room: int,
) {
    if !(start < 0 || start >= text.len() || size <= 0 || overlap < 0 || room <= 0) {
        lemma_window(text, start, size, overlap);
    }
}

/// Where chunking from `start` on stops taking windows: at the end of the
/// text, or earlier where the room for chunks is used up.
pub open spec fn reached_from(
    text: Seq<char>,
    start: int,
    size: int,
    overlap: int,
    room: int,
) -> int
    decreases text.len() - start,
    via reached_from_decreases
{
    if start < 0 || start >= text.len() || size <= 0 || overlap < 0 || room <= 0 {
        start
    } else {
        let body = trimmed(text.subrange(start, window_stop(text, start, size)));
        let next = next_start(text, start, size, overlap);
        if body.len() > 0 {
            reached_from(text, next, size, overlap, room - 1)
        } else {
            reached_from(text, next, size, overlap, room)
        }
    }
}

#[via_fn]
proof fn reached_from_decreases(text: Seq<char>, start: int, size: int, overlap: int, room: int) {
    if !(start < 0 || start >= text.len() || size <= 0 || overlap < 0 || room <= 0) {
        lemma_window(text, start, size, overlap);
    }
}

/// The texts of the chunks of `text`, in order.
pub open spec fn chunk_texts(text: Seq<char>, size: int, overlap: int, max_chunks: int) -> Seq<
    Seq<char>,
> {
    chunk_texts_from(text, 0, size, overlap, max_chunks)
}

/// The number of characters of the longest prefix of `text` that takes at most
/// `max_bytes` bytes in UTF-8.
pub open spec fn prefix_within(text: Seq<char>, max_bytes: int) -> int
    decreases text.len(),
{
    if text.len() == 0 {
        0
    } else if utf8_len(text) <= max_bytes {
        text.len() as int
    } else {
        prefix_within(text.drop_last(), max_bytes)
    }
}

/// `chunks` carry `texts` in order, each with its position as index and,
/// reduced to 32 bits, as provisional id, and with no document yet.
pub open spec fn chunks_are(chunks: Seq<Chunk>, texts: Seq<Seq<char>>) -> bool {
    &&& chunks.len() == texts.len()
    &&& forall|i: int|
        0 <= i < chunks.len() ==> {
            &&& (#[trigger] chunks[i]).text@ == texts[i]
            &&& chunks[i].chunk_index == i
            &&& chunks[i].id == i % 0x1_0000_0000
            &&& chunks[i].document_id == 0
        }
}

/// `(window_stop, window_resume)` for the window at `start`.
fn window(text: &Vec<char>, start: usize, size: usize) -> (r: (usize, usize))
    requires
        start < text.len(),
        0 < size,
    ensures
        r.0 == window_stop(text@, start as int, size as int),
        r.1 == window_resume(text@, start as int, size as int),
        start < r.0 <= r.1 <= text.len(),
{
    let n = text.len();
    let limit: usize = if size < n - start {
        start + size
    } else {
        n
    };
    let from: usize = if limit > BOUNDARY_SEARCH && limit - BOUNDARY_SEARCH > start {
        limit - BOUNDARY_SEARCH
    } else {
        start
    };
    proof {
        lemma_window(text@, start as int, size as int, 0);
        lemma_last_at(text@, ' ', from as int, limit as int);
        lemma_last_at(text@, '\n', from as int, limit as int);
    }
    let cut: usize = if limit >= n {
        limit
    } else {
        match find_last(text, ' ', from, limit) {
            Some(i) => i,
            None => match find_last(text, '\n', from, limit) {
                Some(i) => i,
                None => limit,
            },
        }
    };
    if cut > start {
        if cut < limit {
            (cut, cut + 1)
        } else {
            (cut, cut)
        }
    } else {
        (start + 1, start + 1)
    }
}

/// The chunks of `text`: their texts are `chunk_texts`, and each carries its
/// position as index and, reduced to 32 bits, as provisional id.
pub fn chunk_chars(text: &Vec<char>, size: usize, overlap: usize, max_chunks: usize) -> (r: Vec<
    Chunk,
>)
    ensures
        chunks_are(r@, chunk_texts(text@, size as int, overlap as int, max_chunks as int)),
{
    let n = text.len();
    let mut r: Vec<Chunk> = Vec::new();
    if size == 0 {
        return r;
    }
    let ghost all = chunk_texts(text@, size as int, overlap as int, max_chunks as int);
    let mut start: usize = 0;
    while start < n && r.len() < max_chunks
        invariant
            n == text.len(),
            0 < size,
            start <= n,
            r.len() <= max_chunks,
            all == chunk_texts(text@, size as int, overlap as int, max_chunks as int),
            r.len() <= all.len(),
            all.skip(r.len() as int) == chunk_texts_from(
                text@,
                start as int,
                size as int,
                overlap as int,
                max_chunks - r.len(),
            ),
            forall|i: int|
                0 <= i < r.len() ==> {
                    &&& (#[trigger] r[i]).text@ == all[i]
                    &&& r[i].chunk_index == i
                    &&& r[i].id == i % 0x1_0000_0000
                    &&& r[i].document_id == 0
                },
        decreases n - start,
    {
        let ghost rest = all.skip(r.len() as int);
        let (stop, resume) = window(text, start, size);
        proof {
            lemma_window(text@, start as int, size as int, overlap as int);
        }
        let piece = slice_of(text, start, stop);
        let (a, b) = trim_bounds(&piece);
        let next: usize = if resume >= n {
            resume
        } else if resume > overlap && resume - overlap > start {
            resume - overlap
        } else {
            start + 1
        };
        if a < b {
            let body = slice_of(&piece, a, b);
            let index = r.len();
            proof {
                assert(rest[0] == body@);
                assert(rest.skip(1) == all.skip(index + 1));
                assert(rest.skip(1) == chunk_texts_from(
                    text@,
                    next as int,
                    size as int,
                    overlap as int,
                    max_chunks - index - 1,
                ));
                assert(all[index as int] == rest[0]);
            }
            r.push(
                Chunk {
                    id: (index as u64 % 0x1_0000_0000u64) as u32,
                    document_id: 0,
                    text: string_of(&body),
                    chunk_index: index,
                },
            );
        }
        start = next;
    }
    proof {
        let rest = all.skip(r.len() as int);
        assert(rest.len() == 0);
    }
    r
}

/// The number of leading characters of `text` that fit in `max_bytes`.
fn chars_within(text: &Vec<char>, max_bytes: usize) -> (k: usize)
    ensures
        k == prefix_within(text@, max_bytes as int),
        k <= text.len(),
{
    let n = text.len();
    let mut k: usize = 0;
    let mut used: usize = 0;
    while k < n && width_of(text[k]) <= max_bytes - used
        invariant
            k <= n == text.len(),
            used == utf8_len(text@.take(k as int)),
            used <= max_bytes,
        decreases n - k,
    {
        assert(text@.take(k + 1).drop_last() == text@.take(k as int));
        used = used + width_of(text[k]);
        k += 1;
    }
    proof {
        if k < n {
            assert(text@.take(k + 1).drop_last() == text@.take(k as int));
        }
        lemma_prefix_within(text@, max_bytes as int, k as int);
    }
    k
}

proof fn lemma_utf8_len_prefix(text: Seq<char>, k: int)
    requires
        0 <= k <= text.len(),
    ensures
        0 <= utf8_len(text.take(k)) <= utf8_len(text),
    decreases text.len() - k,
{
    crate::text::lemma_utf8_len_bounds(text.take(k));
    if k < text.len() {
        assert(text.drop_last().take(k) == text.take(k));
        lemma_utf8_len_prefix(text.drop_last(), k);
    } else {
        assert(text.take(k) == text);
    }
}

/// The prefix that fits and cannot be made one character longer is the longest
/// one that fits.
proof fn lemma_prefix_within(text: Seq<char>, max_bytes: int, k: int)
    requires
        0 <= k <= text.len(),
        utf8_len(text.take(k)) <= max_bytes,
        k < text.len() ==> utf8_len(text.take(k + 1)) > max_bytes,
    ensures
        prefix_within(text, max_bytes) == k,
    decreases text.len() - k,
{
    if k == text.len() {
        assert(text.take(k) == text);
    } else {
        lemma_utf8_len_prefix(text, k + 1);
        let shorter = text.drop_last();
        assert(shorter.take(k) == text.take(k));
        if k < shorter.len() {
            assert(shorter.take(k + 1) == text.take(k + 1));
        }
        lemma_prefix_within(shorter, max_bytes, k);
    }
}

/// The chunks of `text` for windows of `chunk_size` characters that overlap
/// by `overlap`, at most `max_chunks` of them. A `chunk_size` of zero gives no
/// chunks.
pub fn chunk_text_internal(text: &str, chunk_size: usize, overlap: usize, max_chunks: usize) -> (r:
    Vec<Chunk>)
    ensures
        chunks_are(r@, chunk_texts(text@, chunk_size as int, overlap as int, max_chunks as int)),
{
    let chars = chars_of(text);
    chunk_chars(&chars, chunk_size, overlap, max_chunks)
}

/// The chunks of a document: of what fits in `MAX_CONTENT_BYTES`, whole
/// characters only, cut with the default window size and overlap.
pub fn chunk_text(text: &str, max_chunks: usize) -> (r: Vec<Chunk>)
    ensures
        chunks_are(
            r@,
            chunk_texts(
                text@.take(prefix_within(text@, MAX_CONTENT_BYTES as int)),
                DEFAULT_CHUNK_SIZE as int,
                DEFAULT_OVERLAP as int,
                max_chunks as int,
            ),
        ),
{
    let chars = chars_of(text);
    let keep = chars_within(&chars, MAX_CONTENT_BYTES);
    let kept = slice_of(&chars, 0, keep);
    chunk_chars(&kept, DEFAULT_CHUNK_SIZE, DEFAULT_OVERLAP, max_chunks)
}

/// Text without characters has no chunks.
pub proof fn lemma_empty_text_has_no_chunks(size: int, overlap: int, max_chunks: int)
    ensures
        chunk_texts(Seq::<char>::empty(), size, overlap, max_chunks).len() == 0,
{
}

/// Every chunk holds between one and `size` characters and neither starts nor
/// ends with whitespace; there are at most `room` chunks, and no more than
/// there are characters left.
pub proof fn lemma_chunks_bounded(text: Seq<char>, start: int, size: int, overlap: int, room: int)
    requires
        0 <= room,
    ensures
        chunk_texts_from(text, start, size, overlap, room).len() <= room,
        0 <= start <= text.len() ==> chunk_texts_from(text, start, size, overlap, room).len()
            <= text.len() - start,
        forall|i: int|
            0 <= i < chunk_texts_from(text, start, size, overlap, room).len() ==> {
                let c = #[trigger] chunk_texts_from(text, start, size, overlap, room)[i];
                &&& 0 < c.len() <= size
                &&& !crate::text::is_space(c.first())
                &&& !crate::text::is_space(c.last())
            },
    decreases text.len() - start,
{
    if !(start < 0 || start >= text.len() || size <= 0 || overlap < 0 || room <= 0) {
        lemma_window(text, start, size, overlap);
        let piece = text.subrange(start, window_stop(text, start, size));
        let body = trimmed(piece);
        let next = next_start(text, start, size, overlap);
        crate::text::lemma_trimmed(piece);
        let all = chunk_texts_from(text, start, size, overlap, room);
        if body.len() > 0 {
            lemma_chunks_bounded(text, next, size, overlap, room - 1);
            let tail = chunk_texts_from(text, next, size, overlap, room - 1);
            assert forall|i: int| 0 <= i < all.len() implies {
                let c = #[trigger] all[i];
                &&& 0 < c.len() <= size
                &&& !crate::text::is_space(c.first())
                &&& !crate::text::is_space(c.last())
            } by {
                if i > 0 {
                    assert(all[i] == tail[i - 1]);
                }
            }
        } else {
            lemma_chunks_bounded(text, next, size, overlap, room);
        }
    }
}

/// The chunks of a text: at most `max_chunks`, each of one to `size`
/// characters, none starting or ending with whitespace.
pub proof fn lemma_chunk_texts(text: Seq<char>, size: int, overlap: int, max_chunks: int)
    requires
        0 <= max_chunks,
    ensures
        chunk_texts(text, size, overlap, max_chunks).len() <= max_chunks,
        chunk_texts(text, size, overlap, max_chunks).len() <= text.len(),
        forall|i: int|
            0 <= i < chunk_texts(text, size, overlap, max_chunks).len() ==> {
                let c = #[trigger] chunk_texts(text, size, overlap, max_chunks)[i];
                &&& 0 < c.len() <= size
                &&& !crate::text::is_space(c.first())
                &&& !crate::text::is_space(c.last())
            },
{
    lemma_chunks_bounded(text, 0, size, overlap, max_chunks);
}

/// `text` holds neither a space nor a line feed.
pub open spec fn unbroken(text: Seq<char>) -> bool {
    forall|i: int| 0 <= i < text.len() ==> (#[trigger] text[i]) != ' ' && text[i] != '\n'
}

/// In a text without spaces and line feeds no window is cut back: from
/// `start` on there are at most as many chunks as steps of `size - overlap`
/// characters fit in what is left, and one more.
pub proof fn lemma_unbroken_count_from(
    text: Seq<char>,
    start: int,
    size: int,
    overlap: int,
    room: int,
)
    requires
        unbroken(text),
        0 <= overlap < size,
        0 <= start <= text.len(),
    ensures
        chunk_texts_from(text, start, size, overlap, room).len() <= (text.len() - start) / (size
            - overlap) + 1,
    decreases text.len() - start,
{
    let step = size - overlap;
    let left = text.len() - start;
    assert(left / step >= 0) by (nonlinear_arith)
        requires
            left >= 0,
            step > 0,
    ;
    if start < text.len() && room > 0 {
        lemma_window(text, start, size, overlap);
        let limit = window_limit(text, start, size);
        let from = if limit - BOUNDARY_SEARCH > start {
            limit - BOUNDARY_SEARCH
        } else {
            start
        };
        lemma_last_at(text, ' ', from, limit);
        lemma_last_at(text, '\n', from, limit);
        assert(window_cut(text, start, size) == limit);
        let body = trimmed(text.subrange(start, window_stop(text, start, size)));
        let next = next_start(text, start, size, overlap);
        let rest = if body.len() > 0 {
            room - 1
        } else {
            room
        };
        if limit < text.len() {
            assert(next == start + step);
            lemma_unbroken_count_from(text, next, size, overlap, rest);
            vstd::arithmetic::div_mod::lemma_div_plus_one(text.len() - next, step);
            assert(step + (text.len() - next) == left);
        } else {
            assert(chunk_texts_from(text, next, size, overlap, rest).len() == 0);
        }
    }
}

/// A text without spaces and line feeds has at most as many chunks as steps
/// of `size - overlap` characters fit in it, and one more.
pub proof fn lemma_unbroken_count(text: Seq<char>, size: int, overlap: int, max_chunks: int)
    requires
        unbroken(text),
        0 <= overlap < size,
    ensures
        chunk_texts(text, size, overlap, max_chunks).len() <= (text.len() as int) / (size - overlap) + 1,
{
    lemma_unbroken_count_from(text, 0, size, overlap, max_chunks);
}

/// `chunk` stands in `text` over the position `p`.
pub open spec fn covers(text: Seq<char>, chunk: Seq<char>, p: int) -> bool {
    exists|a: int| occurs_at(text, chunk, a) && a <= p < a + chunk.len()
}

/// One of `chunks` stands in `text` over the position `p`.
pub open spec fn covered(text: Seq<char>, chunks: Seq<Seq<char>>, p: int) -> bool {
    exists|k: int| 0 <= k < chunks.len() && covers(text, #[trigger] chunks[k], p)
}

/// Every character that is not whitespace, from `start` up to where chunking
/// stopped, lies in a chunk.
pub proof fn lemma_cover_from(text: Seq<char>, start: int, size: int, overlap: int, room: int)
    requires
        0 <= start,
    ensures
        forall|p: int|
            start <= p < reached_from(text, start, size, overlap, room) && p < text.len()
                && !crate::text::is_space(text[p]) ==> covered(
                text,
                chunk_texts_from(text, start, size, overlap, room),
                p,
            ),
    decreases text.len() - start,
{
    if !(start < 0 || start >= text.len() || size <= 0 || overlap < 0 || room <= 0) {
        lemma_window(text, start, size, overlap);
        let stop = window_stop(text, start, size);
        let piece = text.subrange(start, stop);
        let body = trimmed(piece);
        let next = next_start(text, start, size, overlap);
        let all = chunk_texts_from(text, start, size, overlap, room);
        let reached = reached_from(text, start, size, overlap, room);
        crate::text::lemma_trimmed(piece);
        let lead = crate::text::leading_spaces(piece);
        let left = if body.len() > 0 {
            room - 1
        } else {
            room
        };
        let tail = chunk_texts_from(text, next, size, overlap, left);
        lemma_cover_from(text, next, size, overlap, left);
        assert forall|p: int|
            start <= p < reached && p < text.len() && !crate::text::is_space(
                text[p],
            ) implies covered(text, all, p) by {
            if p < stop {
                let q = p - start;
                assert(piece[q] == text[p]);
                if q < lead {
                    assert(piece.take(lead)[q] == piece[q]);
                }
                if q >= lead + body.len() {
                    assert(piece.skip(lead + body.len())[q - lead - body.len()] == piece[q]);
                }
                assert(body == piece.subrange(lead, lead + body.len()));
                assert(text.subrange(start + lead, start + lead + body.len()) == body);
                assert(occurs_at(text, body, start + lead));
                assert(all[0] == body);
                assert(covers(text, all[0], p));
            } else {
                assert(p >= next);
                assert(covered(text, tail, p));
                let k = choose|k: int| 0 <= k < tail.len() && covers(text, #[trigger] tail[k], p);
                if body.len() > 0 {
                    assert(all[k + 1] == tail[k]);
                } else {
                    assert(all[k] == tail[k]);
                }
            }
        }
    }
}

/// Where fewer chunks came out than there was room for, chunking went to the
/// end of the text.
pub proof fn lemma_reached_end(text: Seq<char>, start: int, size: int, overlap: int, room: int)
    requires
        0 <= start,
        0 < size,
        0 <= overlap,
        chunk_texts_from(text, start, size, overlap, room).len() < room,
    ensures
        reached_from(text, start, size, overlap, room) >= text.len(),
    decreases text.len() - start,
{
    if !(start < 0 || start >= text.len() || size <= 0 || overlap < 0 || room <= 0) {
        lemma_window(text, start, size, overlap);
        let body = trimmed(text.subrange(start, window_stop(text, start, size)));
        let next = next_start(text, start, size, overlap);
        if body.len() > 0 {
            lemma_reached_end(text, next, size, overlap, room - 1);
        } else {
            lemma_reached_end(text, next, size, overlap, room);
        }
    }
}

/// Unless the limit on the number of chunks was reached, every character of
/// the text that is not whitespace lies in a chunk, and that chunk stands in
/// the text as it is.
pub proof fn lemma_chunks_cover(text: Seq<char>, size: int, overlap: int, max_chunks: int)
    requires
        0 < size,
        0 <= overlap,
        chunk_texts(text, size, overlap, max_chunks).len() < max_chunks,
    ensures
        forall|p: int|
            0 <= p < text.len() && !crate::text::is_space(#[trigger] text[p]) ==> covered(
                text,
                chunk_texts(text, size, overlap, max_chunks),
                p,
            ),
{
    lemma_reached_end(text, 0, size, overlap, max_chunks);
    lemma_cover_from(text, 0, size, overlap, max_chunks);
}

} // verus!
