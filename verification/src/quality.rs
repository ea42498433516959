//! The four-level verdict on retrieved context.
//!
//! The context text is cut at each chunk header. Every part that holds a
//! content marker is scored from that marker on, and the mean of the scores is
//! held against fixed thresholds.

use vstd::prelude::*;
use crate::pattern::{find, first_occurrence, lemma_first_occurrence, occurs_in, pieces, split};
use crate::scoring::{
    exact_matches,
    key_words,
    lemma_relevance_wf,
    long_words,
    marker_bonus,
    partial_matches,
    relevance,
    relevance_scale,
    relevance_units,
    score_words,
    shared_terms,
    technical_terms,
};
use crate::split::words;
use crate::text::{chars_of, lowercase, lowercase_of, slice_of, views};
use crate::types::ContextQuality;

verus! {

/// The text that starts each chunk header.
pub open spec fn chunk_header() -> Seq<char> {
    "--- Chunk"@
}

/// The marker from which a chunk is scored.
pub open spec fn content_marker() -> Seq<char> {
    "Content:"@
}

/// Of the parts that hold a content marker, what each holds from its first
/// marker on, in order.
pub open spec fn marked_contents(parts: Seq<Seq<char>>) -> Seq<Seq<char>>
    decreases parts.len(),
{
    if parts.len() == 0 {
        seq![]
    } else if occurs_in(parts.last(), content_marker()) {
        marked_contents(parts.drop_last()).push(
            parts.last().skip(first_occurrence(parts.last(), content_marker()) as int),
        )
    } else {
        marked_contents(parts.drop_last())
    }
}

/// The chunk contents that a context text holds.
pub open spec fn chunk_contents(context: Seq<char>) -> Seq<Seq<char>> {
    marked_contents(pieces(context, chunk_header()))
}

/// The sum of the scores' units over `contents`.
pub open spec fn total_units(contents: Seq<Seq<char>>, question: Seq<char>) -> int
    decreases contents.len(),
{
    if contents.len() == 0 {
        0
    } else {
        total_units(contents.drop_last(), question) + relevance(contents.last(), question).units
    }
}

/// The verdict for `count` scores that add up to `total / scale`: the mean is
/// held against four fifths, three fifths and two fifths. No scores give
/// `Poor`.
pub open spec fn verdict(total: int, scale: int, count: int) -> ContextQuality {
    if count <= 0 {
        ContextQuality::Poor
    } else if 5 * total >= 4 * (scale * count) {
        ContextQuality::Excellent
    } else if 5 * total >= 3 * (scale * count) {
        ContextQuality::Good
    } else if 5 * total >= 2 * (scale * count) {
        ContextQuality::Acceptable
    } else {
        ContextQuality::Poor
    }
}

/// The quality of a context text for a question.
pub open spec fn assessed(context: Seq<char>, question: Seq<char>) -> ContextQuality {
    let contents = chunk_contents(context);
    verdict(
        total_units(contents, question),
        relevance_scale(lowercase_of(question)),
        contents.len() as int,
    )
}

/// Whether `whole * scale + rest` is at least `fifths / 5` of `scale * count`.
fn mean_reaches(whole: u128, rest: u128, scale: u128, count: u128, fifths: u128) -> (r: bool)
    requires
        rest < scale <= 40 * usize::MAX,
        whole <= count <= usize::MAX,
        1 <= fifths <= 4,
    ensures
        r == (5 * (whole * scale + rest) >= fifths * (scale * count)),
{
    assert(fifths * count <= 4 * count) by (nonlinear_arith)
        requires
            fifths <= 4,
            0 <= count,
    ;
    let need: u128 = fifths * count;
    let have: u128 = 5 * whole;
    proof {
        assert(fifths * (scale * count) == scale * (fifths * count)) by (nonlinear_arith);
        assert(5 * (whole * scale) == scale * (5 * whole)) by (nonlinear_arith);
    }
    if need <= have {
        assert(scale * need <= scale * have) by (nonlinear_arith)
            requires
                need <= have,
                0 <= scale,
        ;
        true
    } else {
        let gap: u128 = need - have;
        assert(scale * need == scale * have + scale * gap) by (nonlinear_arith)
            requires
                need == have + gap,
        ;
        if gap >= 5 {
            assert(scale * gap >= scale * 5) by (nonlinear_arith)
                requires
                    gap >= 5,
                    0 <= scale,
            ;
            false
        } else {
            assert(scale * gap <= scale * 4) by (nonlinear_arith)
                requires
                    gap <= 4,
                    0 <= scale,
            ;
            5 * rest >= scale * gap
        }
    }
}

/// The verdict for `count` scores that add up to `whole + rest / scale`.
pub fn judge(whole: u128, rest: u128, scale: u128, count: u128) -> (q: ContextQuality)
    requires
        rest < scale <= 40 * usize::MAX,
        whole <= count <= usize::MAX,
    ensures
        q == verdict(whole * scale + rest, scale as int, count as int),
{
    if count == 0 {
        ContextQuality::Poor
    } else if mean_reaches(whole, rest, scale, count, 4) {
        ContextQuality::Excellent
    } else if mean_reaches(whole, rest, scale, count, 3) {
        ContextQuality::Good
    } else if mean_reaches(whole, rest, scale, count, 2) {
        ContextQuality::Acceptable
    } else {
        ContextQuality::Poor
    }
}

/// The quality of a context text for a question.
pub fn assess_context_quality(context: &str, question: &str) -> (q: ContextQuality)
    ensures
        q == assessed(context@, question@),
{
    let text = chars_of(context);
    let question_lower = lowercase(&chars_of(question));
    let question_words = key_words(&question_lower, 2);
    let header = chars_of("--- Chunk");
    let marker = chars_of("Content:");
    let parts = split(&text, &header);
    let ghost ps = pieces(context@, chunk_header());
    let scale: u128 = if question_words.len() > 0 {
        40 * question_words.len() as u128
    } else {
        40
    };
    let mut whole: u128 = 0;
    let mut rest: u128 = 0;
    let mut count: u128 = 0;
    let mut i: usize = 0;
    while i < parts.len()
        invariant
            i <= parts.len(),
            views(parts@) == ps,
            marker@ == content_marker(),
            question_lower@ == lowercase_of(question@),
            views(question_words@) == long_words(words(question_lower@), 2),
            scale == relevance_scale(question_lower@),
            0 < scale <= 40 * usize::MAX,
            rest < scale,
            whole <= count <= i,
            count == marked_contents(ps.take(i as int)).len(),
            whole * scale + rest == total_units(marked_contents(ps.take(i as int)), question@),
        decreases parts.len() - i,
    {
        proof {
            assert(ps.take(i + 1).drop_last() == ps.take(i as int));
            assert(ps.take(i + 1).last() == parts@[i as int]@);
        }
        let part = &parts[i];
        match find(part, &marker) {
            None => {},
            Some(at) => {
                let content = slice_of(part, at, part.len());
                let content_lower = lowercase(&content);
                let score = score_words(
                    &content_lower,
                    &question_lower,
                    &question_words,
                    content.len(),
                );
                proof {
                    lemma_first_occurrence(part@, marker@);
                    assert(content@ == part@.skip(at as int));
                    let before = marked_contents(ps.take(i as int));
                    let after = marked_contents(ps.take(i + 1));
                    assert(after == before.push(content@));
                    assert(after.drop_last() == before);
                    assert(score == relevance(content@, question@));
                    assert((whole + 1) * scale == whole * scale + scale) by (nonlinear_arith);
                }
                rest = rest + score.units;
                if rest >= scale {
                    rest = rest - scale;
                    whole = whole + 1;
                }
                count = count + 1;
            },
        }
        i += 1;
    }
    assert(ps.take(parts.len() as int) == ps);
    judge(whole, rest, scale, count)
}

/// The verdict does not fall when the total of the scores grows.
pub proof fn lemma_verdict_monotonic(low: int, high: int, scale: int, count: int)
    requires
        low <= high,
    ensures
        verdict(low, scale, count).rank() <= verdict(high, scale, count).rank(),
{
}

/// The score does not fall when any of its parts grows.
pub proof fn lemma_relevance_units_monotonic(
    words: int,
    exact: (int, int),
    partial: (int, int),
    terms: (int, int),
    bonus: (int, int),
)
    requires
        exact.0 <= exact.1,
        partial.0 <= partial.1,
        terms.0 <= terms.1,
        bonus.0 <= bonus.1,
    ensures
        relevance_units(words, exact.0, partial.0, terms.0, bonus.0) <= relevance_units(
            words,
            exact.1,
            partial.1,
            terms.1,
            bonus.1,
        ),
{
    let m: int = if words > 0 {
        words
    } else {
        1
    };
    assert(m * (terms.0 + bonus.0) <= m * (terms.1 + bonus.1)) by (nonlinear_arith)
        requires
            0 < m,
            terms.0 + bonus.0 <= terms.1 + bonus.1,
    ;
}

/// The number of the question's words that a chunk holds verbatim.
pub open spec fn verbatim_words(content: Seq<char>, question: Seq<char>) -> int {
    exact_matches(long_words(words(lowercase_of(question)), 2), words(lowercase_of(content)))
}

/// The number of the question's words that overlap with a word of the chunk.
pub open spec fn overlapping_words(content: Seq<char>, question: Seq<char>) -> int {
    partial_matches(long_words(words(lowercase_of(question)), 2), words(lowercase_of(content)))
}

/// The fortieths that a chunk's score has from shared technical terms and
/// from the bonuses.
pub open spec fn other_credit(content: Seq<char>, question: Seq<char>) -> int {
    shared_terms(technical_terms(), lowercase_of(question), lowercase_of(content)) + marker_bonus(
        lowercase_of(content),
        lowercase_of(question),
        content.len() as int,
    )
}

/// The part of a chunk's score that does not come from words found verbatim,
/// in the units of the score.
pub open spec fn rest_of_score(content: Seq<char>, question: Seq<char>) -> int {
    let n = long_words(words(lowercase_of(question)), 2).len() as int;
    if n > 0 {
        12 * overlapping_words(content, question) + n * other_credit(content, question)
    } else {
        other_credit(content, question)
    }
}

/// For contexts of a single chunk, more of the question's words found
/// verbatim never lowers the verdict, as long as the rest of the score (from
/// overlapping words, shared technical terms and the bonuses) does not
/// shrink.
pub proof fn lemma_assess_monotonic(first: Seq<char>, second: Seq<char>, question: Seq<char>)
    requires
        chunk_contents(first).len() == 1,
        chunk_contents(second).len() == 1,
        long_words(words(lowercase_of(question)), 2).len() <= usize::MAX,
        verbatim_words(chunk_contents(first)[0], question) < verbatim_words(
            chunk_contents(second)[0],
            question,
        ),
        rest_of_score(chunk_contents(first)[0], question) <= rest_of_score(
            chunk_contents(second)[0],
            question,
        ),
    ensures
        assessed(first, question).rank() <= assessed(second, question).rank(),
{
    let q = lowercase_of(question);
    let a = chunk_contents(first)[0];
    let b = chunk_contents(second)[0];
    lemma_relevance_wf(lowercase_of(a), q, a.len() as int);
    lemma_relevance_wf(lowercase_of(b), q, b.len() as int);
    reveal_with_fuel(total_units, 2);
    assert(chunk_contents(first).last() == a);
    assert(chunk_contents(second).last() == b);
    assert(total_units(chunk_contents(first), question) == relevance(a, question).units);
    assert(total_units(chunk_contents(second), question) == relevance(b, question).units);
    lemma_verdict_monotonic(
        relevance(a, question).units as int,
        relevance(b, question).units as int,
        relevance_scale(q),
        1,
    );
}

} // verus!
