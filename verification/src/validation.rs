//! Notes that are put behind an answer: a caveat where the answer misses the
//! question, a confidence label, and a note where no source is named.

use vstd::prelude::*;
use crate::pattern::{contains, occurs_in};
use crate::scoring::{key_words, long_words};
use crate::split::words;
use crate::text::{chars_of, lowercase, lowercase_of, push_str, string_of, views};
use crate::types::ContextQuality;

verus! {

/// How many of `ws` stand in `text`.
pub open spec fn words_found(ws: Seq<Seq<char>>, text: Seq<char>) -> int
    decreases ws.len(),
{
    if ws.len() == 0 {
        0
    } else {
        words_found(ws.drop_last(), text) + if occurs_in(text, ws.last()) {
            1int
        } else {
            0int
        }
    }
}

/// The words of a question that an answer has to take up: those of more than
/// three bytes, in lowercase.
pub open spec fn question_words(question: Seq<char>) -> Seq<Seq<char>> {
    long_words(words(lowercase_of(question)), 3)
}

/// Whether an answer addresses a question: at least half of the question's
/// words stand in the answer, letter case aside. A question without such
/// words is not addressed.
pub open spec fn addresses(answer: Seq<char>, question: Seq<char>) -> bool {
    let ws = question_words(question);
    ws.len() > 0 && 2 * words_found(ws, lowercase_of(answer)) >= ws.len()
}

/// Whether the lowercase answer addresses the question with these words.
pub fn covers_words(answer_lower: &Vec<char>, question_words: &Vec<Vec<char>>) -> (r: bool)
    ensures
        r == (question_words.len() > 0 && 2 * words_found(views(question_words@), answer_lower@)
            >= question_words.len()),
{
    let ghost ws = views(question_words@);
    let mut found: u128 = 0;
    let mut i: usize = 0;
    while i < question_words.len()
        invariant
            i <= question_words.len(),
            ws == views(question_words@),
            found == words_found(ws.take(i as int), answer_lower@),
            found <= i,
        decreases question_words.len() - i,
    {
        proof {
            assert(ws.take(i + 1).drop_last() == ws.take(i as int));
            assert(ws.take(i + 1).last() == question_words[i as int]@);
        }
        if contains(answer_lower, &question_words[i]) {
            found += 1;
        }
        i += 1;
    }
    assert(ws.take(question_words.len() as int) == ws);
    question_words.len() > 0 && 2 * found >= question_words.len() as u128
}

/// Whether an answer addresses a question.
pub fn answer_addresses_question(answer: &str, question: &str) -> (r: bool)
    ensures
        r == addresses(answer@, question@),
{
    let answer_lower = lowercase(&chars_of(answer));
    let question_lower = lowercase(&chars_of(question));
    let ws = key_words(&question_lower, 3);
    covers_words(&answer_lower, &ws)
}

/// The caveat for an answer that misses the question.
pub open spec fn coverage_caveat() -> Seq<char> {
    "\n\nNote: This answer may not fully address your specific question. Consider rephrasing or providing more context."@
}

/// The confidence label for a context quality.
pub open spec fn confidence_note(quality: ContextQuality) -> Seq<char> {
    match quality {
        ContextQuality::Excellent => "\n\nConfidence: High - Based on comprehensive and relevant information."@,
        ContextQuality::Good => "\n\nConfidence: Good - Based on relevant information with some gaps."@,
        ContextQuality::Acceptable => "\n\nConfidence: Moderate - Based on limited but relevant information."@,
        ContextQuality::Poor => "\n\nConfidence: Low - Limited relevant information available."@,
    }
}

/// The note for an answer whose context names no source.
pub open spec fn attribution_note() -> Seq<char> {
    "\n\nNote: Source information not available for this answer."@
}

/// What the three checks are switched to.
#[derive(Debug, Clone, Copy, PartialEq, Eq, Structural)]
pub struct Checks {
    /// Add a caveat where the answer misses the question.
    pub coverage: bool,
    /// Add a confidence label.
    pub confidence: bool,
    /// Add a note where the context names no source.
    pub attribution: bool,
}

/// What is put behind an answer.
pub open spec fn notes(
    answer: Seq<char>,
    question: Seq<char>,
    context: Seq<char>,
    quality: ContextQuality,
    checks: Checks,
) -> Seq<char> {
    (if checks.coverage && !addresses(answer, question) {
        coverage_caveat()
    } else {
        seq![]
    }) + (if checks.confidence {
        confidence_note(quality)
    } else {
        seq![]
    }) + (if checks.attribution && !occurs_in(context, "Source:"@) {
        attribution_note()
    } else {
        seq![]
    })
}

/// The answer with its notes behind it.
pub open spec fn validated(
    answer: Seq<char>,
    question: Seq<char>,
    context: Seq<char>,
    quality: ContextQuality,
    checks: Checks,
) -> Seq<char> {
    answer + notes(answer, question, context, quality, checks)
}

/// The answer with its notes behind it. The answer itself stays as it is.
pub fn validate_and_enhance_answer(
    answer: &str,
    question: &str,
    context: &str,
    quality: ContextQuality,
    checks: Checks,
) -> (r: String)
    ensures
        r@ == validated(answer@, question@, context@, quality, checks),
        answer@.is_prefix_of(r@),
{
    let mut out = chars_of(answer);
    if checks.coverage && !answer_addresses_question(answer, question) {
        push_str(
            &mut out,
            "\n\nNote: This answer may not fully address your specific question. Consider rephrasing or providing more context.",
        );
    }
    if checks.confidence {
        match quality {
            ContextQuality::Excellent => {
                push_str(
                    &mut out,
                    "\n\nConfidence: High - Based on comprehensive and relevant information.",
                );
            },
            ContextQuality::Good => {
                push_str(
                    &mut out,
                    "\n\nConfidence: Good - Based on relevant information with some gaps.",
                );
            },
            ContextQuality::Acceptable => {
                push_str(
                    &mut out,
                    "\n\nConfidence: Moderate - Based on limited but relevant information.",
                );
            },
            ContextQuality::Poor => {
                push_str(&mut out, "\n\nConfidence: Low - Limited relevant information available.");
            },
        }
    }
    if checks.attribution {
        let text = chars_of(context);
        let marker = chars_of("Source:");
        if !contains(&text, &marker) {
            push_str(&mut out, "\n\nNote: Source information not available for this answer.");
        }
    }
    assert(out@ =~= validated(answer@, question@, context@, quality, checks));
    assert(out@.subrange(0, answer@.len() as int) =~= answer@);
    string_of(&out)
}

/// With every check switched off the answer comes back unchanged.
pub proof fn lemma_no_checks(
    answer: Seq<char>,
    question: Seq<char>,
    context: Seq<char>,
    quality: ContextQuality,
)
    ensures
        validated(
            answer,
            question,
            context,
            quality,
            Checks { coverage: false, confidence: false, attribution: false },
        ) == answer,
{
    assert(validated(
        answer,
        question,
        context,
        quality,
        Checks { coverage: false, confidence: false, attribution: false },
    ) =~= answer);
}

} // verus!
