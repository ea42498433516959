//! The answer strategies: from context that allows it, a generated or an
//! extracted answer; from poor context, a generic explanation or a plain list.

use vstd::prelude::*;
use crate::key_info::{find_key_information, has_key_information, key_information};
use crate::number::{decimal, push_decimal};
use crate::pattern::{contains, occurs_in, remove_all, without};
use crate::split::{lines, lines_of};
use crate::text::{
    all_spaces,
    chars_of,
    extend,
    lemma_trimmed,
    lemma_views_push,
    push_str,
    slice_of,
    string_of,
    trim_bounds,
    views,
};
use crate::types::ContextQuality;

verus! {

/// How many lines of content a plain answer shows, and how many lines of the
/// context a fallback answer looks at.
pub const SHOWN_LINES: usize = 3;

/// How many characters of a line a fallback answer shows.
pub const SNIPPET_CHARS: usize = 100;

/// What a generated answer holds where the model gave none.
pub open spec fn generation_failure() -> Seq<char> {
    "I couldn't generate a response"@
}

/// What is said where the context holds nothing for the question.
pub open spec fn nothing_found() -> Seq<char> {
    "Based on the available information, I couldn't find specific details to answer your question. Consider rephrasing your question or indexing more relevant documents."@
}

/// What an extracted answer starts with.
pub open spec fn standard_header() -> Seq<char> {
    "Based on the indexed documents, here's what I found:\n\n"@
}

/// The extracted answer: the key information under a header, or the notice
/// that nothing was found.
pub open spec fn standard_response(context: Seq<char>, question: Seq<char>) -> Seq<char> {
    if has_key_information(context, question) {
        standard_header() + key_information(context, question)
    } else {
        nothing_found()
    }
}

/// The extracted answer.
pub fn generate_standard_rag_response(question: &str, context: &str) -> (r: String)
    ensures
        r@ == standard_response(context@, question@),
{
    let (found, info) = find_key_information(context, question);
    if found {
        let mut out = chars_of("Based on the indexed documents, here's what I found:\n\n");
        push_str(&mut out, info.as_str());
        string_of(&out)
    } else {
        let out = chars_of(
            "Based on the available information, I couldn't find specific details to answer your question. Consider rephrasing your question or indexing more relevant documents.",
        );
        string_of(&out)
    }
}

/// Whether a generated answer can be used: there is one, it is not empty, and
/// it does not say that generation failed.
pub open spec fn usable_generation(generated: Option<Seq<char>>) -> bool {
    generated is Some && generated->0.len() > 0 && !occurs_in(generated->0, generation_failure())
}

/// The answer from good context: the generated one where it can be used, else
/// the extracted one.
pub open spec fn advanced_response(
    generated: Option<Seq<char>>,
    context: Seq<char>,
    question: Seq<char>,
) -> Seq<char> {
    if usable_generation(generated) {
        generated->0
    } else {
        standard_response(context, question)
    }
}

/// The text of a generated answer, if there is one.
pub open spec fn text_of(generated: Option<&str>) -> Option<Seq<char>> {
    match generated {
        Some(s) => Some(s@),
        None => None,
    }
}

/// The answer from good context. `generated` is what the language model
/// answered, if there is one and it answered.
pub fn generate_advanced_rag_response(question: &str, context: &str, generated: Option<&str>) -> (r:
    String)
    ensures
        r@ == advanced_response(text_of(generated), context@, question@),
{
    match generated {
        Some(answer) => {
            let chars = chars_of(answer);
            let failure = chars_of("I couldn't generate a response");
            if chars.len() > 0 && !contains(&chars, &failure) {
                return string_of(&chars);
            }
        },
        None => {},
    }
    generate_standard_rag_response(question, context)
}

/// What a fallback answer starts with.
pub open spec fn fallback_preamble() -> Seq<char> {
    "I don't have enough specific information to provide a detailed answer to your question. However, based on the project structure, this appears to be a semantic search and RAG system.\n\nTo get better answers, consider:\n1. Indexing more documentation about the topic\n2. Using more specific search terms\n3. Checking if the documents are properly indexed\n\n"@
}

/// The first `n` characters of `s`, or all of them where there are fewer.
pub open spec fn first_chars(s: Seq<char>, n: int) -> Seq<char> {
    if 0 <= n < s.len() {
        s.take(n)
    } else {
        s
    }
}

/// The snippets of a list of lines: for each line that holds a content
/// marker, and of which something is left without the content labels, a
/// bullet with its first hundred characters.
pub open spec fn snippets(lines: Seq<Seq<char>>) -> Seq<char>
    decreases lines.len(),
{
    if lines.len() == 0 {
        seq![]
    } else if occurs_in(lines.last(), "Content:"@) && without(lines.last(), "Content: "@).len() > 0 {
        snippets(lines.drop_last()) + "\u{2022} "@ + first_chars(
            without(lines.last(), "Content: "@),
            SNIPPET_CHARS as int,
        ) + "\n"@
    } else {
        snippets(lines.drop_last())
    }
}

/// The first `n` of `lines`, or all of them where there are fewer.
pub open spec fn first_lines(lines: Seq<Seq<char>>, n: int) -> Seq<Seq<char>> {
    if 0 <= n < lines.len() {
        lines.take(n)
    } else {
        lines
    }
}

/// The answer from poor context: a generic explanation with advice, and,
/// unless the context is blank, the snippets of its first three lines.
pub open spec fn fallback_response(context: Seq<char>) -> Seq<char> {
    if all_spaces(context) {
        fallback_preamble()
    } else {
        fallback_preamble() + "Available context (limited):\n"@ + snippets(
            first_lines(lines_of(context), SHOWN_LINES as int),
        )
    }
}

/// The answer from poor context.
pub fn generate_fallback_response(context: &str) -> (r: String)
    ensures
        r@ == fallback_response(context@),
{
    let text = chars_of(context);
    let mut out = chars_of(
        "I don't have enough specific information to provide a detailed answer to your question. However, based on the project structure, this appears to be a semantic search and RAG system.\n\nTo get better answers, consider:\n1. Indexing more documentation about the topic\n2. Using more specific search terms\n3. Checking if the documents are properly indexed\n\n",
    );
    let (from, to) = trim_bounds(&text);
    proof {
        lemma_trimmed(text@);
    }
    if from < to {
        push_str(&mut out, "Available context (limited):\n");
        let all = lines(&text);
        let marker = chars_of("Content:");
        let label = chars_of("Content: ");
        let shown: usize = if all.len() > SHOWN_LINES {
            SHOWN_LINES
        } else {
            all.len()
        };
        let ghost ls = first_lines(lines_of(context@), SHOWN_LINES as int);
        let ghost start = out@;
        let mut i: usize = 0;
        assert(start + snippets(ls.take(0)) =~= start);
        while i < shown
            invariant
                i <= shown <= all.len(),
                shown == ls.len(),
                forall|j: int| 0 <= j < shown ==> ls[j] == views(all@)[j],
                marker@ == "Content:"@,
                label@ == "Content: "@,
                out@ == start + snippets(ls.take(i as int)),
            decreases shown - i,
        {
            proof {
                assert(ls.take(i + 1).drop_last() == ls.take(i as int));
                assert(ls.take(i + 1).last() == all[i as int]@);
            }
            if contains(&all[i], &marker) {
                let content = remove_all(&all[i], &label);
                if content.len() > 0 {
                    let keep: usize = if content.len() > SNIPPET_CHARS {
                        SNIPPET_CHARS
                    } else {
                        content.len()
                    };
                    let head = slice_of(&content, 0, keep);
                    assert(head@ =~= first_chars(content@, SNIPPET_CHARS as int));
                    push_str(&mut out, "\u{2022} ");
                    extend(&mut out, &head);
                    push_str(&mut out, "\n");
                    assert(out@ =~= start + (snippets(ls.take(i as int)) + "\u{2022} "@ + head@
                        + "\n"@));
                }
            }
            i += 1;
        }
        assert(ls.take(shown as int) == ls);
        assert(out@ =~= fallback_preamble() + "Available context (limited):\n"@ + snippets(ls));
    }
    string_of(&out)
}

/// The contents of a list of lines: for each line that holds a content
/// marker, what is left of it without the content labels, unless that is
/// nothing.
pub open spec fn content_items(lines: Seq<Seq<char>>) -> Seq<Seq<char>>
    decreases lines.len(),
{
    if lines.len() == 0 {
        seq![]
    } else if occurs_in(lines.last(), "Content:"@) && without(lines.last(), "Content: "@).len() > 0 {
        content_items(lines.drop_last()).push(without(lines.last(), "Content: "@))
    } else {
        content_items(lines.drop_last())
    }
}

/// A numbered list: each item on a line of its own behind its number, counted
/// from one.
pub open spec fn numbered(items: Seq<Seq<char>>) -> Seq<char>
    decreases items.len(),
{
    if items.len() == 0 {
        seq![]
    } else {
        numbered(items.drop_last()) + decimal(items.len()) + ". "@ + items.last() + "\n"@
    }
}

/// What a plain answer ends with.
pub open spec fn simple_note() -> Seq<char> {
    "\n**Note:** For more detailed answers, consider using a local LLM or cloud API integration."@
}

/// The plain answer: the first three contents of the context as a numbered
/// list, with the number of those left out, and a note.
pub open spec fn simple_answer(context: Seq<char>) -> Seq<char> {
    let items = content_items(lines_of(context));
    if items.len() == 0 {
        "No relevant information found in the indexed documents."@ + simple_note()
    } else if items.len() > SHOWN_LINES {
        "**Key Information Found:**\n"@ + numbered(items.take(SHOWN_LINES as int)) + "... and "@
            + decimal((items.len() - SHOWN_LINES) as nat) + " more relevant chunks.\n"@
            + simple_note()
    } else {
        "**Key Information Found:**\n"@ + numbered(items) + simple_note()
    }
}

/// The plain answer.
pub fn generate_simple_answer(context: &str) -> (r: String)
    ensures
        r@ == simple_answer(context@),
{
    let text = chars_of(context);
    let all = lines(&text);
    let marker = chars_of("Content:");
    let label = chars_of("Content: ");
    let ghost ls = lines_of(context@);
    let mut items: Vec<Vec<char>> = Vec::new();
    let mut i: usize = 0;
    assert(views(items@) =~= content_items(ls.take(0)));
    while i < all.len()
        invariant
            i <= all.len(),
            views(all@) == ls,
            marker@ == "Content:"@,
            label@ == "Content: "@,
            views(items@) == content_items(ls.take(i as int)),
        decreases all.len() - i,
    {
        proof {
            assert(ls.take(i + 1).drop_last() == ls.take(i as int));
            assert(ls.take(i + 1).last() == all[i as int]@);
        }
        if contains(&all[i], &marker) {
            let content = remove_all(&all[i], &label);
            if content.len() > 0 {
                let ghost before = items@;
                items.push(content);
                proof {
                    lemma_views_push(before, content);
                }
            }
        }
        i += 1;
    }
    assert(ls.take(all.len() as int) == ls);
    let ghost its = views(items@);
    let mut out: Vec<char> = Vec::new();
    if items.len() == 0 {
        push_str(&mut out, "No relevant information found in the indexed documents.");
    } else {
        push_str(&mut out, "**Key Information Found:**\n");
        let shown: usize = if items.len() > SHOWN_LINES {
            SHOWN_LINES
        } else {
            items.len()
        };
        let ghost start = out@;
        let ghost head = its.take(shown as int);
        let mut k: usize = 0;
        assert(start + numbered(head.take(0)) =~= start);
        while k < shown
            invariant
                k <= shown <= items.len(),
                its == views(items@),
                head == its.take(shown as int),
                out@ == start + numbered(head.take(k as int)),
            decreases shown - k,
        {
            proof {
                assert(head.take(k + 1).drop_last() == head.take(k as int));
                assert(head.take(k + 1).last() == items[k as int]@);
            }
            push_decimal(&mut out, k as u128 + 1);
            push_str(&mut out, ". ");
            extend(&mut out, &items[k]);
            push_str(&mut out, "\n");
            assert(out@ =~= start + (numbered(head.take(k as int)) + decimal((k + 1) as nat)
                + ". "@ + items[k as int]@ + "\n"@));
            k += 1;
        }
        assert(head.take(shown as int) == head);
        if items.len() > SHOWN_LINES {
            push_str(&mut out, "... and ");
            push_decimal(&mut out, (items.len() - SHOWN_LINES) as u128);
            push_str(&mut out, " more relevant chunks.\n");
        } else {
            assert(head == its);
        }
    }
    push_str(
        &mut out,
        "\n**Note:** For more detailed answers, consider using a local LLM or cloud API integration.",
    );
    assert(out@ =~= simple_answer(context@));
    string_of(&out)
}

/// How an answer is made.
#[derive(Debug, Clone, Copy, PartialEq, Eq, Structural)]
pub enum Strategy {
    /// Generated by a language model from good context.
    Advanced,
    /// Extracted from acceptable context.
    Standard,
    /// A generic explanation, for poor context.
    Fallback,
    /// A plain list of contents.
    Simple,
}

/// The strategy for a context of the given quality: generation where it is
/// enabled and the quality is good; else extraction where the quality is
/// acceptable; else the fallback where it is enabled; else the plain list.
pub open spec fn strategy_for(advanced: bool, fallback: bool, quality: ContextQuality) -> Strategy {
    if advanced && quality.rank() >= 2 {
        Strategy::Advanced
    } else if quality.rank() >= 1 {
        Strategy::Standard
    } else if fallback {
        Strategy::Fallback
    } else {
        Strategy::Simple
    }
}

/// The strategy for a context of the given quality.
pub fn select_strategy(advanced: bool, fallback: bool, quality: ContextQuality) -> (r: Strategy)
    ensures
        r == strategy_for(advanced, fallback, quality),
{
    if advanced && quality.is_good() {
        Strategy::Advanced
    } else if quality.is_acceptable() {
        Strategy::Standard
    } else if fallback {
        Strategy::Fallback
    } else {
        Strategy::Simple
    }
}

/// The answer that a strategy gives.
pub open spec fn answer_by(
    strategy: Strategy,
    generated: Option<Seq<char>>,
    context: Seq<char>,
    question: Seq<char>,
) -> Seq<char> {
    match strategy {
        Strategy::Advanced => advanced_response(generated, context, question),
        Strategy::Standard => standard_response(context, question),
        Strategy::Fallback => fallback_response(context),
        Strategy::Simple => simple_answer(context),
    }
}

/// The answer that a strategy gives. `generated` is what the language model
/// answered, if it was asked and answered.
pub fn synthesize(strategy: Strategy, question: &str, context: &str, generated: Option<&str>) -> (r:
    String)
    ensures
        r@ == answer_by(strategy, text_of(generated), context@, question@),
{
    match strategy {
        Strategy::Advanced => generate_advanced_rag_response(question, context, generated),
        Strategy::Standard => generate_standard_rag_response(question, context),
        Strategy::Fallback => generate_fallback_response(context),
        Strategy::Simple => generate_simple_answer(context),
    }
}

/// Whatever the strategy and the context, there is an answer.
pub proof fn lemma_answer_not_empty(
    strategy: Strategy,
    generated: Option<Seq<char>>,
    context: Seq<char>,
    question: Seq<char>,
)
    ensures
        answer_by(strategy, generated, context, question).len() > 0,
{
    reveal_strlit(
        "Based on the available information, I couldn't find specific details to answer your question. Consider rephrasing your question or indexing more relevant documents.",
    );
    reveal_strlit("Based on the indexed documents, here's what I found:\n\n");
    reveal_strlit(
        "I don't have enough specific information to provide a detailed answer to your question. However, based on the project structure, this appears to be a semantic search and RAG system.\n\nTo get better answers, consider:\n1. Indexing more documentation about the topic\n2. Using more specific search terms\n3. Checking if the documents are properly indexed\n\n",
    );
    reveal_strlit(
        "\n**Note:** For more detailed answers, consider using a local LLM or cloud API integration.",
    );
}

} // verus!
