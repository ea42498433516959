//! Answers that are phrased by the kind of question, and a short description
//! of a context text.

use vstd::prelude::*;
use crate::key_info::{find_key_information, key_information};
use crate::number::{decimal, fixed3, parse_similarity, push_decimal, push_fixed3, similarity_of};
use crate::pattern::{
    contains,
    find,
    first_occurrence,
    lemma_first_occurrence,
    occurs_in,
    pieces,
    split,
    starts_with,
};
use crate::quality::chunk_header;
use crate::text::{chars_of, lowercase, lowercase_of, push_str, same, slice_of, string_of, trim, trimmed, views};

verus! {

/// The kinds of question.
#[derive(Debug, Clone, Copy, PartialEq, Eq, Structural)]
pub enum QuestionType {
    Definition,
    Process,
    Technical,
    Reasoning,
    Location,
    Timing,
    Selection,
    Troubleshooting,
    Example,
    General,
}

/// The name of a kind of question.
pub open spec fn label_of(kind: QuestionType) -> Seq<char> {
    match kind {
        QuestionType::Definition => "Definition/Purpose question"@,
        QuestionType::Process => "Process/How-to question"@,
        QuestionType::Technical => "Technical/Implementation question"@,
        QuestionType::Reasoning => "Reasoning/Why question"@,
        QuestionType::Location => "Location/Structure question"@,
        QuestionType::Timing => "Timing/Sequence question"@,
        QuestionType::Selection => "Selection/Choice question"@,
        QuestionType::Troubleshooting => "Troubleshooting/Problem question"@,
        QuestionType::Example => "Example/Code question"@,
        QuestionType::General => "General/Information question"@,
    }
}

/// Whether a question names a function, a method or a class.
pub open spec fn names_code(q: Seq<char>) -> bool {
    occurs_in(q, "function"@) || occurs_in(q, "method"@) || occurs_in(q, "class"@)
}

/// The kind of a question in lowercase. The first word decides where it is
/// one of what, how, why, where, when and which; else what the question
/// names.
pub open spec fn kind_of(q: Seq<char>) -> QuestionType {
    if "what"@.is_prefix_of(q) {
        if !(occurs_in(q, "is"@) || occurs_in(q, "does"@) || occurs_in(q, "are"@)) && names_code(q) {
            QuestionType::Technical
        } else {
            QuestionType::Definition
        }
    } else if "how"@.is_prefix_of(q) {
        if !(occurs_in(q, "to"@) || occurs_in(q, "do"@) || occurs_in(q, "implement"@)) && (
        occurs_in(q, "does"@) || occurs_in(q, "work"@)) {
            QuestionType::Technical
        } else {
            QuestionType::Process
        }
    } else if "why"@.is_prefix_of(q) {
        QuestionType::Reasoning
    } else if "where"@.is_prefix_of(q) {
        QuestionType::Location
    } else if "when"@.is_prefix_of(q) {
        QuestionType::Timing
    } else if "which"@.is_prefix_of(q) {
        QuestionType::Selection
    } else if names_code(q) {
        QuestionType::Technical
    } else if occurs_in(q, "error"@) || occurs_in(q, "bug"@) || occurs_in(q, "problem"@) {
        QuestionType::Troubleshooting
    } else if occurs_in(q, "example"@) || occurs_in(q, "sample"@) || occurs_in(q, "code"@) {
        QuestionType::Example
    } else {
        QuestionType::General
    }
}

/// The kind of a question.
pub open spec fn question_type_of(question: Seq<char>) -> QuestionType {
    kind_of(lowercase_of(question))
}

fn holds(text: &Vec<char>, literal: &str) -> (r: bool)
    ensures
        r == occurs_in(text@, literal@),
{
    contains(text, &chars_of(literal))
}

fn begins(text: &Vec<char>, literal: &str) -> (r: bool)
    ensures
        r == literal@.is_prefix_of(text@),
{
    starts_with(text, &chars_of(literal))
}

/// The kind of a question in lowercase.
pub fn classify(q: &Vec<char>) -> (r: QuestionType)
    ensures
        r == kind_of(q@),
{
    let code = holds(q, "function") || holds(q, "method") || holds(q, "class");
    if begins(q, "what") {
        if !(holds(q, "is") || holds(q, "does") || holds(q, "are")) && code {
            QuestionType::Technical
        } else {
            QuestionType::Definition
        }
    } else if begins(q, "how") {
        if !(holds(q, "to") || holds(q, "do") || holds(q, "implement")) && (holds(q, "does")
            || holds(q, "work")) {
            QuestionType::Technical
        } else {
            QuestionType::Process
        }
    } else if begins(q, "why") {
        QuestionType::Reasoning
    } else if begins(q, "where") {
        QuestionType::Location
    } else if begins(q, "when") {
        QuestionType::Timing
    } else if begins(q, "which") {
        QuestionType::Selection
    } else if code {
        QuestionType::Technical
    } else if holds(q, "error") || holds(q, "bug") || holds(q, "problem") {
        QuestionType::Troubleshooting
    } else if holds(q, "example") || holds(q, "sample") || holds(q, "code") {
        QuestionType::Example
    } else {
        QuestionType::General
    }
}

/// The kind of a question.
pub fn question_type(question: &str) -> (r: QuestionType)
    ensures
        r == question_type_of(question@),
{
    classify(&lowercase(&chars_of(question)))
}

/// The name of a kind of question.
pub fn label(kind: QuestionType) -> (r: String)
    ensures
        r@ == label_of(kind),
{
    let text = match kind {
        QuestionType::Definition => "Definition/Purpose question",
        QuestionType::Process => "Process/How-to question",
        QuestionType::Technical => "Technical/Implementation question",
        QuestionType::Reasoning => "Reasoning/Why question",
        QuestionType::Location => "Location/Structure question",
        QuestionType::Timing => "Timing/Sequence question",
        QuestionType::Selection => "Selection/Choice question",
        QuestionType::Troubleshooting => "Troubleshooting/Problem question",
        QuestionType::Example => "Example/Code question",
        QuestionType::General => "General/Information question",
    };
    text.to_owned()
}

/// The name of the kind of a question.
pub fn analyze_question_type(question: &str) -> (r: String)
    ensures
        r@ == label_of(question_type_of(question@)),
{
    label(question_type(question))
}

/// What comes before the key information in an answer to a question of a
/// kind.
pub open spec fn opening_for(kind: QuestionType) -> Seq<char> {
    match kind {
        QuestionType::Definition => "Based on the available information:\n\n"@,
        QuestionType::Process => "Here's the process based on the available information:\n\n"@,
        QuestionType::Reasoning => "The reasoning behind this is:\n\n"@,
        _ => "Here's what I found relevant to your question:\n\n"@,
    }
}

/// What comes behind the key information in an answer to a question of a
/// kind.
pub open spec fn closing_for(kind: QuestionType) -> Seq<char> {
    match kind {
        QuestionType::Definition => "\n\nThis provides a comprehensive overview of the topic you asked about. The information is extracted from the indexed source code and documentation files."@,
        QuestionType::Process => "\n\nThese steps and code examples show how the functionality is implemented. Follow the code structure and function calls in order for best results."@,
        QuestionType::Reasoning => "\n\nThis explains the underlying principles and motivations as shown in the code. The implementation details reveal the design decisions and architecture."@,
        _ => "\n\nThis information should help answer your question. The content is extracted from the indexed source files and organized by relevance."@,
    }
}

/// What is said where the context holds nothing for the question.
pub open spec fn no_answer() -> Seq<char> {
    "I couldn't find specific information to answer your question. The indexed documents don't contain relevant content for this query."@
}

/// The answer that is phrased by the kind of the question: the key
/// information between an opening and a closing, or the notice that there is
/// none.
pub open spec fn phrased_answer(context: Seq<char>, question: Seq<char>) -> Seq<char> {
    if occurs_in(key_information(context, question), "No relevant information found"@) {
        no_answer()
    } else {
        opening_for(question_type_of(question)) + key_information(context, question) + closing_for(
            question_type_of(question),
        )
    }
}

/// The answer that is phrased by the kind of the question.
pub fn synthesize_answer_from_context(context: &str, question: &str) -> (r: String)
    ensures
        r@ == phrased_answer(context@, question@),
{
    let kind = question_type(question);
    let (_, info) = find_key_information(context, question);
    let info = chars_of(info.as_str());
    if holds(&info, "No relevant information found") {
        return "I couldn't find specific information to answer your question. The indexed documents don't contain relevant content for this query.".to_owned();
    }
    let mut out: Vec<char> = Vec::new();
    match kind {
        QuestionType::Definition => {
            push_str(&mut out, "Based on the available information:\n\n");
            crate::text::extend(&mut out, &info);
            push_str(
                &mut out,
                "\n\nThis provides a comprehensive overview of the topic you asked about. The information is extracted from the indexed source code and documentation files.",
            );
        },
        QuestionType::Process => {
            push_str(&mut out, "Here's the process based on the available information:\n\n");
            crate::text::extend(&mut out, &info);
            push_str(
                &mut out,
                "\n\nThese steps and code examples show how the functionality is implemented. Follow the code structure and function calls in order for best results.",
            );
        },
        QuestionType::Reasoning => {
            push_str(&mut out, "The reasoning behind this is:\n\n");
            crate::text::extend(&mut out, &info);
            push_str(
                &mut out,
                "\n\nThis explains the underlying principles and motivations as shown in the code. The implementation details reveal the design decisions and architecture.",
            );
        },
        _ => {
            push_str(&mut out, "Here's what I found relevant to your question:\n\n");
            crate::text::extend(&mut out, &info);
            push_str(
                &mut out,
                "\n\nThis information should help answer your question. The content is extracted from the indexed source files and organized by relevance.",
            );
        },
    }
    assert(out@ =~= phrased_answer(context@, question@));
    string_of(&out)
}

/// The phrased answer where the embedding service is available, and nothing
/// where it is not.
pub fn generate_ollama_rag_response(available: bool, question: &str, context: &str) -> (r: Option<
    String,
>)
    ensures
        match r {
            Some(answer) => available && answer@ == phrased_answer(context@, question@),
            None => !available,
        },
{
    if available {
        Some(synthesize_answer_from_context(context, question))
    } else {
        None
    }
}

/// What stands in `part` behind the first `label` and `skip` further
/// characters, up to the first `end` behind the label; nothing where the
/// label or the end is missing or the end comes too early.
pub open spec fn field_of(part: Seq<char>, label: Seq<char>, skip: int, end: Seq<char>) -> Option<
    Seq<char>,
> {
    if occurs_in(part, label) {
        let from = first_occurrence(part, label) as int;
        let rest = part.skip(from);
        if occurs_in(rest, end) && skip <= first_occurrence(rest, end) {
            Some(rest.subrange(skip, first_occurrence(rest, end) as int))
        } else {
            None
        }
    } else {
        None
    }
}

/// The similarity that a part of a context names, in millionths; zero where
/// it names none that can be read.
pub open spec fn named_similarity(part: Seq<char>) -> u32 {
    match field_of(part, "Similarity:"@, 12, ")"@) {
        Some(text) => match similarity_of(text) {
            Some(v) => v,
            None => 0,
        },
        None => 0,
    }
}

/// The sum of the similarities that the parts name.
pub open spec fn similarity_sum(parts: Seq<Seq<char>>) -> int
    decreases parts.len(),
{
    if parts.len() == 0 {
        0
    } else {
        similarity_sum(parts.drop_last()) + named_similarity(parts.last())
    }
}

/// The sources that the parts name, each once, in the order in which they
/// come up.
pub open spec fn named_sources(parts: Seq<Seq<char>>) -> Seq<Seq<char>>
    decreases parts.len(),
{
    if parts.len() == 0 {
        seq![]
    } else {
        let before = named_sources(parts.drop_last());
        match field_of(parts.last(), "Source:"@, 8, "\n"@) {
            Some(text) => if before.contains(trimmed(text)) {
                before
            } else {
                before.push(trimmed(text))
            },
            None => before,
        }
    }
}

/// The description of a context text: how many chunks it holds, their mean
/// similarity, rounded down to millionths and shown with three decimals, and
/// how many different sources they name.
pub open spec fn structure_of(context: Seq<char>) -> Seq<char> {
    let chunks = pieces(context, chunk_header()).drop_first();
    let mean = if chunks.len() > 0 {
        (similarity_sum(chunks) / chunks.len() as int) as u32
    } else {
        0u32
    };
    decimal(chunks.len()) + " chunks, "@ + fixed3(mean) + " avg similarity, "@ + decimal(
        named_sources(chunks).len(),
    ) + " unique sources"@
}

fn read_field(part: &Vec<char>, label: &str, skip: usize, end: &str) -> (r: Option<Vec<char>>)
    ensures
        match r {
            Some(text) => field_of(part@, label@, skip as int, end@) == Some(text@),
            None => field_of(part@, label@, skip as int, end@) is None,
        },
{
    let label_chars = chars_of(label);
    let end_chars = chars_of(end);
    proof {
        lemma_first_occurrence(part@, label@);
    }
    let from = match find(part, &label_chars) {
        Some(i) => i,
        None => { return None; },
    };
    let rest = slice_of(part, from, part.len());
    assert(rest@ == part@.skip(from as int));
    proof {
        lemma_first_occurrence(rest@, end@);
    }
    let to = match find(&rest, &end_chars) {
        Some(i) => i,
        None => { return None; },
    };
    if skip > to {
        return None;
    }
    Some(slice_of(&rest, skip, to))
}

fn knows(items: &Vec<Vec<char>>, item: &Vec<char>) -> (r: bool)
    ensures
        r == views(items@).contains(item@),
{
    let mut i: usize = 0;
    while i < items.len()
        invariant
            i <= items.len(),
            forall|j: int| 0 <= j < i ==> views(items@)[j] != item@,
        decreases items.len() - i,
    {
        if same(&items[i], item) {
            assert(views(items@)[i as int] == item@);
            return true;
        }
        i += 1;
    }
    false
}

/// The description of a context text.
pub fn analyze_context_structure(context: &str) -> (r: String)
    ensures
        r@ == structure_of(context@),
{
    let text = chars_of(context);
    let header = chars_of("--- Chunk");
    let parts = split(&text, &header);
    let ghost all = pieces(context@, chunk_header());
    proof {
        crate::pattern::lemma_pieces_not_empty(context@, chunk_header());
    }
    let ghost chunks = all.drop_first();
    let count = parts.len() - 1;
    let mut sum: u128 = 0;
    let mut sources: Vec<Vec<char>> = Vec::new();
    let mut i: usize = 0;
    assert(views(sources@) =~= named_sources(chunks.take(0)));
    while i < count
        invariant
            i <= count == parts.len() - 1,
            views(parts@) == all,
            chunks == all.drop_first(),
            sum == similarity_sum(chunks.take(i as int)),
            sum <= i * u32::MAX,
            views(sources@) == named_sources(chunks.take(i as int)),
        decreases count - i,
    {
        let part = &parts[i + 1];
        proof {
            assert(chunks.take(i + 1).drop_last() == chunks.take(i as int));
            assert(chunks.take(i + 1).last() == part@);
        }
        let similarity: u32 = match read_field(part, "Similarity:", 12, ")") {
            Some(number) => match parse_similarity(&number) {
                Some(v) => v,
                None => 0,
            },
            None => 0,
        };
        sum = sum + similarity as u128;
        match read_field(part, "Source:", 8, "\n") {
            Some(name) => {
                let name = trim(&name);
                if !knows(&sources, &name) {
                    let ghost before = sources@;
                    sources.push(name);
                    proof {
                        crate::text::lemma_views_push(before, name);
                    }
                }
            },
            None => {},
        }
        i += 1;
    }
    assert(chunks.take(count as int) == chunks);
    let mean: u32 = if count > 0 {
        assert(sum / (count as u128) <= u32::MAX) by (nonlinear_arith)
            requires
                sum <= count * u32::MAX,
                count > 0,
        ;
        (sum / (count as u128)) as u32
    } else {
        0
    };
    let mut out: Vec<char> = Vec::new();
    push_decimal(&mut out, count as u128);
    push_str(&mut out, " chunks, ");
    push_fixed3(&mut out, mean);
    push_str(&mut out, " avg similarity, ");
    push_decimal(&mut out, sources.len() as u128);
    push_str(&mut out, " unique sources");
    assert(out@ =~= structure_of(context@));
    string_of(&out)
}

} // verus!
