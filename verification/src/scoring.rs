//! Relevance of a chunk to a question.
//!
//! A score is an exact fraction `units / scale` between zero and one. The
//! scale depends on the question alone, so the scores of different chunks for
//! one question share it and can be added and compared without rounding.

use vstd::prelude::*;
use crate::pattern::{contains, occurs_in};
use crate::split::{split_whitespace, words};
use crate::text::{byte_len, chars_of, lowercase, lowercase_of, same, utf8_len, views};

verus! {

/// A relevance score: the fraction `units / scale`.
#[derive(Debug, Clone, Copy, PartialEq, Eq, Structural)]
pub struct Relevance {
    pub units: u128,
    pub scale: u128,
}

impl Relevance {
    /// The score is a fraction between zero and one.
    pub open spec fn wf(self) -> bool {
        0 < self.scale && self.units <= self.scale
    }

    /// The score is more than `num / den`.
    pub open spec fn exceeds(self, num: int, den: int) -> bool {
        self.units * den > num * self.scale
    }
}

/// The words of `ws` that take more than `min` bytes in UTF-8, in order.
pub open spec fn long_words(ws: Seq<Seq<char>>, min: int) -> Seq<Seq<char>>
    decreases ws.len(),
{
    if ws.len() == 0 {
        seq![]
    } else if utf8_len(ws.last()) > min {
        long_words(ws.drop_last(), min).push(ws.last())
    } else {
        long_words(ws.drop_last(), min)
    }
}

/// There are no more long words than words.
pub proof fn lemma_long_words_len(ws: Seq<Seq<char>>, min: int)
    ensures
        long_words(ws, min).len() <= ws.len(),
    decreases ws.len(),
{
    if ws.len() > 0 {
        lemma_long_words_len(ws.drop_last(), min);
    }
}

/// `long_words(words(text), min)` as vectors.
pub fn key_words(text: &Vec<char>, min: usize) -> (r: Vec<Vec<char>>)
    ensures
        views(r@) == long_words(words(text@), min as int),
{
    let all = split_whitespace(text);
    let mut r: Vec<Vec<char>> = Vec::new();
    let mut i: usize = 0;
    assert(views(r@) == long_words(views(all@).take(0), min as int));
    while i < all.len()
        invariant
            i <= all.len(),
            views(r@) == long_words(views(all@).take(i as int), min as int),
        decreases all.len() - i,
    {
        proof {
            let p = views(all@).take(i + 1);
            assert(p.drop_last() == views(all@).take(i as int));
            assert(p.last() == all@[i as int]@);
        }
        if byte_len(&all[i]) > min as u128 {
            let ghost before = r@;
            let w = all[i].clone();
            assert(w@ == all@[i as int]@);
            r.push(w);
            proof {
                crate::text::lemma_views_push(before, w);
            }
        }
        i += 1;
    }
    assert(views(all@).take(all.len() as int) == views(all@));
    r
}

/// Whether `w` is one of `ws`.
pub fn has_word(ws: &Vec<Vec<char>>, w: &Vec<char>) -> (r: bool)
    ensures
        r == views(ws@).contains(w@),
{
    let mut i: usize = 0;
    while i < ws.len()
        invariant
            i <= ws.len(),
            forall|j: int| 0 <= j < i ==> views(ws@)[j] != w@,
        decreases ws.len() - i,
    {
        if same(&ws[i], w) {
            assert(views(ws@)[i as int] == w@);
            return true;
        }
        i += 1;
    }
    false
}

/// How many of `qw` are among `cw`.
pub open spec fn exact_matches(qw: Seq<Seq<char>>, cw: Seq<Seq<char>>) -> int
    decreases qw.len(),
{
    if qw.len() == 0 {
        0
    } else {
        exact_matches(qw.drop_last(), cw) + if cw.contains(qw.last()) {
            1int
        } else {
            0int
        }
    }
}

/// `w` holds one of `cw`, or one of `cw` holds `w`.
pub open spec fn overlaps_any(w: Seq<char>, cw: Seq<Seq<char>>) -> bool {
    exists|j: int| 0 <= j < cw.len() && (occurs_in(#[trigger] cw[j], w) || occurs_in(w, cw[j]))
}

/// How many of `qw` overlap with one of `cw`.
pub open spec fn partial_matches(qw: Seq<Seq<char>>, cw: Seq<Seq<char>>) -> int
    decreases qw.len(),
{
    if qw.len() == 0 {
        0
    } else {
        partial_matches(qw.drop_last(), cw) + if overlaps_any(qw.last(), cw) {
            1int
        } else {
            0int
        }
    }
}

/// How many of `terms` stand in both `a` and `b`.
pub open spec fn shared_terms(terms: Seq<Seq<char>>, a: Seq<char>, b: Seq<char>) -> int
    decreases terms.len(),
{
    if terms.len() == 0 {
        0
    } else {
        shared_terms(terms.drop_last(), a, b) + if occurs_in(a, terms.last()) && occurs_in(
            b,
            terms.last(),
        ) {
            1int
        } else {
            0int
        }
    }
}

/// No more question words are matched than there are.
pub proof fn lemma_counts_bounds(qw: Seq<Seq<char>>, cw: Seq<Seq<char>>)
    ensures
        0 <= exact_matches(qw, cw) <= qw.len(),
        0 <= partial_matches(qw, cw) <= qw.len(),
    decreases qw.len(),
{
    if qw.len() > 0 {
        lemma_counts_bounds(qw.drop_last(), cw);
    }
}

/// No more terms are shared than there are.
pub proof fn lemma_shared_terms_bounds(terms: Seq<Seq<char>>, a: Seq<char>, b: Seq<char>)
    ensures
        0 <= shared_terms(terms, a, b) <= terms.len(),
    decreases terms.len(),
{
    if terms.len() > 0 {
        lemma_shared_terms_bounds(terms.drop_last(), a, b);
    }
}

/// The technical terms that count when question and chunk share them.
pub open spec fn technical_terms() -> Seq<Seq<char>> {
    seq![
        "function"@,
        "class"@,
        "method"@,
        "api"@,
        "database"@,
        "file"@,
        "code"@,
        "implementation"@,
    ]
}

fn technical_term_list() -> (r: Vec<Vec<char>>)
    ensures
        views(r@) == technical_terms(),
{
    let mut r: Vec<Vec<char>> = Vec::new();
    r.push(chars_of("function"));
    r.push(chars_of("class"));
    r.push(chars_of("method"));
    r.push(chars_of("api"));
    r.push(chars_of("database"));
    r.push(chars_of("file"));
    r.push(chars_of("code"));
    r.push(chars_of("implementation"));
    assert(views(r@) =~= technical_terms());
    r
}

/// The bonuses for what kind of text a chunk is, in fortieths. `content` and
/// `question` are lowercase; `length` is the chunk's length in characters.
///
/// A function definition adds a tenth, a class or struct definition a tenth,
/// a comment a twentieth. A length of 30 to 500 adds a tenth, a greater one a
/// twentieth. For a question that asks what, how or why, a length over 100
/// adds a tenth. For a question about a function or method, a function
/// definition adds a fifth.
pub open spec fn marker_bonus(content: Seq<char>, question: Seq<char>, length: int) -> int {
    let defines_fn = occurs_in(content, "def "@) || occurs_in(content, "fn "@);
    (if defines_fn || occurs_in(content, "function"@) {
        4int
    } else {
        0int
    }) + (if occurs_in(content, "class "@) || occurs_in(content, "struct "@) {
        4int
    } else {
        0int
    }) + (if occurs_in(content, "//"@) || occurs_in(content, "/*"@) {
        2int
    } else {
        0int
    }) + (if 30 <= length <= 500 {
        4int
    } else if length > 500 {
        2int
    } else {
        0int
    }) + (if (occurs_in(question, "what"@) || occurs_in(question, "how"@) || occurs_in(
        question,
        "why"@,
    )) && length > 100 {
        4int
    } else {
        0int
    }) + (if (occurs_in(question, "function"@) || occurs_in(question, "method"@)) && defines_fn {
        8int
    } else {
        0int
    })
}

fn holds(text: &Vec<char>, literal: &str) -> (r: bool)
    ensures
        r == occurs_in(text@, literal@),
{
    let pat = chars_of(literal);
    contains(text, &pat)
}

fn compute_marker_bonus(content: &Vec<char>, question: &Vec<char>, length: usize) -> (b: u128)
    ensures
        b == marker_bonus(content@, question@, length as int),
        b <= 26,
{
    let defines_fn = holds(content, "def ") || holds(content, "fn ");
    let mut b: u128 = 0;
    if defines_fn || holds(content, "function") {
        b += 4;
    }
    if holds(content, "class ") || holds(content, "struct ") {
        b += 4;
    }
    if holds(content, "//") || holds(content, "/*") {
        b += 2;
    }
    if 30 <= length && length <= 500 {
        b += 4;
    } else if length > 500 {
        b += 2;
    }
    if (holds(question, "what") || holds(question, "how") || holds(question, "why")) && length
        > 100 {
        b += 4;
    }
    if (holds(question, "function") || holds(question, "method")) && defines_fn {
        b += 8;
    }
    b
}

/// The score in units of one over `40 * max(words, 1)`, from its parts: half
/// the share of question words found verbatim, three tenths of the share found
/// overlapping, a fortieth for each shared technical term, and the bonuses;
/// never more than one.
pub open spec fn relevance_units(
    words: int,
    exact: int,
    partial: int,
    terms: int,
    bonus: int,
) -> int {
    let m = if words > 0 {
        words
    } else {
        1
    };
    let raw = (if words > 0 {
        20 * exact + 12 * partial
    } else {
        0
    }) + m * (terms + bonus);
    if raw > 40 * m {
        40 * m
    } else {
        raw
    }
}

/// The scale that the scores for a question share: forty times the number of
/// its words of more than two bytes, at least forty.
pub open spec fn relevance_scale(question_lower: Seq<char>) -> int {
    let n = long_words(words(question_lower), 2).len() as int;
    if n > 0 {
        40 * n
    } else {
        40
    }
}

/// The parts of the score of a lowercase chunk for a lowercase question.
pub open spec fn relevance_of(content: Seq<char>, question: Seq<char>, length: int) -> Relevance {
    let qw = long_words(words(question), 2);
    let cw = words(content);
    Relevance {
        units: relevance_units(
            qw.len() as int,
            exact_matches(qw, cw),
            partial_matches(qw, cw),
            shared_terms(technical_terms(), question, content),
            marker_bonus(content, question, length),
        ) as u128,
        scale: relevance_scale(question) as u128,
    }
}

/// The relevance of a chunk to a question: `relevance_of` on their lowercase
/// forms and the chunk's length in characters.
pub open spec fn relevance(content: Seq<char>, question: Seq<char>) -> Relevance {
    relevance_of(lowercase_of(content), lowercase_of(question), content.len() as int)
}

/// A score is a fraction between zero and one.
pub proof fn lemma_relevance_wf(content: Seq<char>, question: Seq<char>, length: int)
    requires
        0 <= length,
        long_words(words(question), 2).len() <= usize::MAX,
    ensures
        relevance_of(content, question, length).wf(),
        0 <= relevance_units(
            long_words(words(question), 2).len() as int,
            exact_matches(long_words(words(question), 2), words(content)),
            partial_matches(long_words(words(question), 2), words(content)),
            shared_terms(technical_terms(), question, content),
            marker_bonus(content, question, length),
        ) <= relevance_scale(question) <= 40 * usize::MAX,
{
    let qw = long_words(words(question), 2);
    let cw = words(content);
    lemma_long_words_len(words(question), 2);
    lemma_counts_bounds(qw, cw);
    lemma_shared_terms_bounds(technical_terms(), question, content);
    let m: int = if qw.len() > 0 {
        qw.len() as int
    } else {
        1
    };
    let t = shared_terms(technical_terms(), question, content) + marker_bonus(
        content,
        question,
        length,
    );
    assert(0 <= m * t) by (nonlinear_arith)
        requires
            0 < m,
            0 <= t,
    ;
}

fn overlaps_one(w: &Vec<char>, cw: &Vec<Vec<char>>) -> (r: bool)
    ensures
        r == overlaps_any(w@, views(cw@)),
{
    let mut j: usize = 0;
    while j < cw.len()
        invariant
            j <= cw.len(),
            forall|k: int|
                0 <= k < j ==> !(occurs_in(#[trigger] views(cw@)[k], w@) || occurs_in(
                    w@,
                    views(cw@)[k],
                )),
        decreases cw.len() - j,
    {
        assert(views(cw@)[j as int] == cw@[j as int]@);
        if contains(&cw[j], w) || contains(w, &cw[j]) {
            return true;
        }
        j += 1;
    }
    false
}

/// The relevance of a lowercase chunk to the lowercase question, given the
/// question's words of more than two bytes and the chunk's length in
/// characters before it was lowered.
pub(crate) fn score_words(
    content: &Vec<char>,
    question: &Vec<char>,
    question_words: &Vec<Vec<char>>,
    length: usize,
) -> (r: Relevance)
    requires
        views(question_words@) == long_words(words(question@), 2),
    ensures
        r == relevance_of(content@, question@, length as int),
        r.wf(),
        r.scale <= 40 * usize::MAX,
{
    let cw = split_whitespace(content);
    let n = question_words.len();
    let ghost qw = views(question_words@);
    let ghost cws = views(cw@);
    let mut exact: u128 = 0;
    let mut partial: u128 = 0;
    let mut i: usize = 0;
    while i < n
        invariant
            i <= n == question_words.len(),
            qw == views(question_words@),
            cws == views(cw@),
            exact == exact_matches(qw.take(i as int), cws),
            partial == partial_matches(qw.take(i as int), cws),
            exact <= i,
            partial <= i,
        decreases n - i,
    {
        proof {
            assert(qw.take(i + 1).drop_last() == qw.take(i as int));
            assert(qw.take(i + 1).last() == question_words@[i as int]@);
        }
        if has_word(&cw, &question_words[i]) {
            exact += 1;
        }
        if overlaps_one(&question_words[i], &cw) {
            partial += 1;
        }
        i += 1;
    }
    assert(qw.take(n as int) == qw);
    let terms = technical_term_list();
    let mut shared: u128 = 0;
    let mut k: usize = 0;
    while k < terms.len()
        invariant
            k <= terms.len(),
            views(terms@) == technical_terms(),
            shared == shared_terms(technical_terms().take(k as int), question@, content@),
            shared <= k,
        decreases terms.len() - k,
    {
        proof {
            assert(technical_terms().take(k + 1).drop_last() == technical_terms().take(k as int));
            assert(technical_terms().take(k + 1).last() == terms@[k as int]@);
        }
        if contains(question, &terms[k]) && contains(content, &terms[k]) {
            shared += 1;
        }
        k += 1;
    }
    assert(technical_terms().take(terms.len() as int) == technical_terms());
    assert(terms.len() == 8);
    let bonus = compute_marker_bonus(content, question, length);
    let m: u128 = if n > 0 {
        n as u128
    } else {
        1
    };
    proof {
        lemma_relevance_wf(content@, question@, length as int);
        assert(m * (shared + bonus) <= m * 34) by (nonlinear_arith)
            requires
                shared + bonus <= 34,
                0 <= m,
        ;
    }
    let matched: u128 = if n > 0 {
        20 * exact + 12 * partial
    } else {
        0
    };
    let raw: u128 = matched + m * (shared + bonus);
    let scale: u128 = 40 * m;
    Relevance {
        units: if raw > scale {
            scale
        } else {
            raw
        },
        scale,
    }
}

/// The relevance of a chunk to a question, both given in lowercase, with the
/// chunk's length in characters before it was lowered.
pub fn score_lowered(content: &Vec<char>, question: &Vec<char>, length: usize) -> (r: Relevance)
    ensures
        r == relevance_of(content@, question@, length as int),
        r.wf(),
{
    let question_words = key_words(question, 2);
    score_words(content, question, &question_words, length)
}

/// The relevance of a chunk to a question.
pub fn score_chunk_relevance(chunk_content: &str, question: &str) -> (r: Relevance)
    ensures
        r == relevance(chunk_content@, question@),
        r.wf(),
{
    let content = chars_of(chunk_content);
    let content_lower = lowercase(&content);
    let question_lower = lowercase(&chars_of(question));
    score_lowered(&content_lower, &question_lower, content.len())
}

} // verus!
