//! Making a chunk's content short enough to show.

use vstd::prelude::*;
use crate::pattern::{find, find_last, first_occurrence, last_at, lemma_first_occurrence, lemma_last_at, occurs_in};
use crate::split::{join, joined, split_whitespace, words};
use crate::text::{
    byte_len,
    chars_of,
    extend,
    has_char,
    lemma_views_push,
    push_str,
    slice_of,
    string_of,
    trim,
    trimmed,
    utf8_len,
    views,
};

verus! {

/// Longer content is cut down to this many words.
pub const SUMMARY_WORDS: usize = 30;

/// Content of more than this many bytes is cut down.
pub const SUMMARY_BYTES: u128 = 200;

/// A single space.
pub open spec fn space() -> Seq<char> {
    seq![' ']
}

/// The function call that `content` shows: the word before the first opening
/// parenthesis, and in parentheses what stands, trimmed, between that
/// parenthesis and the last closing one. There is none where the two
/// parentheses are missing or out of order, or no word comes first.
pub open spec fn function_call_of(content: Seq<char>) -> Option<Seq<char>> {
    let open = first_occurrence(content, seq!['(']) as int;
    let close = last_at(content, ')', 0, content.len() as int);
    if occurs_in(content, seq!['(']) && open < close {
        let before = words(content.take(open));
        if before.len() > 0 {
            Some(before.last() + seq!['('] + trimmed(content.subrange(open + 1, close)) + seq![')'])
        } else {
            None
        }
    } else {
        None
    }
}

/// The function call that `content` shows.
pub fn extract_function_call(content: &str) -> (r: Option<String>)
    ensures
        match r {
            Some(call) => function_call_of(content@) == Some(call@),
            None => function_call_of(content@) is None,
        },
{
    let chars = chars_of(content);
    match call_in(&chars) {
        Some(call) => Some(string_of(&call)),
        None => None,
    }
}

fn call_in(content: &Vec<char>) -> (r: Option<Vec<char>>)
    ensures
        match r {
            Some(call) => function_call_of(content@) == Some(call@),
            None => function_call_of(content@) is None,
        },
{
    let mut paren: Vec<char> = Vec::new();
    paren.push('(');
    assert(paren@ =~= seq!['(']);
    proof {
        lemma_first_occurrence(content@, paren@);
        lemma_last_at(content@, ')', 0, content.len() as int);
    }
    let open = match find(content, &paren) {
        Some(i) => i,
        None => { return None; },
    };
    let close = match find_last(content, ')', 0, content.len()) {
        Some(i) => i,
        None => { return None; },
    };
    if open >= close {
        return None;
    }
    let head = slice_of(content, 0, open);
    assert(head@ == content@.take(open as int));
    let before = split_whitespace(&head);
    if before.len() == 0 {
        return None;
    }
    let inner = slice_of(content, open + 1, close);
    let args = trim(&inner);
    let mut out: Vec<char> = Vec::new();
    extend(&mut out, &before[before.len() - 1]);
    out.push('(');
    extend(&mut out, &args);
    out.push(')');
    proof {
        assert(views(before@).last() == before[before.len() - 1]@);
        assert(out@ =~= views(before@).last() + seq!['('] + args@ + seq![')']);
    }
    Some(out)
}

/// `content` with each run of whitespace made one space and none at the ends.
pub open spec fn flattened(content: Seq<char>) -> Seq<char> {
    joined(words(content), space())
}

/// Whether `content` looks like code: it holds both parentheses and a
/// semicolon.
pub open spec fn looks_like_code(content: Seq<char>) -> bool {
    content.contains('(') && content.contains(')') && content.contains(';')
}

/// What is shown of a chunk's content. Whitespace is flattened. Code that
/// shows a function call is shown as that call. Other content of more than
/// two hundred bytes and thirty words is cut after thirty words.
pub open spec fn summarized(content: Seq<char>) -> Seq<char> {
    let flat = flattened(content);
    if looks_like_code(flat) && function_call_of(flat) is Some {
        "Function: "@ + function_call_of(flat)->0
    } else if utf8_len(flat) > SUMMARY_BYTES && words(flat).len() > SUMMARY_WORDS {
        joined(words(flat).take(SUMMARY_WORDS as int), space()) + "..."@
    } else {
        flat
    }
}

/// What is shown of a chunk's content, as characters.
pub fn summarize(content: &Vec<char>) -> (r: Vec<char>)
    ensures
        r@ == summarized(content@),
{
    let mut sep: Vec<char> = Vec::new();
    sep.push(' ');
    assert(sep@ =~= space());
    let parts = split_whitespace(content);
    let flat = join(&parts, &sep);
    if has_char(&flat, '(') && has_char(&flat, ')') && has_char(&flat, ';') {
        match call_in(&flat) {
            Some(call) => {
                let mut out = chars_of("Function: ");
                extend(&mut out, &call);
                return out;
            },
            None => {},
        }
    }
    if byte_len(&flat) > SUMMARY_BYTES {
        let again = split_whitespace(&flat);
        if again.len() > SUMMARY_WORDS {
            let mut head: Vec<Vec<char>> = Vec::new();
            let mut i: usize = 0;
            assert(views(head@) =~= views(again@).take(0));
            while i < SUMMARY_WORDS
                invariant
                    i <= SUMMARY_WORDS < again.len(),
                    views(head@) == views(again@).take(i as int),
                decreases SUMMARY_WORDS - i,
            {
                let ghost before = head@;
                let w = again[i].clone();
                head.push(w);
                proof {
                    lemma_views_push(before, w);
                    assert(views(again@).take(i + 1) =~= views(again@).take(i as int).push(
                        again[i as int]@,
                    ));
                }
                i += 1;
            }
            let mut out = join(&head, &sep);
            push_str(&mut out, "...");
            return out;
        }
    }
    flat
}

/// What is shown of a chunk's content.
pub fn clean_and_summarize_content(content: &str) -> (r: String)
    ensures
        r@ == summarized(content@),
{
    let chars = chars_of(content);
    string_of(&summarize(&chars))
}

} // verus!
