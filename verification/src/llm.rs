//! What is worked out for the language model before and after it is called.

use vstd::prelude::*;
use crate::text::{chars_of, push_str, string_of, trim, trimmed};

verus! {

/// Where the language model is found, and which one it is.
#[derive(Debug, Clone)]
pub struct OllamaLLMClient {
    pub base_url: String,
    pub model: String,
}

/// The prompt for a question over a context.
pub open spec fn prompt_of(question: Seq<char>, context: Seq<char>) -> Seq<char> {
    "You are a helpful AI assistant. Based on the following context, provide a clear and concise answer to the question.\n\nQuestion: "@
        + question + "\n\nContext:\n"@ + context + "\n\nAnswer:"@
}

/// What stands for the answer where the model gave none: a notice, and the
/// context behind it.
pub open spec fn unanswered(context: Seq<char>) -> Seq<char> {
    "I couldn't generate a response using the LLM. Here's the relevant information from the context:\n\n"@
        + context
}

/// The answer from what the model responded: the response, trimmed, or the
/// notice where there is none.
pub open spec fn answer_from(response: Option<Seq<char>>, context: Seq<char>) -> Seq<char> {
    match response {
        Some(text) => trimmed(text),
        None => unanswered(context),
    }
}

impl OllamaLLMClient {
    /// A client for the model `model` at `base_url`.
    pub fn new(base_url: String, model: String) -> (r: Self)
        ensures
            r.base_url == base_url,
            r.model == model,
    {
        OllamaLLMClient { base_url, model }
    }

    /// The address that generation requests go to.
    pub fn generate_url(&self) -> (r: String)
        ensures
            r@ == self.base_url@ + "/api/generate"@,
    {
        let mut out = chars_of(self.base_url.as_str());
        push_str(&mut out, "/api/generate");
        string_of(&out)
    }

    /// The prompt for a question over a context.
    pub fn prompt(&self, question: &str, context: &str) -> (r: String)
        ensures
            r@ == prompt_of(question@, context@),
    {
        let mut out = chars_of(
            "You are a helpful AI assistant. Based on the following context, provide a clear and concise answer to the question.\n\nQuestion: ",
        );
        push_str(&mut out, question);
        push_str(&mut out, "\n\nContext:\n");
        push_str(&mut out, context);
        push_str(&mut out, "\n\nAnswer:");
        string_of(&out)
    }

    /// The answer from what the model responded, if it responded with a text.
    pub fn interpret(&self, response: Option<&str>, context: &str) -> (r: String)
        ensures
            r@ == answer_from(
                match response {
                    Some(text) => Some(text@),
                    None => None,
                },
                context@,
            ),
    {
        match response {
            Some(text) => string_of(&trim(&chars_of(text))),
            None => {
                let mut out = chars_of(
                    "I couldn't generate a response using the LLM. Here's the relevant information from the context:\n\n",
                );
                push_str(&mut out, context);
                string_of(&out)
            },
        }
    }
}

} // verus!
