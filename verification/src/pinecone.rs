//! What is worked out for the remote vector store before it is called.

use vstd::prelude::*;
use crate::config::PineconeConfig;
use crate::number::{decimal, push_decimal};
use crate::text::{chars_of, push_str, string_of};

verus! {

/// What a query cost, as the store reports it.
#[derive(Debug, Clone, Copy, PartialEq, Eq, Structural)]
pub struct Usage {
    pub read_units: u32,
}

/// The address of the store: the configured host, or else the standard
/// address of the index in its environment.
pub open spec fn base_url_of(config: PineconeConfig) -> Seq<char> {
    match config.host {
        Some(host) => host@,
        None => "https://"@ + config.index_name@ + "-0.svc."@ + config.environment@
            + ".pinecone.io"@,
    }
}

/// The address of the store.
pub fn base_url(config: &PineconeConfig) -> (r: String)
    ensures
        r@ == base_url_of(*config),
{
    match &config.host {
        Some(host) => host.clone(),
        None => {
            let mut out = chars_of("https://");
            push_str(&mut out, config.index_name.as_str());
            push_str(&mut out, "-0.svc.");
            push_str(&mut out, config.environment.as_str());
            push_str(&mut out, ".pinecone.io");
            string_of(&out)
        },
    }
}

/// Whether a store is configured: an API key is given.
pub fn is_configured(config: &PineconeConfig) -> (r: bool)
    ensures
        r == (config.api_key@.len() > 0),
{
    chars_of(config.api_key.as_str()).len() > 0
}

/// The id under which a chunk's vector is stored.
pub open spec fn vector_id_of(chunk_id: u32) -> Seq<char> {
    "chunk_"@ + decimal(chunk_id as nat)
}

/// The id under which a chunk's vector is stored.
pub fn vector_id(chunk_id: u32) -> (r: String)
    ensures
        r@ == vector_id_of(chunk_id),
{
    let mut out = chars_of("chunk_");
    push_decimal(&mut out, chunk_id as u128);
    string_of(&out)
}

/// How many candidates the store is asked for: twice the number of context
/// chunks, as far as 32 bits hold it.
pub fn candidates_wanted(context_size: usize) -> (r: u32)
    ensures
        r == if 2 * context_size <= u32::MAX {
            (2 * context_size) as u32
        } else {
            u32::MAX
        },
{
    if context_size <= (u32::MAX / 2) as usize {
        (2 * context_size) as u32
    } else {
        u32::MAX
    }
}

} // verus!
