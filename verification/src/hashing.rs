//! The content hash by which a changed document is told from an unchanged
//! one.

use sha2::Digest;
use vstd::prelude::*;
use vstd::string::StringSliceAdditionalSpecFns;
use crate::text::string_of;

verus! {

/// The SHA-256 digest of a sequence of bytes.
pub uninterp spec fn sha256(data: Seq<u8>) -> Seq<u8>;

/// Calls `sha2::Sha256::digest`, which hashes the data with a fresh SHA-256
/// hasher, and copies the digest out. The digest depends on the data alone.
#[verifier::external_body]
fn sha256_digest(data: &[u8]) -> (digest: Vec<u8>)
    ensures
        digest@ == sha256(data@),
{
    sha2::Sha256::digest(data).to_vec()
}

/// The lowercase hexadecimal digit for a value below sixteen.
pub open spec fn hex_digit(n: int) -> char {
    if n < 10 {
        ((0x30 + n) as u8) as char
    } else {
        ((0x61 + n - 10) as u8) as char
    }
}

/// Bytes in lowercase hexadecimal, two digits each.
pub open spec fn hex_lower(bytes: Seq<u8>) -> Seq<char>
    decreases bytes.len(),
{
    if bytes.len() == 0 {
        seq![]
    } else {
        hex_lower(bytes.drop_last()) + seq![
            hex_digit(bytes.last() as int / 16),
            hex_digit(bytes.last() as int % 16),
        ]
    }
}

fn hex_char(n: u8) -> (c: char)
    requires
        n < 16,
    ensures
        c == hex_digit(n as int),
{
    if n < 10 {
        (0x30u8 + n) as char
    } else {
        (0x61u8 + n - 10) as char
    }
}

/// `hex_lower(bytes)` as characters.
pub fn to_hex(bytes: &Vec<u8>) -> (r: Vec<char>)
    ensures
        r@ == hex_lower(bytes@),
{
    let mut r: Vec<char> = Vec::new();
    let mut i: usize = 0;
    while i < bytes.len()
        invariant
            i <= bytes.len(),
            r@ == hex_lower(bytes@.take(i as int)),
        decreases bytes.len() - i,
    {
        assert(bytes@.take(i + 1).drop_last() == bytes@.take(i as int));
        let ghost before = r@;
        r.push(hex_char(bytes[i] / 16));
        r.push(hex_char(bytes[i] % 16));
        assert(r@ =~= before + seq![
            hex_digit(bytes[i as int] as int / 16),
            hex_digit(bytes[i as int] as int % 16),
        ]);
        i += 1;
    }
    assert(bytes@.take(bytes.len() as int) == bytes@);
    r
}

/// The hash of a document's content.
pub open spec fn file_hash_of(content: Seq<char>) -> Seq<char> {
    hex_lower(sha256(vstd::utf8::encode_utf8(content)))
}

/// The hash of a document's content: the SHA-256 digest of its bytes in
/// lowercase hexadecimal.
pub fn calculate_file_hash(content: &str) -> (r: String)
    ensures
        r@ == file_hash_of(content@),
{
    let digest = sha256_digest(content.as_bytes());
    string_of(&to_hex(&digest))
}

/// Whether a document has to be indexed: unless it is known with the hash
/// that its content has now.
pub fn needs_indexing(known_hash: Option<&str>, content: &str) -> (r: bool)
    ensures
        r == (text_of_hash(known_hash) != Some(file_hash_of(content@))),
{
    match known_hash {
        Some(known) => {
            let now = calculate_file_hash(content);
            let a = crate::text::chars_of(known);
            let b = crate::text::chars_of(now.as_str());
            !crate::text::same(&a, &b)
        },
        None => true,
    }
}

/// The text of a known hash, if there is one.
pub open spec fn text_of_hash(known_hash: Option<&str>) -> Option<Seq<char>> {
    match known_hash {
        Some(h) => Some(h@),
        None => None,
    }
}

} // verus!
