//! Short hexadecimal digests of one line and of a whole file.

use vstd::prelude::*;
use std::hash::Hasher;
use crate::text::{hex_digits, push_hex, trim_end_spec, trim_end_str};

verus! {

/// The 64-bit FNV-1a hash of the UTF-8 encoding of a text.
pub uninterp spec fn fnv1a_of(s: Seq<char>) -> u64;

/// Relies on `fnv::FnvHasher` (its `Default` start value, `write` and
/// `finish`): the FNV-1a hash of the text's bytes, which depend on the
/// characters alone.
#[verifier::external_body]
fn fnv1a(s: &str) -> (r: u64)
    ensures
        r == fnv1a_of(s@),
{
    let mut hasher = fnv::FnvHasher::default();
    hasher.write(s.as_bytes());
    hasher.finish()
}

/// Two lower-case hex digits: the low 8 bits of the hash of the line with
/// its trailing whitespace removed.
pub open spec fn line_hash(s: Seq<char>) -> Seq<char> {
    hex_digits((fnv1a_of(trim_end_spec(s)) % 256) as nat, 2)
}

/// Six lower-case hex digits: the low 24 bits of the hash of the whole text.
pub open spec fn file_digest(s: Seq<char>) -> Seq<char> {
    hex_digits((fnv1a_of(s) % 0x1000000) as nat, 6)
}

/// The anchor hash of one line.
pub fn hash_line(content: &str) -> (r: String)
    ensures
        r@ == line_hash(content@),
{
    let trimmed = trim_end_str(content);
    let h = fnv1a(trimmed);
    let mut r = String::new();
    push_hex(&mut r, h % 256, 2);
    assert(r@ =~= line_hash(content@));
    r
}

/// The concurrency token of a whole file.
pub fn compute_file_hash(content: &str) -> (r: String)
    ensures
        r@ == file_digest(content@),
{
    let h = fnv1a(content);
    let mut r = String::new();
    push_hex(&mut r, h % 0x1000000, 6);
    assert(r@ =~= file_digest(content@));
    r
}

} // verus!
