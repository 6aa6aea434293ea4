//! Where the session of a repository is kept.

use sha2::{Digest, Sha256};
use vstd::prelude::*;
use crate::paths::{join, path_joined};
use crate::text::copy_of;

verus! {

/// The SHA-256 digest of a text.
pub uninterp spec fn sha256(text: Seq<char>) -> Seq<u8>;

/// `Sha256::digest` of the bytes of a text: the digest depends on the text alone, and has 32 bytes.
#[verifier::external_body]
pub(crate) fn digest(text: &str) -> (r: Vec<u8>)
    ensures
        r@ == sha256(text@),
        r@.len() == 32,
{
    Sha256::digest(text.as_bytes()).to_vec()
}

/// The hexadecimal digit with a value.
pub open spec fn hex_digit(d: int) -> char {
    if d < 10 {
        ('0' as int + d) as char
    } else {
        ('a' as int + d - 10) as char
    }
}

/// Some bytes in hexadecimal, two digits for each, in lower case.
pub open spec fn hex_text(bytes: Seq<u8>) -> Seq<char> {
    Seq::new(
        2 * bytes.len(),
        |i: int|
            if i % 2 == 0 {
                hex_digit(bytes[i / 2] as int / 16)
            } else {
                hex_digit(bytes[i / 2] as int % 16)
            },
    )
}

/// `hex::encode`: each byte as two hexadecimal digits, in lower case.
#[verifier::external_body]
pub(crate) fn encode(bytes: &Vec<u8>) -> (r: String)
    ensures
        r@ == hex_text(bytes@),
{
    hex::encode(bytes)
}

/// The name of the session file of a repository whose root has a digest: the first eight bytes of
/// the digest, in hexadecimal.
pub open spec fn session_name(hash: Seq<u8>) -> Seq<char> {
    hex_text(hash.take(8)) + ".json"@
}

/// The name of the session file of a repository whose root has a digest.
pub fn session_file_name(hash: &Vec<u8>) -> (r: String)
    requires
        hash@.len() >= 8,
    ensures
        r@ == session_name(hash@),
{
    let mut first: Vec<u8> = Vec::new();
    let mut i: usize = 0;
    while i < 8
        invariant
            i <= 8,
            hash@.len() >= 8,
            first@ == hash@.take(i as int),
        decreases 8 - i,
    {
        first.push(hash[i]);
        i += 1;
        assert(first@ =~= hash@.take(i as int));
    }
    let mut name = encode(&first);
    name.append(".json");
    name
}

/// The session file of a repository, in a directory. `canonical` is the root as it is spelled on
/// disk.
pub fn session_file_path(dir: &str, canonical: &str) -> (r: String)
    ensures
        r@ == path_joined(dir@, session_name(sha256(canonical@))),
{
    let name = session_file_name(&digest(canonical));
    join(dir, name.as_str())
}

/// The file that a session is written to before it takes the place of the one before.
pub fn temporary_path(path: &str) -> (r: String)
    ensures
        r@ == path@ + ".tmp"@,
{
    let mut out = copy_of(path);
    out.append(".tmp");
    out
}

/// A session file has a name of sixteen hexadecimal digits and its ending.
pub proof fn law_session_name_has_fixed_length(hash: Seq<u8>)
    requires
        hash.len() >= 8,
    ensures
        session_name(hash).len() == 21,
{
    reveal_strlit(".json");
}

} // verus!
