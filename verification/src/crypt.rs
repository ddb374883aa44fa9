//! Password hashing: a password is stored as the lowercase hexadecimal text
//! of its SHA-256 digest, and a password is checked by hashing it again.
use crypto::digest::Digest;
use crypto::sha2::Sha256;
use vstd::prelude::*;

use crate::text::same_text;

verus! {

/// The lowercase hexadecimal text of the SHA-256 digest of the UTF-8 bytes
/// of the given characters.
pub uninterp spec fn sha256_hex(input: Seq<char>) -> Seq<char>;

/// Texts short enough to hash: rust-crypto's SHA-256 panics once the bit
/// length of its input overflows a `u64` (at 2^61 bytes), and a character
/// takes at most four UTF-8 bytes.
pub open spec fn hashable(s: Seq<char>) -> bool {
    s.len() < 0x0800_0000_0000_0000
}

/// Whether `input` is the password whose stored form is `stored`.
pub open spec fn password_accepted(input: Seq<char>, stored: Seq<char>) -> bool {
    sha256_hex(input) == stored
}

/// A lowercase hexadecimal digit.
pub open spec fn is_hex_digit(c: char) -> bool {
    ('0' <= c && c <= '9') || ('a' <= c && c <= 'f')
}

/// Hashes `input` with rust-crypto's `Sha256`: `Sha256::new`, then
/// `Digest::input_str` with `input`, then `Digest::result_str`.
/// Trusted: the result is the named digest text of `input`; as
/// `result_str` writes the 32 digest bytes with `rustc_serialize::hex::ToHex`,
/// whose digits are `0123456789abcdef`, it is 64 such digits long.
#[verifier::external_body]
fn sha256_hex_text(input: &str) -> (r: String)
    requires
        hashable(input@),
    ensures
        r@ == sha256_hex(input@),
        r@.len() == 64,
        forall|i: int| 0 <= i < 64 ==> is_hex_digit(#[trigger] r@[i]),
{
    let mut hasher = Sha256::new();
    hasher.input_str(input);
    hasher.result_str()
}

/// The stored form of a password: the hexadecimal SHA-256 digest of it.
pub fn encrypt(pass: &str) -> (r: String)
    requires
        hashable(pass@),
    ensures
        r@ == sha256_hex(pass@),
        r@.len() == 64,
        forall|i: int| 0 <= i < 64 ==> is_hex_digit(#[trigger] r@[i]),
{
    sha256_hex_text(pass)
}

/// Whether a freshly computed digest matches a stored one.
pub fn digest_matches(digest: &str, stored: &str) -> (r: bool)
    ensures
        r == (digest@ == stored@),
{
    same_text(digest, stored)
}

/// Whether `input` is the password whose stored form is `pass`.
pub fn check(input: &str, pass: &str) -> (r: bool)
    requires
        hashable(input@),
    ensures
        r == password_accepted(input@, pass@),
        !(pass@.len() == 64 && forall|i: int| 0 <= i < 64 ==> is_hex_digit(#[trigger] pass@[i]))
            ==> !r,
{
    let digest = encrypt(input);
    digest_matches(digest.as_str(), pass)
}

/// A password is accepted against its own stored form (the result of
/// `encrypt` on it).
pub proof fn lemma_check_accepts_own_hash(pass: Seq<char>)
    ensures
        password_accepted(pass, sha256_hex(pass)),
{
}

} // verus!
