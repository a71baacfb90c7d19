//! Sessions: the hashed session id kept in the database, derived from the
//! raw token held in the visitor's cookie.

use vstd::prelude::*;

use sha2::Digest;
use vstd::string::StringSliceAdditionalSpecFns;

verus! {

/// The SHA-256 digest of `data`.
pub uninterp spec fn sha256_digest(data: Seq<u8>) -> Seq<u8>;

/// `sha2::Sha256::digest`: the SHA-256 digest of `data`, 32 bytes long (its
/// output type is a 32-byte array). What the digest is, is left to the name.
#[verifier::external_body]
pub(crate) fn sha256(data: &[u8]) -> (r: Vec<u8>)
    ensures
        r@ == sha256_digest(data@),
        r@.len() == 32,
{
    sha2::Sha256::digest(data).to_vec()
}

/// The lower-case hexadecimal digit of `n` (`0 <= n < 16`).
pub open spec fn hex_digit(n: int) -> char {
    if n < 10 {
        (48 + n) as char
    } else {
        (87 + n) as char
    }
}

/// Lower-case hexadecimal of `bytes`, two digits per byte, high digit first.
pub open spec fn hex_lower(bytes: Seq<u8>) -> Seq<char>
    decreases bytes.len(),
{
    if bytes.len() == 0 {
        Seq::empty()
    } else {
        hex_lower(bytes.drop_last()) + seq![
            hex_digit(bytes.last() as int / 16),
            hex_digit(bytes.last() as int % 16),
        ]
    }
}

/// `hex::encode`: lower-case hexadecimal of `bytes`, two digits per byte,
/// high digit first, as its source writes them from the table
/// `0123456789abcdef`.
#[verifier::external_body]
pub(crate) fn hex_encode(bytes: &[u8]) -> (r: String)
    ensures
        r@ == hex_lower(bytes@),
{
    hex::encode(bytes)
}

/// Hashes a raw token for safe storage: the lower-case hexadecimal of the
/// SHA-256 digest of its UTF-8 bytes (64 characters).
pub fn hash_token(raw: &str) -> (r: String)
    ensures
        r@ == hex_lower(sha256_digest(raw.spec_bytes())),
        r@.len() == 64,
{
    let digest = sha256(raw.as_bytes());
    proof {
        law_hex_shape(digest@);
    }
    hex_encode(digest.as_slice())
}

/// The hashed session id of the current request.
#[derive(Debug)]
pub struct UserSession(pub String);

impl Clone for UserSession {
    fn clone(&self) -> (r: Self)
        ensures
            r == *self,
    {
        UserSession(self.0.clone())
    }
}

/// The hexadecimal of `n` bytes has `2n` characters, each a lower-case hex
/// digit.
pub proof fn law_hex_shape(bytes: Seq<u8>)
    ensures
        hex_lower(bytes).len() == 2 * bytes.len(),
        forall|i: int|
            0 <= i < hex_lower(bytes).len() ==> {
                let c = #[trigger] hex_lower(bytes)[i];
                ('0' <= c <= '9') || ('a' <= c <= 'f')
            },
    decreases bytes.len(),
{
    if bytes.len() > 0 {
        law_hex_shape(bytes.drop_last());
        let b = bytes.last() as int;
        assert(0 <= b / 16 < 16 && 0 <= b % 16 < 16);
    }
}

/// A hashed token is 64 lower-case hexadecimal digits.
pub proof fn law_hash_token_shape(raw: Seq<u8>, digest: Seq<u8>)
    requires
        digest == sha256_digest(raw),
        digest.len() == 32,
    ensures
        hex_lower(digest).len() == 64,
        forall|i: int|
            0 <= i < 64 ==> {
                let c = #[trigger] hex_lower(digest)[i];
                ('0' <= c <= '9') || ('a' <= c <= 'f')
            },
{
    law_hex_shape(digest);
}

} // verus!
