//! The cryptographic primitives that the schemes are built on.
//!
//! Nothing in this module is proved: each function hands its arguments to an
//! implementation outside this crate, and its contract is taken on trust.

use crypto::digest::Digest;
use vstd::prelude::*;

verus! {

/// The MD5 digest (RFC 1321) of a byte string.
pub uninterp spec fn md5_digest(data: Seq<u8>) -> Seq<u8>;

/// The SHA-1 digest (FIPS 180) of a byte string.
pub uninterp spec fn sha1_digest(data: Seq<u8>) -> Seq<u8>;

/// Longest message, in bytes, that the SHA-1 implementation accepts: it
/// counts the message length in bits in a `u64`.
pub const SHA1_MAX_LEN: u64 = 0x1fff_ffff_ffff_ffff;

/// Longest input, in bytes, that is handed to the base64 encoder.
pub const BASE64_MAX_LEN: usize = 0x2000_0000;

/// Calls `crypto::md5::Md5`: a fresh context is fed `data` in one piece and
/// finalised. The result depends on `data` alone and is sixteen bytes long.
#[verifier::external_body]
pub(crate) fn md5(data: &[u8]) -> (out: [u8; 16])
    ensures
        out@ == md5_digest(data@),
{
    let mut hasher = crypto::md5::Md5::new();
    hasher.input(data);
    let mut out = [0u8; 16];
    hasher.result(&mut out);
    out
}

/// Calls `crypto::sha1::Sha1`: a fresh context is fed `data` in one piece and
/// finalised. The result depends on `data` alone and is twenty bytes long.
/// The implementation panics when the length in bits overflows a `u64`.
#[verifier::external_body]
pub(crate) fn sha1(data: &[u8]) -> (out: [u8; 20])
    requires
        data@.len() <= SHA1_MAX_LEN,
    ensures
        out@ == sha1_digest(data@),
{
    let mut hasher = crypto::sha1::Sha1::new();
    hasher.input(data);
    let mut out = [0u8; 20];
    hasher.result(&mut out);
    out
}

/// Alphabet of standard base64 (RFC 4648): symbol `i` stands for the value `i`.
pub const BASE64_ALPHABET: &'static str =
    "ABCDEFGHIJKLMNOPQRSTUVWXYZabcdefghijklmnopqrstuvwxyz0123456789+/";

/// The base64 symbol that stands for a six-bit value.
pub open spec fn base64_symbol(value: int) -> char
    recommends
        0 <= value < 64,
{
    BASE64_ALPHABET@[value]
}

/// The standard base64 encoding of a byte string, with `=` padding: each
/// group of three bytes gives four symbols, most significant bits first.
pub open spec fn base64_text(data: Seq<u8>) -> Seq<char>
    decreases data.len(),
{
    if data.len() == 0 {
        Seq::empty()
    } else {
        let a = data[0] as int;
        let b = if data.len() > 1 { data[1] as int } else { 0 };
        let c = if data.len() > 2 { data[2] as int } else { 0 };
        let first = base64_symbol(a / 4);
        let second = base64_symbol(a % 4 * 16 + b / 16);
        let third = base64_symbol(b % 16 * 4 + c / 64);
        let fourth = base64_symbol(c % 64);
        if data.len() == 1 {
            seq![first, second, '=', '=']
        } else if data.len() == 2 {
            seq![first, second, third, '=']
        } else {
            seq![first, second, third, fourth] + base64_text(data.skip(3))
        }
    }
}

/// Calls `base64::encode`, which encodes with the standard alphabet and
/// padding. It panics where the length of the result overflows `usize`.
#[verifier::external_body]
pub(crate) fn base64_encode(data: &[u8]) -> (text: String)
    requires
        data@.len() <= BASE64_MAX_LEN,
    ensures
        text@ == base64_text(data@),
{
    base64::encode(data)
}

/// Declares `bcrypt::BcryptError`, the reason for which `bcrypt::verify`
/// fails. Nothing is known of a value of it.
#[verifier::external_type_specification]
#[verifier::external_body]
pub struct ExBcryptError(bcrypt::BcryptError);

/// What `bcrypt::verify` makes of a password and a stored hash: whether the
/// password is accepted, or `None` where the hash cannot be processed.
pub uninterp spec fn bcrypt_verdict(password: Seq<u8>, hash: Seq<char>) -> Option<bool>;

/// The answer of a bcrypt verification, without the reason of a failure.
pub open spec fn bcrypt_answer(outcome: Result<bool, bcrypt::BcryptError>) -> Option<bool> {
    match outcome {
        Ok(accepted) => Some(accepted),
        Err(_) => None,
    }
}

/// Calls `bcrypt::verify`, which parses cost, salt and digest out of `hash`,
/// hashes `password` with them and compares. The outcome depends on the two
/// arguments alone; nothing is claimed about which hashes it accepts.
#[verifier::external_body]
pub(crate) fn bcrypt_verify(password: &[u8], hash: &str) -> (outcome: Result<
    bool,
    bcrypt::BcryptError,
>)
    ensures
        bcrypt_answer(outcome) == bcrypt_verdict(password@, hash@),
{
    bcrypt::verify(password, hash)
}

/// Number of leading characters of a Unix crypt hash that hold its salt.
pub const CRYPT_SALT_LEN: usize = 2;

/// The salt of a Unix crypt hash: its first two characters, or all of it
/// where it is shorter.
pub open spec fn crypt_salt(hash: Seq<char>) -> Seq<char> {
    if hash.len() >= CRYPT_SALT_LEN {
        hash.take(CRYPT_SALT_LEN as int)
    } else {
        hash
    }
}

/// The hash string that Unix crypt gives for a password under a salt, as
/// `pwhash::unix_crypt::hash_with` computes it; `None` where it fails, which
/// it does on a salt that it cannot decode.
pub uninterp spec fn unix_crypt_text(password: Seq<u8>, salt: Seq<char>) -> Option<Seq<char>>;

/// Whether every salt character of `hash` lies between the space and
/// U+007F, the range that the salt decoder of the primitive can look up.
pub open spec fn crypt_salt_in_range(hash: Seq<char>) -> bool {
    forall|i: int|
        0 <= i < hash.len() && i < CRYPT_SALT_LEN ==> 0x20 <= #[trigger] hash[i] as u32 <= 0x7f
}

/// Calls `pwhash::unix_crypt::verify`, which hashes `password` under the
/// salt that it decodes from the first two characters of `hash`, reading no
/// further, and accepts where the hash string so computed equals `hash`.
///
/// To decode a salt character the implementation subtracts 0x20 from its
/// code and looks the difference up in a table of 96 entries, after a test
/// that lets 0x60 pass: a code below 0x20 overflows the subtraction, and
/// U+0080 reads past the table.
#[verifier::external_body]
pub(crate) fn unix_crypt_verify(password: &[u8], hash: &str) -> (accepted: bool)
    requires
        crypt_salt_in_range(hash@),
    ensures
        accepted == (unix_crypt_text(password@, crypt_salt(hash@)) == Some(hash@)),
{
    pwhash::unix_crypt::verify(password, hash)
}

} // verus!
