//! The APR1 password digest: Apache's salted, thousand-round variant of
//! MD5-crypt, rendered in its own 64-symbol alphabet.
//!
//! The digest is defined here as a mathematical function of the password and
//! salt bytes, in terms of plain MD5 ([`md5_digest`]); the executable
//! functions are proved to compute exactly that function.

use crate::error::HtpasswdError;
use crate::primitives::{md5, md5_digest};
use crate::text::{starts_with, str_eq};
use vstd::prelude::*;
use vstd::string::*;
use vstd::utf8::encode_utf8;

verus! {

/// Marker that opens every APR1 hash string.
pub const APR1_ID: &'static str = "$apr1$";

/// Alphabet of the encoding: symbol `i` stands for the value `i`.
pub const ITOA64: &'static str = "./0123456789ABCDEFGHIJKLMNOPQRSTUVWXYZabcdefghijklmnopqrstuvwxyz";

/// Number of MD5 rounds that follow the seed digest.
pub const ROUNDS: u32 = 1000;

/// Number of characters in the salt of a stored hash.
pub const SALT_LEN: usize = 8;

/// The bytes of [`APR1_ID`].
pub open spec fn marker_bytes() -> Seq<u8> {
    APR1_ID.spec_bytes()
}

/// The first `n` bytes of `block` repeated without end.
pub open spec fn cycled(block: Seq<u8>, n: nat) -> Seq<u8>
    recommends
        block.len() > 0,
{
    Seq::new(n, |i: int| block[i % (block.len() as int)])
}

/// One byte for each binary digit of `n`, least significant digit first: a
/// zero byte for a one digit, `first` for a zero digit.
pub open spec fn length_marks(first: u8, n: nat) -> Seq<u8>
    decreases n,
{
    if n == 0 {
        Seq::empty()
    } else {
        seq![if n % 2 == 1 { 0u8 } else { first }] + length_marks(first, n / 2)
    }
}

/// The first byte of the password, where it has one.
pub open spec fn first_byte(password: Seq<u8>) -> u8 {
    if password.len() > 0 {
        password[0]
    } else {
        0
    }
}

/// The message whose MD5 digest starts the rounds.
pub open spec fn seed_message(password: Seq<u8>, salt: Seq<u8>) -> Seq<u8> {
    password + marker_bytes() + salt + cycled(
        md5_digest(password + salt + password),
        password.len(),
    ) + length_marks(first_byte(password), password.len())
}

/// The message of round `round`, built around the digest `prev` of the round
/// before it.
pub open spec fn round_message(round: nat, password: Seq<u8>, salt: Seq<u8>, prev: Seq<u8>) -> Seq<
    u8,
> {
    (if round % 2 == 1 { password } else { prev })
    + (if round % 3 != 0 { salt } else { Seq::empty() })
    + (if round % 7 != 0 { password } else { Seq::empty() })
    + (if round % 2 == 1 { prev } else { password })
}

/// The running digest after `rounds` rounds.
pub open spec fn digest_after(rounds: nat, password: Seq<u8>, salt: Seq<u8>) -> Seq<u8>
    decreases rounds,
{
    if rounds == 0 {
        md5_digest(seed_message(password, salt))
    } else {
        md5_digest(
            round_message(
                (rounds - 1) as nat,
                password,
                salt,
                digest_after((rounds - 1) as nat, password, salt),
            ),
        )
    }
}

/// The sixteen-byte APR1 digest of a password under a salt.
pub open spec fn apr1_digest(password: Seq<u8>, salt: Seq<u8>) -> Seq<u8> {
    digest_after(ROUNDS as nat, password, salt)
}

/// The symbol that stands for a six-bit value.
pub open spec fn symbol(value: int) -> char
    recommends
        0 <= value < 64,
{
    ITOA64@[value]
}

/// The `count` lowest six-bit digits of `value` as symbols, lowest first.
pub open spec fn to64(value: nat, count: nat) -> Seq<char>
    decreases count,
{
    if count == 0 {
        Seq::empty()
    } else {
        seq![symbol((value % 64) as int)] + to64(value / 64, (count - 1) as nat)
    }
}

/// Three bytes as one 24-bit number, `high` first.
pub open spec fn pack(high: u8, mid: u8, low: u8) -> nat {
    (high as nat) * 65536 + (mid as nat) * 256 + (low as nat)
}

/// The 22 symbols that render a sixteen-byte digest.
pub open spec fn digest_text(digest: Seq<u8>) -> Seq<char>
    recommends
        digest.len() == 16,
{
    to64(pack(digest[0], digest[6], digest[12]), 4)
    + to64(pack(digest[1], digest[7], digest[13]), 4)
    + to64(pack(digest[2], digest[8], digest[14]), 4)
    + to64(pack(digest[3], digest[9], digest[15]), 4)
    + to64(pack(digest[4], digest[10], digest[5]), 4)
    + to64(digest[11] as nat, 2)
}

/// Number of symbols that render a digest.
pub const TEXT_LEN: usize = 22;

/// `to64` gives as many symbols as it is asked for.
pub proof fn lemma_to64_len(value: nat, count: nat)
    ensures
        to64(value, count).len() == count,
    decreases count,
{
    if count > 0 {
        lemma_to64_len(value / 64, (count - 1) as nat);
    }
}

/// Every digest is rendered in [`TEXT_LEN`] symbols.
pub proof fn lemma_digest_text_len(digest: Seq<u8>)
    ensures
        digest_text(digest).len() == TEXT_LEN,
{
    lemma_to64_len(pack(digest[0], digest[6], digest[12]), 4);
    lemma_to64_len(pack(digest[1], digest[7], digest[13]), 4);
    lemma_to64_len(pack(digest[2], digest[8], digest[14]), 4);
    lemma_to64_len(pack(digest[3], digest[9], digest[15]), 4);
    lemma_to64_len(pack(digest[4], digest[10], digest[5]), 4);
    lemma_to64_len(digest[11] as nat, 2);
}

/// The encoded APR1 digest of a password under a salt.
pub open spec fn apr1_text(password: Seq<u8>, salt: Seq<u8>) -> Seq<char> {
    digest_text(apr1_digest(password, salt))
}

/// Appends `src` to `buf`.
fn append_bytes(buf: &mut Vec<u8>, src: &[u8])
    ensures
        final(buf)@ == old(buf)@ + src@,
{
    let mut i: usize = 0;
    while i < src.len()
        invariant
            i <= src@.len(),
            buf@ == old(buf)@ + src@.take(i as int),
        decreases src@.len() - i,
    {
        buf.push(src[i]);
        i += 1;
    }
}

/// Builds the message that seeds the rounds.
pub fn seed_input(password: &[u8], salt: &[u8]) -> (buf: Vec<u8>)
    ensures
        buf@ == seed_message(password@, salt@),
{
    let mut inner: Vec<u8> = Vec::new();
    append_bytes(&mut inner, password);
    append_bytes(&mut inner, salt);
    append_bytes(&mut inner, password);
    let alt = md5(inner.as_slice());

    let mut buf: Vec<u8> = Vec::new();
    append_bytes(&mut buf, password);
    append_bytes(&mut buf, APR1_ID.as_bytes());
    append_bytes(&mut buf, salt);
    let ghost head = password@ + marker_bytes() + salt@;
    assert(buf@ == head);

    let mut i: usize = 0;
    while i < password.len()
        invariant
            i <= password@.len(),
            alt@.len() == 16,
            buf@ == head + cycled(alt@, i as nat),
        decreases password@.len() - i,
    {
        buf.push(alt[i % 16]);
        i += 1;
    }

    let ghost body = buf@;
    let mut n: usize = password.len();
    while n != 0
        invariant
            n <= password@.len(),
            length_marks(first_byte(password@), password@.len() as nat) == (buf@.skip(
                body.len() as int,
            )) + length_marks(first_byte(password@), n as nat),
            body.is_prefix_of(buf@),
        decreases n,
    {
        if n % 2 == 1 {
            buf.push(0u8);
        } else {
            buf.push(password[0]);
        }
        n = n / 2;
    }
    assert(buf@ == body + buf@.skip(body.len() as int));
    buf
}

/// Builds the message of one round.
pub fn round_input(round: u32, password: &[u8], salt: &[u8], prev: &[u8]) -> (buf: Vec<u8>)
    ensures
        buf@ == round_message(round as nat, password@, salt@, prev@),
{
    let mut buf: Vec<u8> = Vec::new();
    if round % 2 == 1 {
        append_bytes(&mut buf, password);
    } else {
        append_bytes(&mut buf, prev);
    }
    if round % 3 != 0 {
        append_bytes(&mut buf, salt);
    }
    if round % 7 != 0 {
        append_bytes(&mut buf, password);
    }
    if round % 2 == 1 {
        append_bytes(&mut buf, prev);
    } else {
        append_bytes(&mut buf, password);
    }
    buf
}

/// Computes the sixteen-byte APR1 digest of a password under a salt.
pub fn apr1_bytes(password: &[u8], salt: &[u8]) -> (digest: [u8; 16])
    ensures
        digest@ == apr1_digest(password@, salt@),
{
    let seed = seed_input(password, salt);
    let mut digest = md5(seed.as_slice());
    let mut round: u32 = 0;
    while round < ROUNDS
        invariant
            round <= ROUNDS,
            digest@ == digest_after(round as nat, password@, salt@),
        decreases ROUNDS - round,
    {
        let message = round_input(round, password, salt, digest.as_slice());
        digest = md5(message.as_slice());
        round += 1;
    }
    digest
}

/// Appends the `count` lowest six-bit digits of `value` as symbols.
fn push_symbols(out: &mut String, value: u32, count: usize)
    ensures
        final(out)@ == old(out)@ + to64(value as nat, count as nat),
{
    proof {
        reveal_strlit("./0123456789ABCDEFGHIJKLMNOPQRSTUVWXYZabcdefghijklmnopqrstuvwxyz");
    }
    let mut rest: u32 = value;
    let mut left: usize = count;
    while left > 0
        invariant
            ITOA64@.len() == 64,
            ITOA64.is_ascii(),
            out@ + to64(rest as nat, left as nat) == old(out)@ + to64(value as nat, count as nat),
        decreases left,
    {
        let digit: usize = (rest % 64) as usize;
        let one = ITOA64.substring_ascii(digit, digit + 1);
        assert(one@ == seq![symbol(digit as int)]);
        let ghost before = out@;
        out.append(one);
        assert(out@ + to64((rest / 64) as nat, (left - 1) as nat) == before + to64(
            rest as nat,
            left as nat,
        ));
        rest = rest / 64;
        left -= 1;
    }
}

/// Packs three bytes into one number, `high` first.
fn pack_bytes(high: u8, mid: u8, low: u8) -> (value: u32)
    ensures
        value == pack(high, mid, low),
{
    (high as u32) * 65536 + (mid as u32) * 256 + (low as u32)
}

/// Renders a sixteen-byte digest as its 22 symbols.
pub fn encode_digest(digest: &[u8; 16]) -> (text: String)
    ensures
        text@ == digest_text(digest@),
        text@.len() == TEXT_LEN,
{
    proof {
        lemma_digest_text_len(digest@);
    }
    let mut text = String::new();
    push_symbols(&mut text, pack_bytes(digest[0], digest[6], digest[12]), 4);
    push_symbols(&mut text, pack_bytes(digest[1], digest[7], digest[13]), 4);
    push_symbols(&mut text, pack_bytes(digest[2], digest[8], digest[14]), 4);
    push_symbols(&mut text, pack_bytes(digest[3], digest[9], digest[15]), 4);
    push_symbols(&mut text, pack_bytes(digest[4], digest[10], digest[5]), 4);
    push_symbols(&mut text, digest[11] as u32, 2);
    text
}

/// Computes the encoded APR1 digest of `password` under `salt`.
///
/// The salt is used as it is given; a stored hash carries one of
/// [`SALT_LEN`] characters.
pub fn md5_apr1_encode(password: &str, salt: &str) -> (text: String)
    ensures
        text@ == apr1_text(password.spec_bytes(), salt.spec_bytes()),
        text@.len() == TEXT_LEN,
{
    let digest = apr1_bytes(password.as_bytes(), salt.as_bytes());
    encode_digest(&digest)
}

/// The full hash string for an encoded digest and its salt.
pub open spec fn hash_string(digest: Seq<char>, salt: Seq<char>) -> Seq<char> {
    APR1_ID@ + salt + seq!['$'] + digest
}

/// Assembles the hash string stored for an encoded digest and its salt.
pub fn format_hash(password_hash: &str, salt: &str) -> (text: String)
    ensures
        text@ == hash_string(password_hash@, salt@),
{
    let mut text = String::from_str(APR1_ID);
    text.append(salt);
    text.append("$");
    proof {
        reveal_strlit("$");
        assert("$"@ =~= seq!['$']);
    }
    text.append(password_hash);
    text
}

/// Where the salt of a stored hash ends.
pub open spec fn salt_end() -> int {
    APR1_ID@.len() + SALT_LEN
}

/// Whether a stored hash is long enough to hold marker, salt and separator.
pub open spec fn holds_salt(stored: Seq<char>) -> bool {
    stored.len() > salt_end()
}

/// The salt of a stored hash: the [`SALT_LEN`] characters after the marker.
pub open spec fn salt_of(stored: Seq<char>) -> Seq<char> {
    stored.subrange(APR1_ID@.len() as int, salt_end())
}

/// The encoded digest of a stored hash: all that follows the separator.
pub open spec fn digest_of(stored: Seq<char>) -> Seq<char> {
    stored.subrange(salt_end() + 1, stored.len() as int)
}

/// Cuts a stored hash into salt and encoded digest by position. The
/// character between them is skipped, whatever it is.
pub fn salt_and_digest<'a>(stored: &'a str) -> (parts: Option<(&'a str, &'a str)>)
    ensures
        parts is Some == holds_salt(stored@),
        parts matches Some((salt, digest)) ==> salt@ == salt_of(stored@) && digest@ == digest_of(
            stored@,
        ),
{
    proof {
        reveal_strlit("$apr1$");
    }
    let n: usize = stored.unicode_len();
    let salt_from: usize = APR1_ID.unicode_len();
    let salt_to: usize = salt_from + SALT_LEN;
    if n <= salt_to {
        return None;
    }
    Some((stored.substring_char(salt_from, salt_to), stored.substring_char(salt_to + 1, n)))
}

/// What verifying `password` against the stored APR1 hash `stored` yields.
pub open spec fn apr1_verdict(stored: Seq<char>, password: Seq<u8>) -> Result<
    bool,
    HtpasswdError,
> {
    if APR1_ID@.is_prefix_of(stored) && holds_salt(stored) {
        Ok(apr1_text(password, encode_utf8(salt_of(stored))) == digest_of(stored))
    } else {
        Err(HtpasswdError::MalformedHash)
    }
}

/// Verifies a password against a stored APR1 hash string.
///
/// Fails with [`HtpasswdError::MalformedHash`] where the string does not
/// open with [`APR1_ID`] or ends before the separator behind the salt.
pub fn verify_apr1_hash(hash: &str, password: &str) -> (verdict: Result<bool, HtpasswdError>)
    ensures
        verdict == apr1_verdict(hash@, password.spec_bytes()),
{
    if !starts_with(hash, APR1_ID) {
        return Err(HtpasswdError::MalformedHash);
    }
    match salt_and_digest(hash) {
        None => Err(HtpasswdError::MalformedHash),
        Some((salt, digest)) => {
            let computed = md5_apr1_encode(password, salt);
            Ok(str_eq(computed.as_str(), digest))
        },
    }
}

} // verus!
