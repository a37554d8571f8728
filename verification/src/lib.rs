//! Verification of user names and passwords against the entries of an
//! Apache `htpasswd` credential file.
//!
//! Each line of such a file reads `user:hash`, and the opening of the hash
//! string tells its scheme: the salted, thousand-round APR1 variant of
//! MD5-crypt, bcrypt, unsalted SHA-1, or the traditional Unix `crypt`. The
//! APR1 scheme is implemented in [`md5`], on top of plain MD5; the other
//! three are delegated to their primitives.
//!
//! [`load`] builds an [`Htpasswd`] store from the text of a file, and
//! [`Htpasswd::check`] answers whether a password is the one stored for a
//! user. Every executable function states what it returns over the
//! characters of its arguments, and is proved to return that.

pub mod error;
pub mod laws;
pub mod md5;
pub mod primitives;
pub mod text;

use crate::error::HtpasswdError;
use crate::md5::{
    apr1_text, digest_of, holds_salt, md5_apr1_encode, salt_and_digest, salt_of, APR1_ID,
};
use crate::primitives::{
    base64_encode, base64_text, bcrypt_answer, bcrypt_verdict, bcrypt_verify,
    crypt_salt, crypt_salt_in_range, sha1, sha1_digest, unix_crypt_text, unix_crypt_verify,
    SHA1_MAX_LEN,
};
use crate::text::{after, before, lemma_first_index, split_once, starts_with, str_eq};
use vstd::hash_map::StringHashMap;
use vstd::prelude::*;
use vstd::string::*;
use vstd::utf8::encode_utf8;

verus! {

/// Marker that opens a bcrypt hash string.
pub const BCRYPT_ID: &'static str = "$2y$";

/// Marker that opens a SHA-1 hash string.
pub const SHA1_ID: &'static str = "{SHA}";

/// Salt and encoded digest of an APR1 hash string.
#[derive(Debug)]
pub struct MD5Hash<'a> {
    pub salt: &'a str,
    pub hash: &'a str,
}

/// A stored hash, by scheme. The fields borrow from the hash string.
#[derive(Debug)]
pub enum Hash<'a> {
    /// APR1: the salt and the encoded digest.
    MD5(MD5Hash<'a>),
    /// bcrypt: the whole hash string, marker included.
    BCrypt(&'a str),
    /// SHA-1: the base64 text behind the marker.
    SHA1(&'a str),
    /// Unix crypt: the whole hash string.
    Crypt(&'a str),
}

/// The characters that a [`Hash`] holds: what contracts say of a hash.
pub enum HashView {
    /// APR1: the salt and the encoded digest.
    MD5 { salt: Seq<char>, hash: Seq<char> },
    /// bcrypt: the whole hash string.
    BCrypt(Seq<char>),
    /// SHA-1: the base64 text behind the marker.
    SHA1(Seq<char>),
    /// Unix crypt: the whole hash string.
    Crypt(Seq<char>),
}

impl<'a> View for Hash<'a> {
    type V = HashView;

    open spec fn view(&self) -> HashView {
        match *self {
            Hash::MD5(md5) => HashView::MD5 { salt: md5.salt@, hash: md5.hash@ },
            Hash::BCrypt(raw) => HashView::BCrypt(raw@),
            Hash::SHA1(raw) => HashView::SHA1(raw@),
            Hash::Crypt(raw) => HashView::Crypt(raw@),
        }
    }
}

/// The scheme and fields of a hash string. The markers are tried in a fixed
/// order; a string that opens with none of them is taken for Unix crypt.
pub open spec fn classify(hash: Seq<char>) -> Result<HashView, HtpasswdError> {
    if APR1_ID@.is_prefix_of(hash) {
        if holds_salt(hash) {
            Ok(HashView::MD5 { salt: salt_of(hash), hash: digest_of(hash) })
        } else {
            Err(HtpasswdError::MalformedHash)
        }
    } else if BCRYPT_ID@.is_prefix_of(hash) {
        Ok(HashView::BCrypt(hash))
    } else if SHA1_ID@.is_prefix_of(hash) {
        Ok(HashView::SHA1(hash.skip(SHA1_ID@.len() as int)))
    } else {
        Ok(HashView::Crypt(hash))
    }
}

/// The characters held by the outcome of a parse.
pub open spec fn parsed_view(parsed: Result<Hash<'_>, HtpasswdError>) -> Result<
    HashView,
    HtpasswdError,
> {
    match parsed {
        Ok(hash) => Ok(hash@),
        Err(fault) => Err(fault),
    }
}

impl HashView {
    /// Whether `password`, given by its bytes, matches this hash; or the
    /// fault that keeps the question open.
    pub open spec fn verdict(self, password: Seq<u8>) -> Result<bool, HtpasswdError> {
        match self {
            HashView::MD5 { salt, hash } => Ok(apr1_text(password, encode_utf8(salt)) == hash),
            HashView::BCrypt(raw) => bcrypt_result(bcrypt_verdict(password, raw)),
            HashView::SHA1(raw) => if password.len() <= SHA1_MAX_LEN {
                Ok(base64_text(sha1_digest(password)) == raw)
            } else {
                Err(HtpasswdError::VerificationError)
            },
            HashView::Crypt(raw) => Ok(
                crypt_salt_in_range(raw) && unix_crypt_text(password, crypt_salt(raw)) == Some(
                    raw,
                ),
            ),
        }
    }
}

/// The verdict that an answer of the bcrypt primitive stands for.
pub open spec fn bcrypt_result(answer: Option<bool>) -> Result<bool, HtpasswdError> {
    match answer {
        Some(accepted) => Ok(accepted),
        None => Err(HtpasswdError::VerificationError),
    }
}

/// The verdict for an outcome of the bcrypt primitive: a failure of the
/// primitive is a fault of its own kind, never a refusal.
pub fn verdict_of_bcrypt(outcome: Result<bool, bcrypt::BcryptError>) -> (verdict: Result<
    bool,
    HtpasswdError,
>)
    ensures
        verdict == bcrypt_result(bcrypt_answer(outcome)),
{
    match outcome {
        Ok(accepted) => Ok(accepted),
        Err(_) => Err(HtpasswdError::VerificationError),
    }
}

/// Whether the base64 text of a SHA-1 digest equals the stored text.
pub fn sha1_matches(digest: &[u8; 20], stored: &str) -> (same: bool)
    ensures
        same == (base64_text(digest@) == stored@),
{
    let text = base64_encode(digest.as_slice());
    str_eq(text.as_str(), stored)
}

/// Whether the salt characters of a Unix crypt hash lie in the range that
/// the primitive can decode. Outside it no hash was ever issued.
pub fn salt_in_range(raw: &str) -> (decodable: bool)
    ensures
        decodable == crypt_salt_in_range(raw@),
{
    let n: usize = raw.unicode_len();
    if n >= 1 && !salt_char(raw.get_char(0)) {
        return false;
    }
    if n >= 2 && !salt_char(raw.get_char(1)) {
        return false;
    }
    true
}

/// Whether a character lies between the space and U+007F.
fn salt_char(c: char) -> (within: bool)
    ensures
        within == (0x20 <= c as u32 <= 0x7f),
{
    let code: u32 = c as u32;
    0x20 <= code && code <= 0x7f
}

impl<'a> Hash<'a> {
    /// Checks a password against this hash.
    ///
    /// The APR1 and SHA-1 digests are compared with the stored text for exact
    /// equality, in time that depends on where they differ. bcrypt and Unix
    /// crypt are left to their primitives. A bcrypt hash that the primitive
    /// cannot process, and a password too long for SHA-1, give
    /// [`HtpasswdError::VerificationError`].
    pub fn check(&self, password: &str) -> (verdict: Result<bool, HtpasswdError>)
        ensures
            verdict == self@.verdict(password.spec_bytes()),
    {
        match self {
            Hash::MD5(md5) => {
                let computed = md5_apr1_encode(password, md5.salt);
                Ok(str_eq(computed.as_str(), md5.hash))
            },
            Hash::BCrypt(raw) => verdict_of_bcrypt(bcrypt_verify(password.as_bytes(), raw)),
            Hash::SHA1(raw) => {
                let bytes = password.as_bytes();
                if bytes.len() as u64 > SHA1_MAX_LEN {
                    return Err(HtpasswdError::VerificationError);
                }
                let digest = sha1(bytes);
                Ok(sha1_matches(&digest, raw))
            },
            Hash::Crypt(raw) => {
                if !salt_in_range(raw) {
                    return Ok(false);
                }
                Ok(unix_crypt_verify(password.as_bytes(), raw))
            },
        }
    }

    /// Parses the hash part of a credential entry.
    ///
    /// Fails with [`HtpasswdError::MalformedHash`] where the string opens
    /// with the APR1 marker and ends before the separator behind the salt.
    pub fn parse(hash: &'a str) -> (parsed: Result<Hash<'a>, HtpasswdError>)
        ensures
            parsed_view(parsed) == classify(hash@),
    {
        if starts_with(hash, APR1_ID) {
            match salt_and_digest(hash) {
                Some((salt, digest)) => Ok(Hash::MD5(MD5Hash { salt, hash: digest })),
                None => Err(HtpasswdError::MalformedHash),
            }
        } else if starts_with(hash, BCRYPT_ID) {
            Ok(Hash::BCrypt(hash))
        } else if starts_with(hash, SHA1_ID) {
            proof {
                reveal_strlit("{SHA}");
            }
            let n: usize = hash.unicode_len();
            Ok(Hash::SHA1(hash.substring_char(SHA1_ID.unicode_len(), n)))
        } else {
            Ok(Hash::Crypt(hash))
        }
    }
}

/// The byte that ends a line.
pub const NEWLINE: u8 = 0x0a;

/// The byte that parts the user name from the hash string.
pub const COLON: u8 = 0x3a;

/// The lines of a text: the parts between its newlines, in order. A text
/// with `n` newlines has `n + 1` lines, of which any may be empty.
pub open spec fn lines(text: Seq<char>) -> Seq<Seq<char>>
    decreases text.len(),
    via lines_shorten
{
    if text.contains('\n') {
        seq![before(text, '\n')] + lines(after(text, '\n'))
    } else {
        seq![text]
    }
}

/// What follows the first newline of a text is shorter than the text.
#[via_fn]
proof fn lines_shorten(text: Seq<char>) {
    lemma_first_index(text, '\n');
}

/// What one line holds: nothing where it has no colon; else the user name
/// before the first colon and the hash parsed from what follows it.
pub open spec fn entry_of(line: Seq<char>) -> Result<
    Option<(Seq<char>, HashView)>,
    HtpasswdError,
> {
    if line.contains(':') {
        match classify(after(line, ':')) {
            Ok(hash) => Ok(Some((before(line, ':'), hash))),
            Err(fault) => Err(fault),
        }
    } else {
        Ok(None)
    }
}

/// The store that a sequence of lines gives, taking the lines in order: a
/// later entry for a user name replaces an earlier one, a line without an
/// entry changes nothing, and a fault in any line is the fault of the whole.
pub open spec fn store_of(lines: Seq<Seq<char>>) -> Result<Map<Seq<char>, HashView>, HtpasswdError>
    decreases lines.len(),
{
    if lines.len() == 0 {
        Ok(Map::empty())
    } else {
        match store_of(lines.drop_last()) {
            Err(fault) => Err(fault),
            Ok(store) => match entry_of(lines.last()) {
                Err(fault) => Err(fault),
                Ok(None) => Ok(store),
                Ok(Some((user, hash))) => Ok(store.insert(user, hash)),
            },
        }
    }
}

/// The store that a text gives.
pub open spec fn loaded(text: Seq<char>) -> Result<Map<Seq<char>, HashView>, HtpasswdError> {
    store_of(lines(text))
}

/// The verdict of a store on a user name and the bytes of a password: an
/// unknown user is refused like a wrong password.
pub open spec fn verdict_in(store: Map<Seq<char>, HashView>, user: Seq<char>, password: Seq<u8>)
    -> Result<bool, HtpasswdError> {
    if store.contains_key(user) {
        store[user].verdict(password)
    } else {
        Ok(false)
    }
}

/// The characters of a parsed entry.
pub open spec fn entry_view(entry: Result<Option<(&str, Hash<'_>)>, HtpasswdError>) -> Result<
    Option<(Seq<char>, HashView)>,
    HtpasswdError,
> {
    match entry {
        Ok(Some((user, hash))) => Ok(Some((user@, hash@))),
        Ok(None) => Ok(None),
        Err(fault) => Err(fault),
    }
}

/// Parses one line of a credential file. A line without a colon holds no
/// entry and is passed over.
pub fn parse_hash_entry<'a>(entry: &'a str) -> (parsed: Result<
    Option<(&'a str, Hash<'a>)>,
    HtpasswdError,
>)
    ensures
        entry_view(parsed) == entry_of(entry@),
{
    match split_once(entry, COLON) {
        None => Ok(None),
        Some((user, hash_id)) => match Hash::parse(hash_id) {
            Ok(hash) => Ok(Some((user, hash))),
            Err(fault) => Err(fault),
        },
    }
}

/// A credential store. It is built once by [`load`] and only read afterwards.
pub struct Htpasswd<'a>(pub StringHashMap<Hash<'a>>);

impl<'a> View for Htpasswd<'a> {
    type V = Map<Seq<char>, HashView>;

    open spec fn view(&self) -> Map<Seq<char>, HashView> {
        self.0@.map_values(|hash: Hash<'a>| hash@)
    }
}

/// The store held by the outcome of a load.
pub open spec fn loaded_view(outcome: Result<Htpasswd<'_>, HtpasswdError>) -> Result<
    Map<Seq<char>, HashView>,
    HtpasswdError,
> {
    match outcome {
        Ok(store) => Ok(store@),
        Err(fault) => Err(fault),
    }
}

impl<'a> Htpasswd<'a> {
    /// Checks a password for a user. An unknown user is refused, never
    /// reported as a fault.
    pub fn check(&self, username: &str, password: &str) -> (verdict: Result<bool, HtpasswdError>)
        ensures
            verdict == verdict_in(self@, username@, password.spec_bytes()),
            !self@.contains_key(username@) ==> verdict == Ok::<bool, HtpasswdError>(false),
    {
        match self.0.get(username) {
            Some(hash) => hash.check(password),
            None => Ok(false),
        }
    }
}

/// Builds the store from the text of a credential file: one entry per line,
/// lines without a colon passed over, a later entry for a user name in place
/// of an earlier one.
///
/// Fails with [`HtpasswdError::MalformedHash`] where a line holds an APR1
/// hash string that ends before the separator behind its salt.
pub fn load<'a>(bytes: &'a str) -> (outcome: Result<Htpasswd<'a>, HtpasswdError>)
    ensures
        loaded_view(outcome) == loaded(bytes@),
{
    let mut store = Htpasswd(StringHashMap::new());
    let mut rest: &'a str = bytes;
    let ghost mut done: Seq<Seq<char>> = Seq::empty();
    assert(store@ =~= Map::<Seq<char>, HashView>::empty());
    loop
        invariant
            lines(bytes@) == done + lines(rest@),
            store_of(done) == Ok::<Map<Seq<char>, HashView>, HtpasswdError>(store@),
        decreases rest@.len(),
    {
        let cut = split_once(rest, NEWLINE);
        let line: &'a str = match cut {
            Some((head, _)) => head,
            None => rest,
        };
        proof {
            lemma_first_index(rest@, '\n');
            assert(lines(rest@) =~= if cut is Some {
                seq![line@] + lines(after(rest@, '\n'))
            } else {
                seq![line@]
            });
            assert(done.push(line@).drop_last() =~= done);
        }
        match parse_hash_entry(line) {
            Err(fault) => {
                proof {
                    lemma_fault_stays(done.push(line@), lines(rest@).drop_first());
                    assert(done.push(line@) + lines(rest@).drop_first() =~= lines(bytes@));
                }
                return Err(fault);
            },
            Ok(None) => {},
            Ok(Some((user, hash))) => {
                let ghost before_insert = store@;
                store.0.insert(String::from_str(user), hash);
                assert(store@ =~= before_insert.insert(user@, hash@));
            },
        }
        proof {
            done = done.push(line@);
        }
        match cut {
            Some((_, tail)) => {
                rest = tail;
                assert(lines(bytes@) =~= done + lines(rest@));
            },
            None => {
                assert(lines(bytes@) =~= done);
                return Ok(store);
            },
        }
    }
}

/// A fault among the first lines is the fault of all the lines.
pub proof fn lemma_fault_stays(first: Seq<Seq<char>>, more: Seq<Seq<char>>)
    requires
        store_of(first) is Err,
    ensures
        store_of(first + more) == store_of(first),
    decreases more.len(),
{
    if more.len() == 0 {
        assert(first + more =~= first);
    } else {
        lemma_fault_stays(first, more.drop_last());
        assert((first + more).drop_last() =~= first + more.drop_last());
    }
}

} // verus!
