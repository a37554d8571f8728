//! Laws that relate the functions of this crate to one another, each stated
//! over the mathematical functions of their contracts and proved from them.

use crate::error::HtpasswdError;
use crate::md5::{
    apr1_text, apr1_verdict, digest_of, hash_string, holds_salt, salt_of, APR1_ID, SALT_LEN,
};
use crate::primitives::crypt_salt;
use crate::text::{after, before, lemma_cut_at_first, lemma_first_index};
use crate::{classify, entry_of, lines, loaded, store_of, verdict_in, HashView};
use vstd::prelude::*;
use vstd::utf8::encode_utf8;

verus! {

/// A hash string formatted from a salt of [`SALT_LEN`] characters and an
/// encoded digest is cut back into that salt and that digest.
pub proof fn lemma_hash_string_parts(digest: Seq<char>, salt: Seq<char>)
    requires
        salt.len() == SALT_LEN,
    ensures
        APR1_ID@.is_prefix_of(hash_string(digest, salt)),
        holds_salt(hash_string(digest, salt)),
        salt_of(hash_string(digest, salt)) == salt,
        digest_of(hash_string(digest, salt)) == digest,
        classify(hash_string(digest, salt)) == Ok::<HashView, HtpasswdError>(
            HashView::MD5 { salt, hash: digest },
        ),
{
    reveal_strlit("$apr1$");
    let stored = hash_string(digest, salt);
    assert(APR1_ID@ =~= stored.subrange(0, APR1_ID@.len() as int));
    assert(salt_of(stored) =~= salt);
    assert(digest_of(stored) =~= digest);
}

/// Round trip: every password is accepted for the hash string formatted from
/// its own encoded digest, under every salt of [`SALT_LEN`] characters; by
/// the APR1 verification itself, and by the hash that the string parses to.
pub proof fn lemma_round_trip(password: Seq<u8>, salt: Seq<char>)
    requires
        salt.len() == SALT_LEN,
    ensures
        apr1_verdict(hash_string(apr1_text(password, encode_utf8(salt)), salt), password) == Ok::<
            bool,
            HtpasswdError,
        >(true),
        classify(hash_string(apr1_text(password, encode_utf8(salt)), salt)) matches Ok(hash)
            && hash.verdict(password) == Ok::<bool, HtpasswdError>(true),
{
    lemma_hash_string_parts(apr1_text(password, encode_utf8(salt)), salt);
}

/// Whether `changed` is `stored` with another digest: the same scheme, the
/// same salt where there is one, and a digest text that differs, be it in a
/// single character. The schemes are those whose verdict rests on the
/// equality of two texts; bcrypt, which decodes the stored digest, is none.
pub open spec fn digest_changed(stored: HashView, changed: HashView) -> bool {
    match (stored, changed) {
        (HashView::MD5 { salt, hash }, HashView::MD5 { salt: same, hash: other }) => salt == same
            && hash != other,
        (HashView::SHA1(digest), HashView::SHA1(other)) => digest != other,
        (HashView::Crypt(raw), HashView::Crypt(other)) => crypt_salt(raw) == crypt_salt(other)
            && raw != other,
        _ => false,
    }
}

/// Sensitivity: once the stored digest of an APR1, SHA-1 or Unix crypt hash
/// is changed, a password that was accepted is refused; refused, not
/// reported as a fault.
pub proof fn lemma_changed_digest_refused(stored: HashView, changed: HashView, password: Seq<u8>)
    requires
        stored.verdict(password) == Ok::<bool, HtpasswdError>(true),
        digest_changed(stored, changed),
    ensures
        changed.verdict(password) == Ok::<bool, HtpasswdError>(false),
{
}

/// Sensitivity, in a store: where the entry of a user is replaced by one
/// with a changed digest, the password that the store accepted for the user
/// is refused.
pub proof fn lemma_changed_entry_refused(
    store: Map<Seq<char>, HashView>,
    user: Seq<char>,
    changed: HashView,
    password: Seq<u8>,
)
    requires
        verdict_in(store, user, password) == Ok::<bool, HtpasswdError>(true),
        digest_changed(store[user], changed),
    ensures
        verdict_in(store.insert(user, changed), user, password) == Ok::<bool, HtpasswdError>(
            false,
        ),
{
    lemma_changed_digest_refused(store[user], changed, password);
}

/// A user without an entry is refused whatever the password, and never
/// reported as a fault.
pub proof fn lemma_unknown_user_refused(
    store: Map<Seq<char>, HashView>,
    user: Seq<char>,
    password: Seq<u8>,
)
    requires
        !store.contains_key(user),
    ensures
        verdict_in(store, user, password) == Ok::<bool, HtpasswdError>(false),
{
}

/// The lines of two texts joined by a newline are the lines of the first
/// followed by the lines of the second.
pub proof fn lemma_lines_join(above: Seq<char>, below: Seq<char>)
    ensures
        lines(above + seq!['\n'] + below) == lines(above) + lines(below),
    decreases above.len(),
{
    let text = above + seq!['\n'] + below;
    lemma_first_index(above, '\n');
    if above.contains('\n') {
        let head = before(above, '\n');
        let tail = after(above, '\n');
        assert(above =~= head + seq!['\n'] + tail);
        assert(text =~= head + seq!['\n'] + (tail + seq!['\n'] + below));
        assert(!head.contains('\n'));
        lemma_cut_at_first(text, head, tail + seq!['\n'] + below, '\n');
        lemma_lines_join(tail, below);
        assert(lines(text) =~= lines(above) + lines(below));
    } else {
        lemma_cut_at_first(text, above, below, '\n');
        assert(lines(text) =~= lines(above) + lines(below));
    }
}

/// A line without an entry, wherever it stands among the lines, leaves the
/// store as it is without that line.
pub proof fn lemma_store_skips_line(
    first: Seq<Seq<char>>,
    line: Seq<char>,
    more: Seq<Seq<char>>,
)
    requires
        !line.contains(':'),
    ensures
        store_of(first + seq![line] + more) == store_of(first + more),
    decreases more.len(),
{
    let with = first + seq![line] + more;
    let without = first + more;
    if more.len() == 0 {
        assert(with.drop_last() =~= first);
        assert(without =~= first);
        assert(with.last() == line);
    } else {
        lemma_store_skips_line(first, line, more.drop_last());
        assert(with.drop_last() =~= first + seq![line] + more.drop_last());
        assert(without.drop_last() =~= first + more.drop_last());
    }
}

/// Loading passes over a line that has no colon, a blank line among them: as
/// the only line, as the first, as the last or between others, the line adds
/// no entry and raises no fault.
pub proof fn lemma_line_without_entry(above: Seq<char>, line: Seq<char>, below: Seq<char>)
    requires
        !line.contains(':'),
        !line.contains('\n'),
    ensures
        loaded(line) == Ok::<Map<Seq<char>, HashView>, HtpasswdError>(Map::empty()),
        loaded(line + seq!['\n'] + below) == loaded(below),
        loaded(above + seq!['\n'] + line) == loaded(above),
        loaded(above + seq!['\n'] + line + seq!['\n'] + below) == loaded(
            above + seq!['\n'] + below,
        ),
{
    let none: Seq<Seq<char>> = Seq::empty();
    assert(lines(line) =~= seq![line]);

    lemma_store_skips_line(none, line, none);
    assert(none + seq![line] + none =~= lines(line));
    assert(none + none =~= none);

    lemma_lines_join(line, below);
    lemma_store_skips_line(none, line, lines(below));
    assert(none + seq![line] + lines(below) =~= lines(line) + lines(below));
    assert(none + lines(below) =~= lines(below));

    lemma_lines_join(above, line);
    lemma_store_skips_line(lines(above), line, none);
    assert(lines(above) + seq![line] + none =~= lines(above) + lines(line));
    assert(lines(above) + none =~= lines(above));

    lemma_lines_join(above, line + seq!['\n'] + below);
    lemma_lines_join(above, below);
    lemma_store_skips_line(lines(above), line, lines(below));
    assert(above + seq!['\n'] + line + seq!['\n'] + below =~= above + seq!['\n'] + (line
        + seq!['\n'] + below));
    assert(lines(above) + seq![line] + lines(below) =~= lines(above) + (lines(line) + lines(
        below,
    )));
}

/// The last entry for a user name is the one that the store holds: where the
/// lines before it raise no fault, the hash of the last line stands under
/// its user name, and every other user name keeps what it had.
pub proof fn lemma_last_entry_stands(first: Seq<Seq<char>>, line: Seq<char>)
    requires
        store_of(first) is Ok,
        entry_of(line) matches Ok(Some(_)),
    ensures
        store_of(first.push(line)) matches Ok(store) && ({
            let (user, hash) = entry_of(line)->Ok_0->Some_0;
            store == store_of(first)->Ok_0.insert(user, hash)
        }),
{
    assert(first.push(line).drop_last() =~= first);
}

} // verus!
