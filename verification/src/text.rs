//! Operations on string slices, stated over their characters.

use vstd::prelude::*;
use vstd::string::*;
use vstd::utf8::*;

verus! {

/// Whether two strings hold the same characters. The comparison stops at the
/// first difference: its running time depends on where the strings differ.
pub fn str_eq(a: &str, b: &str) -> (same: bool)
    ensures
        same == (a@ == b@),
{
    broadcast use encode_utf8_decode_utf8;

    let x = a.as_bytes();
    let y = b.as_bytes();
    assert(a@ == decode_utf8(x@));
    assert(b@ == decode_utf8(y@));
    if x.len() != y.len() {
        return false;
    }
    let mut i: usize = 0;
    while i < x.len()
        invariant
            i <= x@.len(),
            x@.len() == y@.len(),
            x@ == encode_utf8(a@),
            y@ == encode_utf8(b@),
            forall|j: int| 0 <= j < i ==> x@[j] == y@[j],
        decreases x@.len() - i,
    {
        if x[i] != y[i] {
            return false;
        }
        i += 1;
    }
    assert(x@ =~= y@);
    true
}

/// Whether `s` begins with the characters of `prefix`.
pub fn starts_with(s: &str, prefix: &str) -> (found: bool)
    ensures
        found == prefix@.is_prefix_of(s@),
{
    let n: usize = s.unicode_len();
    let k: usize = prefix.unicode_len();
    if n < k {
        return false;
    }
    str_eq(s.substring_char(0, k), prefix)
}

/// The index at which `c` first occurs in `s`, or the length of `s` where it
/// does not occur.
pub open spec fn first_index(s: Seq<char>, c: char) -> int
    decreases s.len(),
{
    if s.len() == 0 || s[0] == c {
        0
    } else {
        1 + first_index(s.drop_first(), c)
    }
}

/// What stands in `s` before the first occurrence of `c`.
pub open spec fn before(s: Seq<char>, c: char) -> Seq<char> {
    s.take(first_index(s, c))
}

/// What stands in `s` behind the first occurrence of `c`.
pub open spec fn after(s: Seq<char>, c: char) -> Seq<char> {
    s.skip(first_index(s, c) + 1)
}

/// `first_index` lies within the string, nothing before it is `c`, and it
/// points at `c` exactly where `c` occurs at all.
pub proof fn lemma_first_index(s: Seq<char>, c: char)
    ensures
        0 <= first_index(s, c) <= s.len(),
        forall|j: int| 0 <= j < first_index(s, c) ==> s[j] != c,
        first_index(s, c) < s.len() ==> s[first_index(s, c)] == c,
        first_index(s, c) < s.len() <==> s.contains(c),
    decreases s.len(),
{
    if s.len() == 0 || s[0] == c {
    } else {
        let rest = s.drop_first();
        lemma_first_index(rest, c);
        assert forall|j: int| 0 <= j < first_index(s, c) implies s[j] != c by {
            if j > 0 {
                assert(rest[j - 1] == s[j]);
            }
        }
        if first_index(rest, c) < rest.len() {
            assert(s[first_index(s, c)] == rest[first_index(rest, c)]);
        }
        if s.contains(c) {
            let k = choose|k: int| 0 <= k < s.len() && s[k] == c;
            assert(rest[k - 1] == c);
        }
    }
}

/// A string cut at a `c` with no `c` before the cut is cut at the first one.
pub proof fn lemma_cut_at_first(s: Seq<char>, head: Seq<char>, tail: Seq<char>, c: char)
    requires
        s == head + seq![c] + tail,
        !head.contains(c),
    ensures
        s.contains(c),
        head == before(s, c),
        tail == after(s, c),
{
    lemma_first_index(s, c);
    let at = first_index(s, c);
    assert(s[head.len() as int] == c);
    if at < head.len() {
        assert(head[at] == s[at]);
    }
    assert(at == head.len());
    assert(head =~= s.take(at));
    assert(tail =~= s.skip(at + 1));
}

/// Where an ASCII character occurs in a string, its byte occurs in the
/// UTF-8 encoding of the string.
pub proof fn lemma_ascii_char_is_encoded(chars: Seq<char>, c: char)
    requires
        (c as u32) < 0x80,
        chars.contains(c),
    ensures
        encode_utf8(chars).contains(c as u8),
    decreases chars.len(),
{
    let k = choose|k: int| 0 <= k < chars.len() && chars[k] == c;
    let first = encode_scalar(chars[0] as u32);
    let rest = encode_utf8(chars.drop_first());
    assert(encode_utf8(chars) == first + rest);
    if chars[0] == c {
        let v = c as u32;
        assert((v & 0x7F) as u8 == v as u8) by (bit_vector)
            requires
                v < 0x80,
        ;
        assert((first + rest)[0] == c as u8);
    } else {
        assert(chars.drop_first()[k - 1] == c);
        lemma_ascii_char_is_encoded(chars.drop_first(), c);
        let j = choose|j: int| 0 <= j < rest.len() && rest[j] == c as u8;
        assert((first + rest)[first.len() + j] == c as u8);
    }
}

/// A single ASCII byte decodes to the character of the same value.
proof fn lemma_decode_single_ascii(bytes: Seq<u8>)
    requires
        bytes.len() == 1,
        bytes[0] < 0x80,
    ensures
        valid_utf8(bytes),
        decode_utf8(bytes) == seq![bytes[0] as char],
{
    let b = bytes[0];
    assert(b & 0x7F == b) by (bit_vector)
        requires
            b < 0x80,
    ;
    assert(pop_first_scalar(bytes) =~= Seq::<u8>::empty());
    assert(valid_utf8(pop_first_scalar(bytes)));
    assert(valid_first_scalar(bytes));
    assert(valid_utf8(bytes));
    assert(decode_utf8(pop_first_scalar(bytes)) =~= Seq::<char>::empty());
    assert(decode_first_scalar(bytes) == b as u32);
    assert(decode_utf8(bytes) =~= seq![b as char]);
}

/// In a valid encoding, a character boundary lies behind every ASCII byte
/// that stands at the front.
proof fn lemma_boundary_after_ascii(bytes: Seq<u8>)
    requires
        valid_utf8(bytes),
        bytes.len() >= 1,
        bytes[0] < 0x80,
    ensures
        is_char_boundary(bytes, 1),
{
    reveal_with_fuel(is_char_boundary, 2);
    assert(length_of_first_scalar(bytes) == 1);
    assert(valid_utf8(pop_first_scalar(bytes)));
}

/// Cuts `s` at the first occurrence of the ASCII character `sep`: the part
/// before it and the part behind it, or `None` where `sep` does not occur.
pub fn split_once<'a>(s: &'a str, sep: u8) -> (parts: Option<(&'a str, &'a str)>)
    requires
        sep < 0x80,
    ensures
        parts is Some == s@.contains(sep as char),
        parts matches Some((head, tail)) ==> head@ == before(s@, sep as char) && tail@ == after(
            s@,
            sep as char,
        ),
{
    broadcast use {encode_utf8_decode_utf8, encode_utf8_valid_utf8};

    let bytes = s.as_bytes();
    let mut i: usize = 0;
    while i < bytes.len() && bytes[i] != sep
        invariant
            i <= bytes@.len(),
            forall|j: int| 0 <= j < i ==> bytes@[j] != sep,
        decreases bytes@.len() - i,
    {
        i += 1;
    }
    if i == bytes.len() {
        proof {
            if s@.contains(sep as char) {
                lemma_ascii_char_is_encoded(s@, sep as char);
            }
        }
        return None;
    }
    proof {
        is_char_boundary_iff_not_is_continuation_byte(bytes@, i as int);
    }
    let (head, rest) = s.split_at(i);
    proof {
        valid_utf8_split(bytes@, i as int);
        decode_utf8_split(bytes@, i as int);
        lemma_boundary_after_ascii(rest.spec_bytes());
    }
    let (mark, tail) = rest.split_at(1);
    proof {
        let rb = rest.spec_bytes();
        valid_utf8_split(rb, 1);
        decode_utf8_split(rb, 1);
        lemma_decode_single_ascii(mark.spec_bytes());
        assert(s@ == head@ + rest@);
        assert(rest@ == seq![sep as char] + tail@);
        assert(s@ =~= head@ + seq![sep as char] + tail@);
        if head@.contains(sep as char) {
            lemma_ascii_char_is_encoded(head@, sep as char);
        }
        lemma_cut_at_first(s@, head@, tail@, sep as char);
    }
    Some((head, tail))
}

} // verus!
