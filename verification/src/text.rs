//! Sequences and strings: where an item first stands, how text is built from
//! characters and from bytes.

use vstd::prelude::*;
use vstd::utf8::{decode_utf8, decode_utf8_encode_utf8, encode_utf8, encode_utf8_decode_utf8, encode_utf8_valid_utf8, valid_utf8};

verus! {

/// How many items of `s` stand before its first `c`; the length of `s` if
/// `c` does not occur in it.
pub open spec fn position<A>(s: Seq<A>, c: A) -> int
    decreases s.len(),
{
    if s.len() == 0 || s.first() == c {
        0
    } else {
        1 + position(s.drop_first(), c)
    }
}

/// `position(s, c)` is an index of `s` or its length; `c` does not occur
/// before it; and where it is an index, `c` stands there.
pub proof fn lemma_position_is_first<A>(s: Seq<A>, c: A)
    ensures
        0 <= position(s, c) <= s.len(),
        forall|i: int| 0 <= i < position(s, c) ==> s[i] != c,
        position(s, c) < s.len() ==> s[position(s, c)] == c,
    decreases s.len(),
{
    if s.len() > 0 && s.first() != c {
        lemma_position_is_first(s.drop_first(), c);
        assert forall|i: int| 0 <= i < position(s, c) implies s[i] != c by {
            if i > 0 {
                assert(s[i] == s.drop_first()[i - 1]);
            }
        }
    }
}

/// `position(s, c)` is the one index up to which `c` does not occur and at
/// which `s` either ends or holds `c`.
pub proof fn lemma_position<A>(s: Seq<A>, c: A, k: int)
    requires
        0 <= k <= s.len(),
        forall|i: int| 0 <= i < k ==> s[i] != c,
        k < s.len() ==> s[k] == c,
    ensures
        position(s, c) == k,
    decreases s.len(),
{
    if k > 0 {
        lemma_position(s.drop_first(), c, k - 1);
    }
}

/// The bytes of a text are the bytes of its first part followed by the bytes
/// of the rest, wherever it is cut.
pub proof fn lemma_encode_concat(a: Seq<char>, b: Seq<char>)
    ensures
        encode_utf8(a + b) == encode_utf8(a) + encode_utf8(b),
    decreases a.len(),
{
    if a.len() > 0 {
        lemma_encode_concat(a.drop_first(), b);
        assert((a + b).drop_first() =~= a.drop_first() + b);
    }
}

/// Appends one character to a string.
///
/// Calls `String::push` of the standard library, which vstd does not
/// specify. The contract claims what its documentation says: the string
/// afterwards is the string before with `c` at its end.
#[verifier::external_body]
pub(crate) fn push_char(s: &mut String, c: char)
    ensures
        final(s)@ == old(s)@.push(c),
{
    s.push(c)
}

/// The text that `bytes` encode, if they encode any.
///
/// Calls `String::from_utf8` of the standard library, which vstd does not
/// specify. The contract claims what its documentation says: it succeeds
/// exactly where the bytes are UTF-8, and the string it gives is made of
/// these bytes.
#[verifier::external_body]
fn from_utf8(bytes: Vec<u8>) -> (text: Option<String>)
    ensures
        match text {
            Some(s) => encode_utf8(s@) == bytes@,
            None => forall|t: Seq<char>| #[trigger] encode_utf8(t) != bytes@,
        },
{
    match String::from_utf8(bytes) {
        Ok(s) => Some(s),
        Err(_) => None,
    }
}

/// The text that `bytes` encode in UTF-8; none where they are no UTF-8.
pub(crate) fn decode(bytes: Vec<u8>) -> (text: Option<String>)
    ensures
        match text {
            Some(s) => valid_utf8(bytes@) && s@ == decode_utf8(bytes@),
            None => !valid_utf8(bytes@),
        },
{
    let ghost encoded = bytes@;
    let text = from_utf8(bytes);
    proof {
        if text is Some {
            encode_utf8_valid_utf8(text->0@);
            encode_utf8_decode_utf8(text->0@);
        } else if valid_utf8(encoded) {
            decode_utf8_encode_utf8(encoded);
        }
    }
    text
}

/// The characters of a string, in order.
pub(crate) fn to_chars(s: &str) -> (v: Vec<char>)
    ensures
        v@ == s@,
{
    let mut v: Vec<char> = Vec::new();
    let chars = s.chars();
    for c in it: chars
        invariant
            it.seq() == s@,
            v@ == s@.take(it.index()),
    {
        v.push(c);
    }
    v
}

} // verus!
