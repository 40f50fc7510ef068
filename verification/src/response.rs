//! Framing a page as an HTTP/1.1 response.
//!
//! Every response has the same shape: the status line `HTTP/1.1 200 OK`, four
//! header fields in a fixed order, a blank line, the body on one line, and a
//! blank line after it. Only the body and its length vary.

use vstd::prelude::*;
use vstd::utf8::encode_utf8;
use crate::html::{html_cleanup, lemma_normalized_is_clean, normalized};
use crate::text::{lemma_encode_concat, lemma_position, position, push_char};

verus! {

/// The status line and the header fields, up to the value of `Content-Length`.
pub const RESPONSE_HEAD: &'static str =
    "HTTP/1.1 200 OK\r\nServer: Zattiri Web 2K24\r\nContent-Type: text/html\r\nConnection: Closed\r\nContent-Length: ";

/// What ends the header section, and what follows the body.
pub const BLANK_LINE: &'static str = "\r\n\r\n";

/// The decimal digit for `d`, where `d < 10`.
pub open spec fn digit(d: nat) -> char {
    (48u8 + d) as char
}

/// `n` in decimal, without sign or leading zeros.
pub open spec fn decimal(n: nat) -> Seq<char>
    decreases n,
{
    if n < 10 {
        seq![digit(n)]
    } else {
        decimal(n / 10).push(digit(n % 10))
    }
}

/// The number of bytes that `body` takes on the wire, encoded as UTF-8.
pub open spec fn content_length(body: Seq<char>) -> nat {
    encode_utf8(body).len()
}

/// The response that carries `body` as it is.
pub open spec fn framed(body: Seq<char>) -> Seq<char> {
    RESPONSE_HEAD@ + decimal(content_length(body)) + BLANK_LINE@ + body + BLANK_LINE@
}

/// The response for the page `html`: its cleaned-up body, framed.
pub open spec fn response_for(html: Seq<char>) -> Seq<char> {
    framed(normalized(html))
}

/// The number that the decimal digits `digits` write.
pub open spec fn decimal_value(digits: Seq<char>) -> nat
    decreases digits.len(),
{
    if digits.len() == 0 {
        0
    } else {
        (10 * decimal_value(digits.drop_last()) + (digits.last() as int - 48)) as nat
    }
}

/// The number that a reader finds in the `Content-Length` field of
/// `response`: the digits between the head and the next carriage return.
pub open spec fn declared_length(response: Seq<char>) -> nat {
    let field = response.skip(RESPONSE_HEAD@.len() as int);
    decimal_value(field.take(position(field, '\r')))
}

/// The body that a reader finds in `response`: what stands between the blank
/// line after the header fields and the next carriage return.
pub open spec fn body_of(response: Seq<char>) -> Seq<char> {
    let field = response.skip(RESPONSE_HEAD@.len() as int);
    let rest = field.skip(position(field, '\r') + BLANK_LINE@.len());
    rest.take(position(rest, '\r'))
}

/// `decimal(n)` is made of digits, at least one and without a leading zero
/// but for `0` itself, and they write `n`.
pub proof fn lemma_decimal(n: nat)
    ensures
        decimal(n).len() > 0,
        forall|i: int| 0 <= i < decimal(n).len() ==> '0' <= #[trigger] decimal(n)[i] <= '9',
        n > 0 ==> decimal(n).first() != '0',
        decimal_value(decimal(n)) == n,
    decreases n,
{
    if n >= 10 {
        lemma_decimal(n / 10);
        assert(decimal(n).drop_last() =~= decimal(n / 10));
    } else {
        assert(decimal(n).drop_last() =~= Seq::<char>::empty());
    }
    assert(decimal_value(Seq::<char>::empty()) == 0);
}

/// A framed body without carriage return is found again by a reader, and
/// the length that the response declares is the number of bytes of that body.
pub proof fn lemma_framed_reads_back(body: Seq<char>)
    requires
        forall|i: int| 0 <= i < body.len() ==> #[trigger] body[i] != '\r',
    ensures
        body_of(framed(body)) == body,
        declared_length(framed(body)) == encode_utf8(body).len(),
{
    reveal_strlit("\r\n\r\n");
    let digits = decimal(content_length(body));
    lemma_decimal(content_length(body));
    let field = framed(body).skip(RESPONSE_HEAD@.len() as int);
    lemma_position(field, '\r', digits.len() as int);
    assert(field.take(digits.len() as int) =~= digits);
    let rest = field.skip((digits.len() + BLANK_LINE@.len()) as int);
    lemma_position(rest, '\r', body.len() as int);
}

/// The length that a response declares is the number of bytes of the body
/// that it carries, and that body is the page, cleaned up.
pub proof fn lemma_content_length(html: Seq<char>)
    ensures
        body_of(response_for(html)) == normalized(html),
        declared_length(response_for(html)) == encode_utf8(body_of(response_for(html))).len(),
{
    lemma_normalized_is_clean(html);
    lemma_framed_reads_back(normalized(html));
}

/// On the wire the body of a response stands between the bytes of two blank
/// lines, after the head and the digits, and it has as many bytes as the
/// digits say.
pub proof fn lemma_bytes_on_the_wire(body: Seq<char>)
    ensures
        encode_utf8(framed(body)) == encode_utf8(RESPONSE_HEAD@) + encode_utf8(
            decimal(encode_utf8(body).len()),
        ) + encode_utf8(BLANK_LINE@) + encode_utf8(body) + encode_utf8(BLANK_LINE@),
        decimal_value(decimal(encode_utf8(body).len())) == encode_utf8(body).len(),
{
    let digits = decimal(content_length(body));
    lemma_decimal(content_length(body));
    lemma_encode_concat(RESPONSE_HEAD@, digits);
    lemma_encode_concat(RESPONSE_HEAD@ + digits, BLANK_LINE@);
    lemma_encode_concat(RESPONSE_HEAD@ + digits + BLANK_LINE@, body);
    lemma_encode_concat(RESPONSE_HEAD@ + digits + BLANK_LINE@ + body, BLANK_LINE@);
}

/// `n` in decimal.
pub fn decimal_string(n: usize) -> (s: String)
    ensures
        s@ == decimal(n as nat),
    decreases n,
{
    let mut s = if n < 10 {
        String::new()
    } else {
        decimal_string(n / 10)
    };
    let d: u8 = (n % 10) as u8;
    push_char(&mut s, (48u8 + d) as char);
    s
}

/// Builds the complete response for the page `html`.
///
/// The body is `html` cleaned up, and `Content-Length` is the number of bytes
/// of that body, not of `html`. The status is `200 OK` whatever the page says.
pub fn send_response(html: &str) -> (response: String)
    ensures
        response@ == response_for(html@),
{
    let body = html_cleanup(html);
    let mut response = RESPONSE_HEAD.to_owned();
    let length = body.as_str().as_bytes().len();
    response.append(decimal_string(length).as_str());
    response.append(BLANK_LINE);
    response.append(body.as_str());
    response.append(BLANK_LINE);
    response
}

} // verus!
