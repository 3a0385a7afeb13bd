//! The answers that go out on the wire: a status line and fixed headers, the
//! length of the body in decimal, a blank line, and the body.

use crate::buffers::{buffer_bytes, buffer_put_slice};
use vstd::prelude::*;
use vstd::string::StringSliceAdditionalSpecFns;

verus! {

/// What an answer to a request that was served begins with.
pub const OK: &'static str =
    "HTTP/1.1 200 OK\r\nContent-Type: text/html\r\nConnection: keep-alive\r\nContent-Length: ";

/// What an answer to a request whose handler failed begins with.
pub const SERVER_ERROR: &'static str =
    "HTTP/1.1 500 Internal Server Error\r\nContent-Type: text/html\r\nConnection: keep-alive\r\nContent-Length: ";

/// What an answer to a request that no route matches begins with.
pub const MISSING: &'static str =
    "HTTP/1.1 404 Not Found\r\nContent-Type: text/html\r\nConnection: keep-alive\r\nContent-Length: ";

/// What an answer to bytes that are no request begins with.
pub const BAD_REQUEST: &'static str =
    "HTTP/1.1 400 Bad Request\r\nContent-Type: text/html\r\nConnection: keep-alive\r\nContent-Length: ";

/// The blank line between the head of an answer and its body.
pub const BODY_DELIM: &'static str = "\r\n\r\n";

/// The classes of answer.
#[derive(PartialEq, Eq, Structural, Debug, Clone, Copy)]
pub enum Status {
    /// The request was served.
    Success,
    /// The handler failed.
    ServerError,
    /// No route matches the request.
    NotFound,
    /// The bytes received are no request.
    BadRequest,
}

impl Status {
    /// What an answer of this class begins with, up to the length of its body.
    pub open spec fn spec_head(self) -> Seq<u8> {
        match self {
            Status::Success => OK.spec_bytes(),
            Status::ServerError => SERVER_ERROR.spec_bytes(),
            Status::NotFound => MISSING.spec_bytes(),
            Status::BadRequest => BAD_REQUEST.spec_bytes(),
        }
    }

    /// What an answer of this class begins with, up to the length of its body.
    pub fn head(self) -> (r: &'static [u8])
        ensures
            r@ == self.spec_head(),
            r@.len() <= 128,
    {
        proof {
            lemma_head_lengths();
        }
        match self {
            Status::Success => OK.as_bytes(),
            Status::ServerError => SERVER_ERROR.as_bytes(),
            Status::NotFound => MISSING.as_bytes(),
            Status::BadRequest => BAD_REQUEST.as_bytes(),
        }
    }
}

/// No head is longer than 128 bytes.
pub proof fn lemma_head_lengths()
    ensures
        OK.spec_bytes().len() <= 128,
        SERVER_ERROR.spec_bytes().len() <= 128,
        MISSING.spec_bytes().len() <= 128,
        BAD_REQUEST.spec_bytes().len() <= 128,
        BODY_DELIM.spec_bytes().len() == 4,
{
    reveal_strlit("HTTP/1.1 200 OK\r\nContent-Type: text/html\r\nConnection: keep-alive\r\nContent-Length: ");
    reveal_strlit("HTTP/1.1 500 Internal Server Error\r\nContent-Type: text/html\r\nConnection: keep-alive\r\nContent-Length: ");
    reveal_strlit("HTTP/1.1 404 Not Found\r\nContent-Type: text/html\r\nConnection: keep-alive\r\nContent-Length: ");
    reveal_strlit("HTTP/1.1 400 Bad Request\r\nContent-Type: text/html\r\nConnection: keep-alive\r\nContent-Length: ");
    reveal_strlit("\r\n\r\n");
    vstd::string::is_ascii_spec_bytes(OK);
    vstd::string::is_ascii_spec_bytes(SERVER_ERROR);
    vstd::string::is_ascii_spec_bytes(MISSING);
    vstd::string::is_ascii_spec_bytes(BAD_REQUEST);
    vstd::string::is_ascii_spec_bytes(BODY_DELIM);
}

/// The decimal digits of `n`, the most significant first.
pub open spec fn spec_decimal(n: nat) -> Seq<u8>
    decreases n,
{
    if n < 10 {
        seq![(48 + n) as u8]
    } else {
        spec_decimal(n / 10).push((48 + n % 10) as u8)
    }
}

/// The `k`-th power of ten.
pub open spec fn pow10(k: nat) -> nat
    decreases k,
{
    if k == 0 {
        1
    } else {
        10 * pow10((k - 1) as nat)
    }
}

/// A number under the `k`-th power of ten has at most `k` digits.
pub proof fn lemma_decimal_len(n: nat, k: nat)
    requires
        1 <= k,
        n < pow10(k),
    ensures
        1 <= spec_decimal(n).len() <= k,
    decreases k,
{
    reveal_with_fuel(pow10, 2);
    if n >= 10 {
        lemma_decimal_len(n / 10, (k - 1) as nat);
    }
}

/// A `usize` has at most 20 digits.
pub proof fn lemma_decimal_len_usize(n: usize)
    ensures
        1 <= spec_decimal(n as nat).len() <= 20,
{
    assert(pow10(20) == 100000000000000000000) by {
        reveal_with_fuel(pow10, 21);
    }
    lemma_decimal_len(n as nat, 20);
}

/// Writes `n` in decimal.
pub fn decimal(n: usize) -> (r: Vec<u8>)
    ensures
        r@ == spec_decimal(n as nat),
    decreases n,
{
    if n < 10 {
        let mut digits: Vec<u8> = Vec::new();
        digits.push(48 + n as u8);
        assert(digits@ =~= seq![(48 + n) as u8]);
        digits
    } else {
        let mut digits = decimal(n / 10);
        digits.push(48 + (n % 10) as u8);
        digits
    }
}

/// An answer as it goes out: `head`, the length of `body` in decimal, a
/// blank line, `body`.
pub open spec fn spec_response(head: Seq<u8>, body: Seq<u8>) -> Seq<u8> {
    head + spec_decimal(body.len()) + BODY_DELIM.spec_bytes() + body
}

/// An answer in its parts. The head and the body are borrowed.
pub struct HttpResponse<'a> {
    head: &'a [u8],
    length: Vec<u8>,
    body: &'a [u8],
}

impl<'a> View for HttpResponse<'a> {
    type V = Seq<u8>;

    /// The bytes of the answer.
    closed spec fn view(&self) -> Seq<u8> {
        self.head@ + self.length@ + BODY_DELIM.spec_bytes() + self.body@
    }
}

impl<'a> HttpResponse<'a> {
    /// The bytes of the answer, in one piece.
    pub fn to_bytes(&self) -> (r: Vec<u8>)
        ensures
            r@ == self@,
    {
        let mut out: Vec<u8> = Vec::new();
        out.extend_from_slice(self.head);
        out.extend_from_slice(self.length.as_slice());
        out.extend_from_slice(BODY_DELIM.as_bytes());
        out.extend_from_slice(self.body);
        out
    }
}

/// The answer that begins with `status_code` and carries `body`.
pub fn create_response<'a>(status_code: &'a [u8], body: &'a [u8]) -> (r: HttpResponse<'a>)
    ensures
        r@ == spec_response(status_code@, body@),
{
    HttpResponse { head: status_code, length: decimal(body.len()), body }
}

/// Appends to `resp_buf` the answer that begins with `status_code` and
/// carries `body`.
pub fn create_html_response(resp_buf: &mut bytes::BytesMut, status_code: &[u8], body: &[u8])
    requires
        buffer_bytes(*old(resp_buf)).len() + spec_response(status_code@, body@).len()
            <= isize::MAX,
    ensures
        buffer_bytes(*final(resp_buf)) == buffer_bytes(*old(resp_buf)) + spec_response(
            status_code@,
            body@,
        ),
{
    let response = create_response(status_code, body);
    buffer_put_slice(resp_buf, response.head);
    buffer_put_slice(resp_buf, response.length.as_slice());
    buffer_put_slice(resp_buf, BODY_DELIM.as_bytes());
    buffer_put_slice(resp_buf, response.body);
    assert(buffer_bytes(*resp_buf) =~= buffer_bytes(*old(resp_buf)) + spec_response(
        status_code@,
        body@,
    ));
}

} // verus!
