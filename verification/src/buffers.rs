//! The pair of byte buffers that a connection reads into and answers from.

use crate::response::{create_html_response, spec_response};
use vstd::prelude::*;

verus! {

/// `bytes::BytesMut`, a growable buffer of bytes. Of its contents the library
/// knows what the wrappers below state, and no more.
#[verifier::external_type_specification]
#[verifier::external_body]
pub struct ExBytesMut(bytes::BytesMut);

/// The bytes that a buffer holds, in order.
pub uninterp spec fn buffer_bytes(b: bytes::BytesMut) -> Seq<u8>;

/// `BytesMut::new` gives a buffer that holds nothing.
#[verifier::external_body]
pub(crate) fn buffer_new() -> (b: bytes::BytesMut)
    ensures
        buffer_bytes(b) == Seq::<u8>::empty(),
{
    bytes::BytesMut::new()
}

/// `BytesMut::len` counts the bytes held.
#[verifier::external_body]
pub(crate) fn buffer_len(b: &bytes::BytesMut) -> (n: usize)
    ensures
        n == buffer_bytes(*b).len(),
{
    b.len()
}

/// `BytesMut::clear` drops every byte held.
#[verifier::external_body]
pub(crate) fn buffer_clear(b: &mut bytes::BytesMut)
    ensures
        buffer_bytes(*final(b)) == Seq::<u8>::empty(),
{
    b.clear()
}

/// `BufMut::put_slice` on a `BytesMut` appends the slice to the bytes held,
/// growing the buffer as needed. It fails only where the new length is more
/// than an allocation may have, which the precondition leaves out.
#[verifier::external_body]
pub(crate) fn buffer_put_slice(b: &mut bytes::BytesMut, src: &[u8])
    requires
        buffer_bytes(*old(b)).len() + src@.len() <= isize::MAX,
    ensures
        buffer_bytes(*final(b)) == buffer_bytes(*old(b)) + src@,
{
    bytes::BufMut::put_slice(b, src)
}

/// `BytesMut::as_ref` lends the bytes held.
#[verifier::external_body]
pub(crate) fn buffer_as_slice(b: &bytes::BytesMut) -> (s: &[u8])
    ensures
        s@ == buffer_bytes(*b),
{
    b.as_ref()
}

/// The buffers of one connection: the bytes read and not yet answered, and
/// the answer being written.
pub struct RequestBuffers {
    pub(crate) parse_buf: bytes::BytesMut,
    pub(crate) resp_buf: bytes::BytesMut,
    pub(crate) is_management: bool,
}

impl RequestBuffers {
    /// The bytes read so far.
    pub closed spec fn parse_bytes(&self) -> Seq<u8> {
        buffer_bytes(self.parse_buf)
    }

    /// The bytes of the answer.
    pub closed spec fn resp_bytes(&self) -> Seq<u8> {
        buffer_bytes(self.resp_buf)
    }

    /// Whether the connection came in on the management port.
    pub closed spec fn spec_is_management(&self) -> bool {
        self.is_management
    }

    /// Two empty buffers, for a regular connection.
    pub fn new() -> (r: RequestBuffers)
        ensures
            r.parse_bytes() == Seq::<u8>::empty(),
            r.resp_bytes() == Seq::<u8>::empty(),
            !r.spec_is_management(),
    {
        RequestBuffers { parse_buf: buffer_new(), resp_buf: buffer_new(), is_management: false }
    }

    /// Empties both buffers. Their storage is kept.
    pub fn clear(&mut self)
        ensures
            final(self).parse_bytes() == Seq::<u8>::empty(),
            final(self).resp_bytes() == Seq::<u8>::empty(),
            final(self).spec_is_management() == old(self).spec_is_management(),
    {
        buffer_clear(&mut self.parse_buf);
        buffer_clear(&mut self.resp_buf);
    }

    /// Marks the buffers as those of a management connection, or of a
    /// regular one.
    pub fn set_management(&mut self, is_management: bool)
        ensures
            final(self).parse_bytes() == old(self).parse_bytes(),
            final(self).resp_bytes() == old(self).resp_bytes(),
            final(self).spec_is_management() == is_management,
    {
        self.is_management = is_management;
    }

    /// How many bytes have been read.
    pub fn request_len(&self) -> (n: usize)
        ensures
            n == self.parse_bytes().len(),
    {
        buffer_len(&self.parse_buf)
    }

    /// How many bytes the answer has.
    pub fn response_len(&self) -> (n: usize)
        ensures
            n == self.resp_bytes().len(),
    {
        buffer_len(&self.resp_buf)
    }

    /// Appends bytes that were read to those read before.
    pub fn append_request(&mut self, chunk: &[u8])
        requires
            old(self).parse_bytes().len() + chunk@.len() <= isize::MAX,
        ensures
            final(self).parse_bytes() == old(self).parse_bytes() + chunk@,
            final(self).resp_bytes() == old(self).resp_bytes(),
            final(self).spec_is_management() == old(self).spec_is_management(),
    {
        buffer_put_slice(&mut self.parse_buf, chunk);
    }

    /// Appends to the answer buffer the answer that begins with
    /// `status_code` and carries `body`.
    pub fn create_html_response(&mut self, status_code: &[u8], body: &[u8])
        requires
            old(self).resp_bytes().len() + spec_response(status_code@, body@).len()
                <= isize::MAX,
        ensures
            final(self).resp_bytes() == old(self).resp_bytes() + spec_response(
                status_code@,
                body@,
            ),
            final(self).parse_bytes() == old(self).parse_bytes(),
            final(self).spec_is_management() == old(self).spec_is_management(),
    {
        create_html_response(&mut self.resp_buf, status_code, body);
    }

    /// Whether the connection came in on the management port.
    #[verifier::when_used_as_spec(spec_is_management)]
    pub fn is_management(&self) -> (r: bool)
        ensures
            r == self.spec_is_management(),
    {
        self.is_management
    }

    /// The bytes read so far.
    pub fn request(&self) -> (r: &[u8])
        ensures
            r@ == self.parse_bytes(),
    {
        buffer_as_slice(&self.parse_buf)
    }

    /// The bytes of the answer.
    pub fn response(&self) -> (r: &[u8])
        ensures
            r@ == self.resp_bytes(),
    {
        buffer_as_slice(&self.resp_buf)
    }
}

impl Default for RequestBuffers {
    fn default() -> (r: RequestBuffers)
        ensures
            r.parse_bytes() == Seq::<u8>::empty(),
            r.resp_bytes() == Seq::<u8>::empty(),
            !r.spec_is_management(),
    {
        RequestBuffers::new()
    }
}

} // verus!
