//! The response value: pure assembly of a status code, headers and an
//! optional in-memory body, with no I/O of its own.

use vstd::prelude::*;

use crate::http::Header;
use crate::http::HeaderId;
use crate::http::Headers;
use crate::http::entry_value;
use crate::http::lemma_entry_value_put;
use crate::http::put_entry;
use crate::writer::dec_digits;
use crate::writer::dec_of_u64;

verus! {

/// The mathematical content of a response or a builder.
pub struct ResponseView {
    pub status: u16,
    pub headers: Seq<(HeaderId, Seq<u8>)>,
    pub body: Option<Seq<u8>>,
}

/// An assembled response: status code, headers, and an optional in-memory
/// body; immutable once built.
pub struct Response {
    status: u16,
    headers: Headers,
    body: Option<Vec<u8>>,
}

impl View for Response {
    type V = ResponseView;

    closed spec fn view(&self) -> ResponseView {
        ResponseView {
            status: self.status,
            headers: self.headers@,
            body: match &self.body {
                Some(b) => Some(b@),
                None => None,
            },
        }
    }
}

/// Accumulates a response: status first, then headers and a body source.
pub struct ResponseBuilder {
    status: u16,
    headers: Headers,
    body: Option<Vec<u8>>,
}

impl View for ResponseBuilder {
    type V = ResponseView;

    closed spec fn view(&self) -> ResponseView {
        ResponseView {
            status: self.status,
            headers: self.headers@,
            body: match &self.body {
                Some(b) => Some(b@),
                None => None,
            },
        }
    }
}

impl Response {
    /// A bare success response: status 200, no headers, no body.
    pub fn ok() -> (r: Response)
        ensures
            r@.status == 200,
            r@.headers == Seq::<(HeaderId, Seq<u8>)>::empty(),
            r@.body is None,
    {
        Response { status: 200, headers: Headers::new(), body: None }
    }

    /// A bare error response: the given status, no headers, no body.
    pub fn err(code: u16) -> (r: Response)
        ensures
            r@.status == code,
            r@.headers == Seq::<(HeaderId, Seq<u8>)>::empty(),
            r@.body is None,
    {
        Response { status: code, headers: Headers::new(), body: None }
    }

    /// A builder for a response with the given status.
    pub fn builder(status: u16) -> (r: ResponseBuilder)
        ensures
            r@.status == status,
            r@.headers == Seq::<(HeaderId, Seq<u8>)>::empty(),
            r@.body is None,
    {
        ResponseBuilder { status, headers: Headers::new(), body: None }
    }

    /// Takes the response apart for serialization.
    pub fn into_parts(self) -> (r: (u16, Headers, Option<Vec<u8>>))
        ensures
            r.0 == self@.status,
            r.1@ == self@.headers,
            match r.2 {
                Some(b) => self@.body == Some(b@),
                None => self@.body is None,
            },
    {
        (self.status, self.headers, self.body)
    }
}

impl ResponseBuilder {
    /// Sets the Content-Type header.
    pub fn content_type(self, content_type: &str) -> (r: ResponseBuilder)
        ensures
            r@.status == self@.status,
            r@.body == self@.body,
            r@.headers == put_entry(
                self@.headers,
                HeaderId::ContentType,
                vstd::utf8::encode_utf8(content_type@),
            ),
    {
        let mut this = self;
        let bytes = vstd::string::StrSliceExecFns::as_bytes_vec(content_type);
        this.headers.set(Header::ContentType, bytes);
        this
    }

    /// Attaches an in-memory body, and derives its Content-Length unless the
    /// caller already set one: after this, the Content-Length header reads
    /// as the decimal length of the body, or as whatever was set before.
    pub fn body(self, b: Vec<u8>) -> (r: ResponseBuilder)
        ensures
            r@.status == self@.status,
            r@.body == Some(b@),
            r@.headers == if entry_value(self@.headers, HeaderId::ContentLength) is None {
                put_entry(self@.headers, HeaderId::ContentLength, dec_digits(b@.len() as int))
            } else {
                self@.headers
            },
            entry_value(r@.headers, HeaderId::ContentLength) == if entry_value(
                self@.headers,
                HeaderId::ContentLength,
            ) is None {
                Some(dec_digits(b@.len() as int))
            } else {
                entry_value(self@.headers, HeaderId::ContentLength)
            },
    {
        let mut this = self;
        let absent = this.headers.get(Header::ContentLength).is_none();
        if absent {
            let len_bytes = dec_of_u64(b.len() as u64);
            proof {
                lemma_entry_value_put(
                    this@.headers,
                    HeaderId::ContentLength,
                    dec_digits(b@.len() as int),
                    HeaderId::ContentLength,
                );
            }
            this.headers.set(Header::ContentLength, len_bytes);
        }
        this.body = Some(b);
        this
    }

    /// Attaches an in-memory body together with an explicitly declared
    /// length, overwriting any Content-Length already set: the compute part
    /// of attaching a file, whose bytes and size the embedding program
    /// reads.
    pub fn body_with_length(self, b: Vec<u8>, len: u64) -> (r: ResponseBuilder)
        ensures
            r@.status == self@.status,
            r@.body == Some(b@),
            r@.headers == put_entry(
                self@.headers,
                HeaderId::ContentLength,
                dec_digits(len as int),
            ),
            entry_value(r@.headers, HeaderId::ContentLength) == Some(dec_digits(len as int)),
    {
        let mut this = self;
        let len_bytes = dec_of_u64(len);
        proof {
            lemma_entry_value_put(
                this@.headers,
                HeaderId::ContentLength,
                dec_digits(len as int),
                HeaderId::ContentLength,
            );
        }
        this.headers.set(Header::ContentLength, len_bytes);
        this.body = Some(b);
        this
    }

    /// Attaches a textual body: its UTF-8 bytes, with Content-Length derived
    /// from their count unless the caller already set one.
    pub fn body_from_string(self, s: &str) -> (r: ResponseBuilder)
        ensures
            r@.status == self@.status,
            r@.body == Some(vstd::utf8::encode_utf8(s@)),
            r@.headers == if entry_value(self@.headers, HeaderId::ContentLength) is None {
                put_entry(
                    self@.headers,
                    HeaderId::ContentLength,
                    dec_digits(vstd::utf8::encode_utf8(s@).len() as int),
                )
            } else {
                self@.headers
            },
            entry_value(r@.headers, HeaderId::ContentLength) == if entry_value(
                self@.headers,
                HeaderId::ContentLength,
            ) is None {
                Some(dec_digits(vstd::utf8::encode_utf8(s@).len() as int))
            } else {
                entry_value(self@.headers, HeaderId::ContentLength)
            },
    {
        let bs = vstd::string::StrSliceExecFns::as_bytes_vec(s);
        self.body(bs)
    }

    /// Finalizes the accumulated parts into an immutable response.
    pub fn build(self) -> (r: Response)
        ensures
            r@.status == self@.status,
            r@.headers == self@.headers,
            r@.body == self@.body,
    {
        Response { status: self.status, headers: self.headers, body: self.body }
    }
}

} // verus!
