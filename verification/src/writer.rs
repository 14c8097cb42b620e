//! The response writer: a single-use, strictly forward state machine that
//! serializes a status line, a header block and a body onto a byte sink, and
//! never emits malformed wire output, however it is called.

use vstd::prelude::*;

use crate::errors::WriterError;
use crate::http::Header;
use crate::http::HeaderId;
use crate::http::Headers;
use crate::response::Response;

verus! {

/// Where a sink's bytes go is its business; what has been written is its
/// contract: `write_bytes` either appends exactly the given bytes to the
/// sink's output, or fails.
pub trait ByteSink {
    /// All bytes accepted so far.
    spec fn sunk(&self) -> Seq<u8>;

    /// Whether this sink accepts every write. An in-memory sink does; a
    /// socket-backed one does not.
    spec fn infallible(&self) -> bool;

    fn write_bytes(&mut self, data: &[u8]) -> (r: Result<(), std::io::Error>)
        ensures
            r is Ok ==> final(self).sunk() == old(self).sunk() + data@,
            old(self).infallible() ==> r is Ok && final(self).infallible(),
    ;
}

/// An in-memory sink: accepts every write and keeps the bytes.
pub struct VecSink {
    data: Vec<u8>,
}

impl VecSink {
    pub fn new() -> (r: VecSink)
        ensures
            r.sunk() == Seq::<u8>::empty(),
    {
        let r = VecSink { data: Vec::new() };
        proof {
            assert(r.sunk() =~= Seq::<u8>::empty());
        }
        r
    }

    /// The bytes written so far.
    pub fn bytes(&self) -> (r: &Vec<u8>)
        ensures
            r@ == self.sunk(),
    {
        &self.data
    }
}

impl ByteSink for VecSink {
    closed spec fn sunk(&self) -> Seq<u8> {
        self.data@
    }

    open spec fn infallible(&self) -> bool {
        true
    }

    fn write_bytes(&mut self, data: &[u8]) -> (r: Result<(), std::io::Error>)
        ensures
            r is Ok,
            final(self).sunk() == old(self).sunk() + data@,
    {
        push_slice(&mut self.data, data);
        Ok(())
    }
}

/// Appends a byte slice to a vector.
pub fn push_slice(dst: &mut Vec<u8>, src: &[u8])
    ensures
        final(dst)@ == old(dst)@ + src@,
{
    let n = src.len();
    let mut i: usize = 0;
    while i < n
        invariant
            n == src@.len(),
            0 <= i <= n,
            dst@ =~= old(dst)@ + src@.subrange(0, i as int),
        decreases n - i,
    {
        dst.push(src[i]);
        i += 1;
    }
    proof {
        assert(dst@ =~= old(dst)@ + src@);
    }
}

/// Appends one vector's bytes to another.
pub fn push_bytes(dst: &mut Vec<u8>, src: &Vec<u8>)
    ensures
        final(dst)@ == old(dst)@ + src@,
{
    push_slice(dst, src.as_slice());
}

/// The decimal digits of `n`, most significant first.
pub open spec fn dec_digits(n: int) -> Seq<u8>
    decreases n,
{
    if n < 10 {
        seq![(48 + n) as u8]
    } else {
        dec_digits(n / 10) + seq![(48 + n % 10) as u8]
    }
}

/// Renders `n` in decimal.
pub fn dec_of_u64(n: u64) -> (v: Vec<u8>)
    ensures
        v@ == dec_digits(n as int),
    decreases n,
{
    if n < 10 {
        let mut v: Vec<u8> = Vec::new();
        v.push(48 + (n as u8));
        proof {
            assert(v@ =~= dec_digits(n as int));
        }
        v
    } else {
        let mut v = dec_of_u64(n / 10);
        v.push(48 + ((n % 10) as u8));
        proof {
            assert(v@ =~= dec_digits(n as int));
        }
        v
    }
}

/// "HTTP/1.0 ": the writer's fixed version token and the separating space.
pub open spec fn lit_status_prefix() -> Seq<u8> {
    seq![72u8, 84u8, 84u8, 80u8, 47u8, 49u8, 46u8, 48u8, 32u8]
}

/// "\r\n"
pub open spec fn lit_crlf() -> Seq<u8> {
    seq![13u8, 10u8]
}

/// The status line for `status`: the fixed version token, the code in
/// decimal, and a line terminator.
pub open spec fn status_line_bytes(status: u16) -> Seq<u8> {
    lit_status_prefix() + dec_digits(status as int) + lit_crlf()
}

/// One serialized header line: `Name: value` and a line terminator.
pub open spec fn header_entry_bytes(e: (HeaderId, Seq<u8>)) -> Seq<u8> {
    e.0.name_bytes() + seq![58u8, 32u8] + e.1 + lit_crlf()
}

/// The serialized header block: each entry's line, in order.
pub open spec fn header_block_bytes(entries: Seq<(HeaderId, Seq<u8>)>) -> Seq<u8>
    decreases entries.len(),
{
    if entries.len() == 0 {
        Seq::empty()
    } else {
        header_entry_bytes(entries[0]) + header_block_bytes(entries.drop_first())
    }
}

proof fn lemma_header_block_push(entries: Seq<(HeaderId, Seq<u8>)>, e: (HeaderId, Seq<u8>))
    ensures
        header_block_bytes(entries.push(e)) == header_block_bytes(entries) + header_entry_bytes(e),
    decreases entries.len(),
{
    if entries.len() == 0 {
        assert(entries.push(e)[0] == e);
        assert(entries.push(e).drop_first() =~= entries);
        assert(header_block_bytes(entries.push(e)) == header_entry_bytes(e) + header_block_bytes(
            entries,
        ));
        assert(header_entry_bytes(e) + header_block_bytes(entries) =~= header_block_bytes(entries)
            + header_entry_bytes(e));
    } else {
        lemma_header_block_push(entries.drop_first(), e);
        assert(entries.push(e).drop_first() =~= entries.drop_first().push(e));
        assert(entries.push(e)[0] == entries[0]);
        assert(header_block_bytes(entries.push(e)) =~= header_block_bytes(entries)
            + header_entry_bytes(e));
    }
}

/// The full wire form of a response: status line, header block, a blank
/// line, then the body bytes if there are any.
pub open spec fn response_bytes(
    status: u16,
    entries: Seq<(HeaderId, Seq<u8>)>,
    body: Option<Seq<u8>>,
) -> Seq<u8> {
    status_line_bytes(status) + header_block_bytes(entries) + lit_crlf() + (match body {
        Some(b) => b,
        None => Seq::<u8>::empty(),
    })
}

/// A response built fresh from a body of `n` bytes goes onto the wire as
/// exactly: the status line, one derived Content-Length header, the blank
/// line, and the body — no other header.
pub proof fn lemma_fresh_body_response_wire_form(status: u16, b: Seq<u8>)
    ensures
        response_bytes(
            status,
            crate::http::put_entry(
                Seq::<(HeaderId, Seq<u8>)>::empty(),
                HeaderId::ContentLength,
                dec_digits(b.len() as int),
            ),
            Some(b),
        ) == status_line_bytes(status) + header_entry_bytes(
            (HeaderId::ContentLength, dec_digits(b.len() as int)),
        ) + lit_crlf() + b,
{
    let e = (HeaderId::ContentLength, dec_digits(b.len() as int));
    let entries = crate::http::put_entry(Seq::<(HeaderId, Seq<u8>)>::empty(), e.0, e.1);
    assert(entries =~= seq![e]);
    assert(entries.drop_first() =~= Seq::<(HeaderId, Seq<u8>)>::empty());
    assert(header_block_bytes(entries) == header_entry_bytes(e) + header_block_bytes(
        entries.drop_first(),
    ));
    assert(header_block_bytes(entries) =~= header_entry_bytes(e));
    assert(response_bytes(status, entries, Some(b)) =~= status_line_bytes(status)
        + header_entry_bytes(e) + lit_crlf() + b);
}

/// Renders the status line for `status`.
fn render_status_line(status: u16) -> (v: Vec<u8>)
    ensures
        v@ == status_line_bytes(status),
{
    let mut v: Vec<u8> = Vec::new();
    v.push(72);
    v.push(84);
    v.push(84);
    v.push(80);
    v.push(47);
    v.push(49);
    v.push(46);
    v.push(48);
    v.push(32);
    proof {
        assert(v@ =~= lit_status_prefix());
    }
    let mut digits = dec_of_u64(status as u64);
    push_bytes(&mut v, &digits);
    v.push(13);
    v.push(10);
    proof {
        assert(v@ =~= status_line_bytes(status));
    }
    v
}

/// Renders the header block of `headers` followed by the terminating blank
/// line.
fn render_header_block(headers: &Headers) -> (v: Vec<u8>)
    ensures
        v@ == header_block_bytes(headers@) + lit_crlf(),
{
    let entries = headers.iter();
    let n = entries.len();
    let mut v: Vec<u8> = Vec::new();
    let mut i: usize = 0;
    while i < n
        invariant
            n == entries@.len(),
            entries@.len() == headers@.len(),
            forall|k: int|
                0 <= k < entries@.len() ==> (#[trigger] entries@[k].0@, entries@[k].1@)
                    == headers@[k],
            0 <= i <= n,
            v@ == header_block_bytes(headers@.subrange(0, i as int)),
        decreases n - i,
    {
        let ent = &entries[i];
        let name = ent.0.as_header_string();
        push_bytes(&mut v, &name);
        v.push(58);
        v.push(32);
        push_bytes(&mut v, &ent.1);
        v.push(13);
        v.push(10);
        proof {
            assert(headers@.subrange(0, i + 1) =~= headers@.subrange(0, i as int).push(
                headers@[i as int],
            ));
            lemma_header_block_push(headers@.subrange(0, i as int), headers@[i as int]);
            assert(v@ =~= header_block_bytes(headers@.subrange(0, i as int)) + header_entry_bytes(
                headers@[i as int],
            ));
        }
        i += 1;
    }
    v.push(13);
    v.push(10);
    proof {
        assert(headers@.subrange(0, n as int) =~= headers@);
        assert(v@ =~= header_block_bytes(headers@) + lit_crlf());
    }
    v
}

/// How far a response has progressed: the states advance strictly forward.
#[derive(Debug, Clone, Copy, PartialEq, Eq, Structural)]
pub enum ResponseState {
    Status,
    Headers,
    Body,
}

/// The per-connection response writer. It owns the connection's write half
/// for the lifetime of one exchange, and its output is well-formed whatever
/// order its operations are attempted in: an out-of-order call is rejected
/// and writes nothing.
pub struct ResponseWriter<S: ByteSink> {
    sink: S,
    state: ResponseState,
    status: Option<u16>,
}

impl<S: ByteSink> ResponseWriter<S> {
    /// Every byte this writer's sink has accepted.
    pub closed spec fn output(&self) -> Seq<u8> {
        self.sink.sunk()
    }

    /// The state the writer stands in.
    pub closed spec fn in_state(&self) -> ResponseState {
        self.state
    }

    /// The status code sent, once one has been.
    pub closed spec fn status_sent(&self) -> Option<u16> {
        self.status
    }

    /// The sink itself.
    pub closed spec fn spec_sink(&self) -> S {
        self.sink
    }

    /// Whether the sink accepts every write.
    pub closed spec fn sink_infallible(&self) -> bool {
        self.sink.infallible()
    }

    /// A fresh writer over `sink`, ready for one response.
    pub fn new(sink: S) -> (r: ResponseWriter<S>)
        ensures
            r.in_state() == ResponseState::Status,
            r.status_sent() is None,
            r.output() == sink.sunk(),
            r.spec_sink() == sink,
            r.sink_infallible() == sink.infallible(),
    {
        ResponseWriter { sink, state: ResponseState::Status, status: None }
    }

    /// Writes the status line. Legal only as the first operation.
    pub fn set_status(&mut self, status: u16) -> (r: Result<(), WriterError>)
        ensures
            (r matches Err(WriterError::InvalidState(_))) <==> old(self).in_state()
                != ResponseState::Status,
            old(self).in_state() != ResponseState::Status ==> *final(self) == *old(self),
            r is Ok ==> final(self).in_state() == ResponseState::Headers && final(self).status_sent() == Some(status) && final(self).output() == old(self).output()
                + status_line_bytes(status),
            r matches Err(WriterError::Stream(_)) ==> final(self).in_state()
                == ResponseState::Status && final(self).status_sent() == old(self).status_sent(),
            old(self).sink_infallible() ==> final(self).sink_infallible(),
            old(self).sink_infallible() ==> !(r matches Err(WriterError::Stream(_))),
    {
        if !(self.state == ResponseState::Status) {
            return Err(
                WriterError::InvalidState(
                    "Invalid state: status code has already been sent; cannot update",
                ),
            );
        }
        let line = render_status_line(status);
        match self.sink.write_bytes(line.as_slice()) {
            Ok(()) => {
                self.state = ResponseState::Headers;
                self.status = Some(status);
                Ok(())
            },
            Err(e) => Err(WriterError::Stream(e)),
        }
    }

    /// Writes one header line. Legal only after the status line and before
    /// the header block is closed.
    pub fn set_header(&mut self, header: Header, value: &str) -> (r: Result<(), WriterError>)
        ensures
            (r matches Err(WriterError::InvalidState(_))) <==> old(self).in_state()
                != ResponseState::Headers,
            old(self).in_state() != ResponseState::Headers ==> *final(self) == *old(self),
            r is Ok ==> final(self).in_state() == ResponseState::Headers && final(self).status_sent() == old(self).status_sent() && final(self).output() == old(self).output()
                + header_entry_bytes((header@, vstd::utf8::encode_utf8(value@))),
            r matches Err(WriterError::Stream(_)) ==> final(self).in_state()
                == ResponseState::Headers && final(self).status_sent() == old(self).status_sent(),
            old(self).sink_infallible() ==> final(self).sink_infallible(),
            old(self).sink_infallible() ==> !(r matches Err(WriterError::Stream(_))),
    {
        if !(self.state == ResponseState::Headers) {
            if self.state == ResponseState::Status {
                return Err(
                    WriterError::InvalidState(
                        "Invalid state: status code has not yet been sent; cannot start headers",
                    ),
                );
            }
            return Err(
                WriterError::InvalidState(
                    "Invalid state: headers have already been sent; cannot update",
                ),
            );
        }
        let mut line = header.as_header_string();
        line.push(58);
        line.push(32);
        push_slice(&mut line, value.as_bytes());
        line.push(13);
        line.push(10);
        proof {
            assert(line@ =~= header_entry_bytes((header@, vstd::utf8::encode_utf8(value@))));
        }
        match self.sink.write_bytes(line.as_slice()) {
            Ok(()) => Ok(()),
            Err(e) => Err(WriterError::Stream(e)),
        }
    }

    /// Writes the whole header block and the blank line that closes it.
    /// Legal only once, after the status line.
    pub fn set_headers(&mut self, headers: Headers) -> (r: Result<(), WriterError>)
        ensures
            (r matches Err(WriterError::InvalidState(_))) <==> old(self).in_state()
                != ResponseState::Headers,
            old(self).in_state() != ResponseState::Headers ==> *final(self) == *old(self),
            r is Ok ==> final(self).in_state() == ResponseState::Body && final(self).status_sent()
                == old(self).status_sent() && final(self).output() == old(self).output()
                + header_block_bytes(headers@) + lit_crlf(),
            r matches Err(WriterError::Stream(_)) ==> final(self).in_state()
                == ResponseState::Headers && final(self).status_sent() == old(self).status_sent(),
            old(self).sink_infallible() ==> final(self).sink_infallible(),
            old(self).sink_infallible() ==> !(r matches Err(WriterError::Stream(_))),
    {
        if !(self.state == ResponseState::Headers) {
            if self.state == ResponseState::Status {
                return Err(
                    WriterError::InvalidState(
                        "Invalid state: status code has not yet been sent; cannot start headers",
                    ),
                );
            }
            return Err(
                WriterError::InvalidState(
                    "Invalid state: headers have already been sent; cannot update",
                ),
            );
        }
        let block = render_header_block(&headers);
        match self.sink.write_bytes(block.as_slice()) {
            Ok(()) => {
                self.state = ResponseState::Body;
                proof {
                    assert(self.output() =~= old(self).output() + header_block_bytes(headers@)
                        + lit_crlf());
                }
                Ok(())
            },
            Err(e) => Err(WriterError::Stream(e)),
        }
    }

    /// Writes body bytes verbatim. Legal once the status line is out; closes
    /// the header block first if that has not happened yet.
    pub fn write_body(&mut self, bytes: &[u8]) -> (r: Result<(), WriterError>)
        ensures
            (r matches Err(WriterError::InvalidState(_))) <==> old(self).in_state()
                == ResponseState::Status,
            old(self).in_state() == ResponseState::Status ==> *final(self) == *old(self),
            r is Ok ==> final(self).in_state() == ResponseState::Body && final(self).status_sent()
                == old(self).status_sent() && final(self).output() == old(self).output() + (
            if old(self).in_state() == ResponseState::Headers {
                lit_crlf()
            } else {
                Seq::<u8>::empty()
            }) + bytes@,
            r matches Err(WriterError::Stream(_)) ==> final(self).in_state() == old(self).in_state() && final(self).status_sent() == old(self).status_sent(),
            old(self).sink_infallible() ==> final(self).sink_infallible(),
            old(self).sink_infallible() ==> !(r matches Err(WriterError::Stream(_))),
    {
        if self.state == ResponseState::Status {
            return Err(
                WriterError::InvalidState(
                    "Invalid state: status code has not yet been sent; cannot start body",
                ),
            );
        }
        let mut buf: Vec<u8> = Vec::new();
        if self.state == ResponseState::Headers {
            buf.push(13);
            buf.push(10);
        }
        push_slice(&mut buf, bytes);
        proof {
            if old(self).in_state() == ResponseState::Headers {
                assert(buf@ =~= lit_crlf() + bytes@);
            } else {
                assert(buf@ =~= Seq::<u8>::empty() + bytes@);
            }
        }
        match self.sink.write_bytes(buf.as_slice()) {
            Ok(()) => {
                self.state = ResponseState::Body;
                Ok(())
            },
            Err(e) => Err(WriterError::Stream(e)),
        }
    }

    /// Streams a body source verbatim, as `write_body` does.
    pub fn stream_body(&mut self, bytes: &[u8]) -> (r: Result<(), WriterError>)
        ensures
            (r matches Err(WriterError::InvalidState(_))) <==> old(self).in_state()
                == ResponseState::Status,
            old(self).in_state() == ResponseState::Status ==> *final(self) == *old(self),
            r is Ok ==> final(self).in_state() == ResponseState::Body && final(self).status_sent()
                == old(self).status_sent() && final(self).output() == old(self).output() + (
            if old(self).in_state() == ResponseState::Headers {
                lit_crlf()
            } else {
                Seq::<u8>::empty()
            }) + bytes@,
            r matches Err(WriterError::Stream(_)) ==> final(self).in_state() == old(self).in_state() && final(self).status_sent() == old(self).status_sent(),
            old(self).sink_infallible() ==> final(self).sink_infallible(),
            old(self).sink_infallible() ==> !(r matches Err(WriterError::Stream(_))),
    {
        self.write_body(bytes)
    }

    /// Emits one whole response: status line, header block, and the body if
    /// the response carries one. Must be the first operation on the writer.
    pub fn send_response(&mut self, response: Response) -> (r: Result<(), WriterError>)
        ensures
            (r matches Err(WriterError::InvalidState(_))) <==> old(self).in_state()
                != ResponseState::Status,
            old(self).in_state() != ResponseState::Status ==> *final(self) == *old(self),
            r is Ok ==> final(self).in_state() == ResponseState::Body && final(self).status_sent()
                == Some(response@.status) && final(self).output() == old(self).output()
                + response_bytes(response@.status, response@.headers, response@.body),
            r matches Err(WriterError::Stream(_)) ==> final(self).status_sent() == old(self).status_sent() || final(self).status_sent() == Some(response@.status),
            old(self).sink_infallible() ==> final(self).sink_infallible(),
            old(self).sink_infallible() ==> !(r matches Err(WriterError::Stream(_))),
    {
        if !(self.state == ResponseState::Status) {
            return Err(WriterError::InvalidState("Invalid state: response has already started"));
        }
        let ghost out0 = self.output();
        let ghost rv = response@;
        let (status, headers, body) = response.into_parts();
        match self.set_status(status) {
            Ok(()) => {},
            Err(e) => {
                return Err(e);
            },
        }
        match self.set_headers(headers) {
            Ok(()) => {},
            Err(e) => {
                return Err(e);
            },
        }
        match body {
            None => {
                proof {
                    assert(self.output() =~= out0 + response_bytes(rv.status, rv.headers, rv.body));
                }
                Ok(())
            },
            Some(b) => {
                match self.write_body(b.as_slice()) {
                    Ok(()) => {
                        proof {
                            assert(self.output() =~= out0 + response_bytes(
                                rv.status,
                                rv.headers,
                                rv.body,
                            ));
                        }
                        Ok(())
                    },
                    Err(e) => Err(e),
                }
            },
        }
    }

    /// The raw escape hatch: the sink itself, bypassing the state machine,
    /// for output whose status line and headers already exist as bytes.
    pub fn into_raw(self) -> (r: S)
        ensures
            r == self.spec_sink(),
    {
        self.sink
    }

    /// The raw escape hatch, borrowed: see `into_raw`.
    pub fn raw_writer(&mut self) -> (r: &mut S)
        ensures
            *r == old(self).spec_sink(),
            final(self).spec_sink() == *final(r),
            final(self).in_state() == old(self).in_state(),
            final(self).status_sent() == old(self).status_sent(),
            final(self).output() == final(r).sunk(),
    {
        &mut self.sink
    }
}

/// The response-writing handle handed to a consumer beside each request: a
/// thin facade over one `ResponseWriter`.
pub struct Responder<S: ByteSink> {
    imp: ResponseWriter<S>,
}

impl<S: ByteSink> Responder<S> {
    /// Every byte written through this responder's sink.
    pub closed spec fn output(&self) -> Seq<u8> {
        self.imp.output()
    }

    /// The state the underlying writer stands in.
    pub closed spec fn in_state(&self) -> ResponseState {
        self.imp.in_state()
    }

    /// The status code sent, once one has been.
    pub closed spec fn status_sent(&self) -> Option<u16> {
        self.imp.status_sent()
    }

    /// Whether the sink accepts every write.
    pub closed spec fn sink_infallible(&self) -> bool {
        self.imp.sink_infallible()
    }

    pub fn new(imp: ResponseWriter<S>) -> (r: Responder<S>)
        ensures
            r.in_state() == imp.in_state(),
            r.status_sent() == imp.status_sent(),
            r.output() == imp.output(),
            r.sink_infallible() == imp.sink_infallible(),
    {
        Responder { imp }
    }

    pub fn set_status(&mut self, status: u16) -> (r: Result<(), WriterError>)
        ensures
            (r matches Err(WriterError::InvalidState(_))) <==> old(self).in_state()
                != ResponseState::Status,
            old(self).in_state() != ResponseState::Status ==> *final(self) == *old(self),
            r is Ok ==> final(self).in_state() == ResponseState::Headers && final(self).status_sent() == Some(status) && final(self).output() == old(self).output()
                + status_line_bytes(status),
            r matches Err(WriterError::Stream(_)) ==> final(self).in_state()
                == ResponseState::Status && final(self).status_sent() == old(self).status_sent(),
            old(self).sink_infallible() ==> final(self).sink_infallible(),
            old(self).sink_infallible() ==> !(r matches Err(WriterError::Stream(_))),
    {
        self.imp.set_status(status)
    }

    pub fn set_headers(&mut self, headers: Headers) -> (r: Result<(), WriterError>)
        ensures
            (r matches Err(WriterError::InvalidState(_))) <==> old(self).in_state()
                != ResponseState::Headers,
            old(self).in_state() != ResponseState::Headers ==> *final(self) == *old(self),
            r is Ok ==> final(self).in_state() == ResponseState::Body && final(self).status_sent()
                == old(self).status_sent() && final(self).output() == old(self).output()
                + header_block_bytes(headers@) + lit_crlf(),
            r matches Err(WriterError::Stream(_)) ==> final(self).in_state()
                == ResponseState::Headers && final(self).status_sent() == old(self).status_sent(),
            old(self).sink_infallible() ==> final(self).sink_infallible(),
            old(self).sink_infallible() ==> !(r matches Err(WriterError::Stream(_))),
    {
        self.imp.set_headers(headers)
    }

    pub fn set_header(&mut self, header: Header, value: &str) -> (r: Result<(), WriterError>)
        ensures
            (r matches Err(WriterError::InvalidState(_))) <==> old(self).in_state()
                != ResponseState::Headers,
            old(self).in_state() != ResponseState::Headers ==> *final(self) == *old(self),
            r is Ok ==> final(self).in_state() == ResponseState::Headers && final(self).status_sent() == old(self).status_sent() && final(self).output() == old(self).output()
                + header_entry_bytes((header@, vstd::utf8::encode_utf8(value@))),
            r matches Err(WriterError::Stream(_)) ==> final(self).in_state()
                == ResponseState::Headers && final(self).status_sent() == old(self).status_sent(),
            old(self).sink_infallible() ==> final(self).sink_infallible(),
            old(self).sink_infallible() ==> !(r matches Err(WriterError::Stream(_))),
    {
        self.imp.set_header(header, value)
    }

    pub fn write_body(&mut self, bytes: &[u8]) -> (r: Result<(), WriterError>)
        ensures
            (r matches Err(WriterError::InvalidState(_))) <==> old(self).in_state()
                == ResponseState::Status,
            old(self).in_state() == ResponseState::Status ==> *final(self) == *old(self),
            r is Ok ==> final(self).in_state() == ResponseState::Body && final(self).status_sent()
                == old(self).status_sent() && final(self).output() == old(self).output() + (
            if old(self).in_state() == ResponseState::Headers {
                lit_crlf()
            } else {
                Seq::<u8>::empty()
            }) + bytes@,
            r matches Err(WriterError::Stream(_)) ==> final(self).in_state() == old(self).in_state() && final(self).status_sent() == old(self).status_sent(),
            old(self).sink_infallible() ==> final(self).sink_infallible(),
            old(self).sink_infallible() ==> !(r matches Err(WriterError::Stream(_))),
    {
        self.imp.write_body(bytes)
    }

    /// Streams a body source verbatim, as `write_body` does.
    pub fn stream_body(&mut self, bytes: &[u8]) -> (r: Result<(), WriterError>)
        ensures
            (r matches Err(WriterError::InvalidState(_))) <==> old(self).in_state()
                == ResponseState::Status,
            old(self).in_state() == ResponseState::Status ==> *final(self) == *old(self),
            r is Ok ==> final(self).in_state() == ResponseState::Body && final(self).status_sent()
                == old(self).status_sent() && final(self).output() == old(self).output() + (
            if old(self).in_state() == ResponseState::Headers {
                lit_crlf()
            } else {
                Seq::<u8>::empty()
            }) + bytes@,
            r matches Err(WriterError::Stream(_)) ==> final(self).in_state() == old(self).in_state() && final(self).status_sent() == old(self).status_sent(),
            old(self).sink_infallible() ==> final(self).sink_infallible(),
            old(self).sink_infallible() ==> !(r matches Err(WriterError::Stream(_))),
    {
        self.imp.stream_body(bytes)
    }

    /// Emits one whole response; must be the first operation.
    pub fn send_response(&mut self, response: Response) -> (r: Result<(), WriterError>)
        ensures
            (r matches Err(WriterError::InvalidState(_))) <==> old(self).in_state()
                != ResponseState::Status,
            old(self).in_state() != ResponseState::Status ==> *final(self) == *old(self),
            r is Ok ==> final(self).in_state() == ResponseState::Body && final(self).status_sent()
                == Some(response@.status) && final(self).output() == old(self).output()
                + response_bytes(response@.status, response@.headers, response@.body),
            r matches Err(WriterError::Stream(_)) ==> final(self).status_sent() == old(self).status_sent() || final(self).status_sent() == Some(response@.status),
            old(self).sink_infallible() ==> final(self).sink_infallible(),
            old(self).sink_infallible() ==> !(r matches Err(WriterError::Stream(_))),
    {
        self.imp.send_response(response)
    }
}

} // verus!
