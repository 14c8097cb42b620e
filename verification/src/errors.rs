//! The error taxonomy: bind-time failures, request-parsing failures, and
//! response-writer failures.

use vstd::prelude::*;

verus! {

/// The opaque I/O error type carried by stream-level failures.
#[verifier::external_type_specification]
#[verifier::external_body]
pub struct ExIoError(std::io::Error);

/// The opaque error the `url` crate reports for an unparsable address.
#[verifier::external_type_specification]
#[verifier::external_body]
pub struct ExUrlParseError(url::ParseError);

/// Why a listening socket could not be set up.
#[derive(Debug)]
pub enum BindError {
    HttpListenError(std::io::Error),
    InvalidBindUrl(url::ParseError),
    InvalidBindAddress(std::io::Error),
}

/// Why a request could not be parsed: an I/O failure on the connection, an
/// internal fault, or a malformed request with its status code and reason.
#[derive(Debug)]
pub enum HttpError {
    StreamError(std::io::Error),
    ServerError(String),
    ClientError(u16, &'static str),
}

/// The mathematical identity of an `HttpError`; the payload of an I/O
/// failure is not part of it.
pub enum HttpErrorView {
    Stream,
    Server(Seq<char>),
    Client(u16, Seq<char>),
}

impl View for HttpError {
    type V = HttpErrorView;

    open spec fn view(&self) -> HttpErrorView {
        match self {
            HttpError::StreamError(_) => HttpErrorView::Stream,
            HttpError::ServerError(m) => HttpErrorView::Server(m@),
            HttpError::ClientError(c, m) => HttpErrorView::Client(*c, m@),
        }
    }
}

/// The status code of the best-effort response attempted after a parse
/// failure: none for a raw I/O failure, 500 for an internal fault, and the
/// classified code for a client fault.
pub fn error_status(e: &HttpError) -> (r: Option<u16>)
    ensures
        match e@ {
            HttpErrorView::Stream => r is None,
            HttpErrorView::Server(_) => r == Some(500u16),
            HttpErrorView::Client(c, _) => r == Some(c),
        },
{
    match e {
        HttpError::StreamError(_) => None,
        HttpError::ServerError(_) => Some(500),
        HttpError::ClientError(c, _) => Some(*c),
    }
}

/// Why a response-writer operation failed: the caller invoked it out of
/// order, or the connection failed mid-write.
#[derive(Debug)]
pub enum WriterError {
    InvalidState(&'static str),
    Stream(std::io::Error),
}

/// The mathematical identity of a `WriterError`.
pub enum WriterErrorView {
    InvalidState(Seq<char>),
    Stream,
}

impl View for WriterError {
    type V = WriterErrorView;

    open spec fn view(&self) -> WriterErrorView {
        match self {
            WriterError::InvalidState(m) => WriterErrorView::InvalidState(m@),
            WriterError::Stream(_) => WriterErrorView::Stream,
        }
    }
}

} // verus!
