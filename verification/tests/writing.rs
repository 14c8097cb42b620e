use smtr::server::ByteSink;
use smtr::server::Responder;
use smtr::server::Response;
use smtr::server::ResponseWriter;
use smtr::server::VecSink;
use smtr::server::WriterError;
use smtr::Header;
use smtr::Headers;

#[test]
fn server_writes_empty_headers_and_body_when_responding_with_okay() {
    let mut response = ResponseWriter::new(VecSink::new());

    response
        .send_response(Response::builder(200).body_from_string("Hello world").build())
        .unwrap();

    let sink = response.into_raw();
    let result = sink.bytes().as_slice();

    assert_eq!(
        result,
        b"HTTP/1.0 200\r\n\
        Content-Length: 11\r\n\
        \r\n\
        Hello world"
    );
}

#[test]
fn mod_writes_empty_headers_and_body_when_responding_with_okay() {
    let mut response = ResponseWriter::new(VecSink::new());

    response
        .send_response(Response::builder(200).body_from_string("Hello world").build())
        .unwrap();

    let sink = response.into_raw();
    let result = sink.bytes().as_slice();

    assert_eq!(
        result,
        b"HTTP/1.0 200\r\n\
        Content-Length: 11\r\n\
        \r\n\
        Hello world"
    );
}

#[test]
fn bare_error_response_has_no_headers_and_no_body() {
    let mut writer = ResponseWriter::new(VecSink::new());

    writer.send_response(Response::err(404)).unwrap();

    assert_eq!(writer.into_raw().bytes().as_slice(), b"HTTP/1.0 404\r\n\r\n");
}

#[test]
fn empty_textual_body_has_content_length_zero() {
    let mut writer = ResponseWriter::new(VecSink::new());

    writer
        .send_response(Response::builder(200).body_from_string("").build())
        .unwrap();

    assert_eq!(
        writer.into_raw().bytes().as_slice(),
        b"HTTP/1.0 200\r\nContent-Length: 0\r\n\r\n"
    );
}

#[test]
fn explicit_content_length_is_not_overwritten() {
    // The first body derives Content-Length 5; attaching another body leaves
    // the already-set header alone.
    let mut writer = ResponseWriter::new(VecSink::new());

    let response = Response::builder(200)
        .body_from_string("first")
        .body_from_string("second body")
        .build();
    writer.send_response(response).unwrap();

    assert_eq!(
        writer.into_raw().bytes().as_slice(),
        b"HTTP/1.0 200\r\nContent-Length: 5\r\n\r\nsecond body"
    );
}

#[test]
fn body_with_length_overwrites_the_content_length() {
    // An explicitly declared length replaces a derived one, as attaching a
    // file after an in-memory body would.
    let mut writer = ResponseWriter::new(VecSink::new());

    let response = Response::builder(200)
        .body_from_string("first")
        .body_with_length(b"second body".to_vec(), 11)
        .build();
    writer.send_response(response).unwrap();

    assert_eq!(
        writer.into_raw().bytes().as_slice(),
        b"HTTP/1.0 200\r\nContent-Length: 11\r\n\r\nsecond body"
    );
}

#[test]
fn content_type_header_is_emitted() {
    let mut writer = ResponseWriter::new(VecSink::new());

    let response = Response::builder(200)
        .content_type("application/json")
        .body_from_string("{}")
        .build();
    writer.send_response(response).unwrap();

    assert_eq!(
        writer.into_raw().bytes().as_slice(),
        b"HTTP/1.0 200\r\nContent-Type: application/json\r\nContent-Length: 2\r\n\r\n{}"
    );
}

#[test]
fn headers_cannot_be_sent_twice() {
    let mut writer = ResponseWriter::new(VecSink::new());

    writer.set_status(200).unwrap();
    writer.set_headers(Headers::new()).unwrap();

    let second = writer.set_headers(Headers::new());
    assert!(matches!(second, Err(WriterError::InvalidState(_))));
}

#[test]
fn body_cannot_be_written_before_the_status() {
    let mut writer = ResponseWriter::new(VecSink::new());

    let result = writer.write_body(b"too early");
    assert!(matches!(result, Err(WriterError::InvalidState(_))));

    // Nothing reached the wire.
    assert_eq!(writer.into_raw().bytes().as_slice(), b"");
}

#[test]
fn status_cannot_be_set_twice() {
    let mut writer = ResponseWriter::new(VecSink::new());

    writer.set_status(200).unwrap();
    let second = writer.set_status(500);
    assert!(matches!(second, Err(WriterError::InvalidState(_))));
}

#[test]
fn send_response_requires_a_fresh_writer() {
    let mut writer = ResponseWriter::new(VecSink::new());
    writer.set_status(200).unwrap();

    let result = writer.send_response(Response::ok());
    assert!(matches!(result, Err(WriterError::InvalidState(_))));
}

#[test]
fn headers_before_status_are_rejected() {
    let mut writer = ResponseWriter::new(VecSink::new());

    let result = writer.set_headers(Headers::new());
    assert!(matches!(result, Err(WriterError::InvalidState(_))));
}

#[test]
fn write_body_closes_the_header_block_first() {
    let mut writer = ResponseWriter::new(VecSink::new());

    writer.set_status(200).unwrap();
    writer.set_header(Header::Host, "example").unwrap();
    writer.write_body(b"abc").unwrap();
    writer.write_body(b"def").unwrap();

    assert_eq!(
        writer.into_raw().bytes().as_slice(),
        b"HTTP/1.0 200\r\nHost: example\r\n\r\nabcdef"
    );
}

#[test]
fn stream_body_copies_the_source_verbatim() {
    let mut writer = ResponseWriter::new(VecSink::new());

    writer.set_status(200).unwrap();
    writer.set_headers(Headers::new()).unwrap();
    writer.stream_body(b"raw \x00 bytes").unwrap();

    assert_eq!(
        writer.into_raw().bytes().as_slice(),
        b"HTTP/1.0 200\r\n\r\nraw \x00 bytes"
    );
}

#[test]
fn raw_writer_bypasses_the_state_machine() {
    let mut writer = ResponseWriter::new(VecSink::new());

    // A subprocess's output already holds complete status and header bytes.
    let sink = writer.raw_writer();
    sink.write_bytes(b"HTTP/1.0 200\r\nConnection: close\r\n").unwrap();

    assert_eq!(
        writer.into_raw().bytes().as_slice(),
        b"HTTP/1.0 200\r\nConnection: close\r\n"
    );
}

#[test]
fn responder_delegates_and_rejects_misuse() {
    let writer = ResponseWriter::new(VecSink::new());
    let mut responder = Responder::new(writer);

    let early = responder.write_body(b"nope");
    assert!(matches!(early, Err(WriterError::InvalidState(_))));

    responder.set_status(200).unwrap();
    responder.set_header(Header::ContentType, "text/plain").unwrap();
    let twice = responder.set_status(500);
    assert!(matches!(twice, Err(WriterError::InvalidState(_))));

    let mut headers = Headers::new();
    headers.set(Header::Host, b"h".to_vec());
    responder.set_headers(headers).unwrap();
    responder.stream_body(b"hi").unwrap();
}

#[test]
fn responder_sends_a_whole_response() {
    let writer = ResponseWriter::new(VecSink::new());
    let mut responder = Responder::new(writer);

    responder
        .send_response(Response::builder(200).body_from_string("Hello world").build())
        .unwrap();

    let second = responder.send_response(Response::ok());
    assert!(matches!(second, Err(WriterError::InvalidState(_))));
}
