use smtr::server::error_status;
use smtr::server::HttpError;
use smtr::Header;
use smtr::Headers;
use smtr::Method;

#[test]
fn as_str() {
    assert_eq!(Method::GET.as_str(), "GET");
    assert_eq!(Method::PUT.as_str(), "PUT");
    assert_eq!(Method::DELETE.as_str(), "DELETE");
    assert_eq!(Method::POST.as_str(), "POST");
    assert_eq!(Method::OPTIONS.as_str(), "OPTIONS");
}

#[test]
fn as_header_string() {
    assert_eq!(Header::Host.as_header_string(), b"Host".to_vec());
    assert_eq!(Header::UserAgent.as_header_string(), b"User-Agent".to_vec());
    assert_eq!(Header::Accept.as_header_string(), b"Accept".to_vec());
    assert_eq!(Header::ContentType.as_header_string(), b"Content-Type".to_vec());
    assert_eq!(Header::ContentLength.as_header_string(), b"Content-Length".to_vec());
    assert_eq!(Header::Authorization.as_header_string(), b"Authorization".to_vec());
    assert_eq!(Header::CacheControl.as_header_string(), b"Cache-Control".to_vec());
    assert_eq!(
        Header::Other(b"X-Whatever".to_vec()).as_header_string(),
        b"X-Whatever".to_vec()
    );
}

#[test]
fn headers_hold_one_value_per_name() {
    let mut headers = Headers::new();
    assert_eq!(headers.len(), 0);

    headers.set(Header::Host, b"first".to_vec());
    headers.set(Header::Accept, b"*/*".to_vec());
    assert_eq!(headers.len(), 2);

    // Last write wins.
    headers.set(Header::Host, b"second".to_vec());
    assert_eq!(headers.len(), 2);
    assert_eq!(
        headers.get(Header::Host).map(|v| v.as_slice()),
        Some(b"second" as &[u8])
    );
    assert_eq!(headers.get(Header::ContentLength), None);
}

#[test]
fn headers_iterate_in_insertion_order() {
    let mut headers = Headers::new();
    headers.set(Header::Host, b"h".to_vec());
    headers.set(Header::Other(b"X-A".to_vec()), b"a".to_vec());

    let entries = headers.iter();
    assert_eq!(entries.len(), 2);
    assert_eq!(entries[0].0, Header::Host);
    assert_eq!(entries[0].1, b"h".to_vec());
    assert_eq!(entries[1].0, Header::Other(b"X-A".to_vec()));
    assert_eq!(entries[1].1, b"a".to_vec());
}

#[test]
fn error_status_classifies_faults() {
    assert_eq!(
        error_status(&HttpError::ClientError(404, "nothing here")),
        Some(404)
    );
    assert_eq!(
        error_status(&HttpError::ServerError("broken".to_string())),
        Some(500)
    );
    let io = std::io::Error::from(std::io::ErrorKind::TimedOut);
    assert_eq!(error_status(&HttpError::StreamError(io)), None);
}
