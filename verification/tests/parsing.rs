use smtr::server::ByteStream;
use smtr::server::HttpError;
use smtr::server::parse_request;
use smtr::server::read_until_limited;
use smtr::Header;
use smtr::Method;

const BASE: &str = "http://localhost:2000";

fn parse(bytes: &[u8]) -> Result<smtr::Request, HttpError> {
    let mut stream = ByteStream::new(bytes.to_vec());
    parse_request(BASE, &mut stream)
}

#[test]
fn server_parse_empty_get_can_extract_path_and_well_known_headers() {
    let req = b"GET /hello HTTP/1.1\r\n\
        Host: localhost:8080\r\n\
        User-Agent: curl/7.71.1\r\n\
        Accept: */*\r\n\
        \r\n";

    let result = parse(req).unwrap();

    assert_eq!(
        result.headers().get(Header::Host).map(|v| v.as_slice()),
        Some(b"localhost:8080" as &[u8])
    );
    assert_eq!(
        result.headers().get(Header::UserAgent).map(|v| v.as_slice()),
        Some(b"curl/7.71.1" as &[u8])
    );
    assert_eq!(
        result.headers().get(Header::Accept).map(|v| v.as_slice()),
        Some(b"*/*" as &[u8])
    );
}

#[test]
fn mod_parse_empty_get_can_extract_path_and_well_known_headers() {
    let req = b"GET /hello HTTP/1.1\r\n\
        Host: localhost:8080\r\n\
        User-Agent: curl/7.71.1\r\n\
        Accept: */*\r\n\
        \r\n";

    let result = parse(req).unwrap();

    assert_eq!(result.method(), Method::GET);
    assert_eq!(result.path(), "/hello");
    assert_eq!(
        result.headers().get(Header::Host).map(|v| v.as_slice()),
        Some(b"localhost:8080" as &[u8])
    );
    assert_eq!(
        result.headers().get(Header::UserAgent).map(|v| v.as_slice()),
        Some(b"curl/7.71.1" as &[u8])
    );
    assert_eq!(
        result.headers().get(Header::Accept).map(|v| v.as_slice()),
        Some(b"*/*" as &[u8])
    );
}

#[test]
fn returns_query_parameters() {
    let req = b"GET /hello?hello=world&hello=again HTTP/1.1\r\n\
        Host: localhost:8080\r\n\
        User-Agent: curl/7.71.1\r\n\
        Accept: */*\r\n\
        \r\n";

    let result = parse(req).unwrap();

    let qps = result.query_pairs();
    let mut query_pairs = qps.iter();
    assert_eq!(
        query_pairs.next(),
        Some(&("hello".to_string(), "world".to_string()))
    );
    assert_eq!(
        query_pairs.next(),
        Some(&("hello".to_string(), "again".to_string()))
    );
    assert_eq!(query_pairs.next(), None);

    assert_eq!(result.query_first_value("hello"), Some("world".to_string()));

    assert_eq!(result.query_string(), Some("hello=world&hello=again"));
}

#[test]
fn server_parse_put_with_body_loads_body() {
    let req = b"PUT /hello HTTP/1.1\r\n\
        Host: localhost:8080\r\n\
        User-Agent: curl/7.71.1\r\n\
        Accept: */*\r\n\
        Content-Length: 11\r\n\
        \r\n\
        Hello world";

    let mut result = parse(req).unwrap();

    let body = result.take_body().unwrap();

    assert_eq!(&body, b"Hello world");
}

#[test]
fn mod_parse_put_with_body_loads_body() {
    let req = b"PUT /hello HTTP/1.1\r\n\
        Host: localhost:8080\r\n\
        User-Agent: curl/7.71.1\r\n\
        Accept: */*\r\n\
        Content-Length: 11\r\n\
        \r\n\
        Hello world";

    let mut result = parse(req).unwrap();

    let mut body = result.body().unwrap().unwrap();
    let result: Vec<u8> = body.drain(..).collect();

    assert_eq!(&result, b"Hello world");
}

#[test]
fn server_read_line_limited_returns_line_excl_newline() {
    let mut input = ByteStream::new(b"line 1\r\nline 2\r\nline 3\n".to_vec());

    let result = read_until_limited(&mut input, b'\n', 30).unwrap();
    assert_eq!(result, b"line 1\r".to_vec());

    let result = read_until_limited(&mut input, b'\n', 30).unwrap();
    assert_eq!(result, b"line 2\r");

    let result = read_until_limited(&mut input, b'\n', 30).unwrap();
    assert_eq!(result, b"line 3");
}

#[test]
fn mod_read_line_limited_returns_line_excl_newline() {
    let mut input = ByteStream::new(b"line 1\r\nline 2\r\nline 3\n".to_vec());

    let result = read_until_limited(&mut input, b'\n', 30).unwrap();
    assert_eq!(result, b"line 1\r".to_vec());

    let result = read_until_limited(&mut input, b'\n', 30).unwrap();
    assert_eq!(result, b"line 2\r");

    let result = read_until_limited(&mut input, b'\n', 30).unwrap();
    assert_eq!(result, b"line 3");
}

#[test]
fn read_line_rejects_overlong_line() {
    let mut long = Vec::new();
    long.resize(40, b'x');
    long.push(b'\n');
    let mut input = ByteStream::new(long);

    let result = read_until_limited(&mut input, b'\n', 30);
    assert!(matches!(
        result,
        Err(HttpError::ClientError(400, "Header line too long"))
    ));
}

#[test]
fn more_than_one_hundred_headers_is_a_client_error() {
    let mut req = b"GET /hello HTTP/1.1\r\n".to_vec();
    for i in 0..101 {
        req.extend_from_slice(format!("X-Filler-{}: v\r\n", i).as_bytes());
    }
    req.extend_from_slice(b"\r\n");

    let result = parse(&req);
    assert!(matches!(
        result,
        Err(HttpError::ClientError(400, "Too many headers"))
    ));
}

#[test]
fn exactly_one_hundred_headers_is_accepted() {
    let mut req = b"GET /hello HTTP/1.1\r\n".to_vec();
    for i in 0..100 {
        req.extend_from_slice(format!("X-Filler-{}: v\r\n", i).as_bytes());
    }
    req.extend_from_slice(b"\r\n");

    let result = parse(&req).unwrap();
    assert_eq!(result.headers().len(), 100);
}

#[test]
fn overlong_header_line_is_a_client_error() {
    let mut req = b"GET /hello HTTP/1.1\r\nX-Big: ".to_vec();
    req.resize(req.len() + 1200, b'v');
    req.extend_from_slice(b"\r\n\r\n");

    let result = parse(&req);
    assert!(matches!(
        result,
        Err(HttpError::ClientError(400, "Header line too long"))
    ));
}

#[test]
fn oversized_content_length_is_rejected_before_the_body() {
    let req = b"PUT /hello HTTP/1.1\r\n\
        Content-Length: 20000\r\n\
        \r\n\
        would-be body";

    let result = parse(req);
    assert!(matches!(
        result,
        Err(HttpError::ClientError(400, "Oversized Entity Body"))
    ));
}

#[test]
fn content_length_at_the_cap_is_accepted() {
    let mut req = b"PUT /hello HTTP/1.1\r\nContent-Length: 10000\r\n\r\n".to_vec();
    req.resize(req.len() + 10000, b'b');

    let mut result = parse(&req).unwrap();
    assert_eq!(result.take_body().unwrap().len(), 10000);
}

#[test]
fn unparsable_content_length_is_a_client_error() {
    let req = b"PUT /hello HTTP/1.1\r\n\
        Content-Length: eleven\r\n\
        \r\n";

    let result = parse(req);
    assert!(matches!(
        result,
        Err(HttpError::ClientError(400, "Bad Content-Length"))
    ));
}

#[test]
fn whitespace_in_header_name_is_a_client_error() {
    let req = b"GET /hello HTTP/1.1\r\nBad Name: x\r\n\r\n";

    let result = parse(req);
    assert!(matches!(
        result,
        Err(HttpError::ClientError(400, "Whitespace found in header name"))
    ));
}

#[test]
fn header_line_without_colon_is_a_client_error() {
    // The line must end with a bare line feed: with a CRLF ending the
    // carriage return counts as whitespace in the name and that error comes
    // first.
    let req = b"GET /hello HTTP/1.1\r\nNoColonHere\n\r\n";

    let result = parse(req);
    assert!(matches!(
        result,
        Err(HttpError::ClientError(400, "Bad header value"))
    ));
}

#[test]
fn colonless_line_with_crlf_ending_has_whitespace_in_its_name() {
    let req = b"GET /hello HTTP/1.1\r\nNoColonHere\r\n\r\n";

    let result = parse(req);
    assert!(matches!(
        result,
        Err(HttpError::ClientError(400, "Whitespace found in header name"))
    ));
}

#[test]
fn empty_header_value_is_a_client_error() {
    let req = b"GET /hello HTTP/1.1\r\nHost:    \r\n\r\n";

    let result = parse(req);
    assert!(matches!(
        result,
        Err(HttpError::ClientError(400, "Empty header value"))
    ));
}

#[test]
fn unrecognized_version_is_a_client_error() {
    let req = b"GET /hello HTTPX/9.9\r\n\r\n";

    let result = parse(req);
    assert!(matches!(
        result,
        Err(HttpError::ClientError(400, "Unrecognized HTTP version"))
    ));
}

#[test]
fn missing_version_is_a_client_error() {
    // After the target's space there is no whitespace left to delimit a
    // version token.
    let req = b"GET /hello ";

    let result = parse(&req[..]);
    assert!(matches!(
        result,
        Err(HttpError::ClientError(400, "Http version not specified"))
    ));
}

#[test]
fn request_without_spaces_has_no_path() {
    let req = b"GET/hello";

    let result = parse(&req[..]);
    assert!(matches!(
        result,
        Err(HttpError::ClientError(
            400,
            "Not enough data in first line - no path"
        ))
    ));
}

#[test]
fn unrecognized_method_is_a_server_error() {
    let req = b"BREW /pot HTTP/1.1\r\n\r\n";

    let result = parse(req);
    assert!(matches!(result, Err(HttpError::ServerError(_))));
}

#[test]
fn body_is_truncated_to_the_declared_length() {
    let req = b"PUT /hello HTTP/1.1\r\n\
        Content-Length: 11\r\n\
        \r\n\
        Hello worldTRAILING GARBAGE";

    let mut result = parse(req).unwrap();
    assert_eq!(result.take_body().unwrap(), b"Hello world".to_vec());
}

#[test]
fn no_content_length_means_no_body() {
    let req = b"POST /hello HTTP/1.1\r\nHost: h\r\n\r\nleftovers";

    let mut result = parse(req).unwrap();
    assert_eq!(result.take_body(), None);
}

#[test]
fn header_matching_is_case_insensitive() {
    let req = b"GET /hello HTTP/1.1\r\nHOST: here\r\nuSeR-aGeNt: me\r\n\r\n";

    let result = parse(req).unwrap();
    assert_eq!(
        result.headers().get(Header::Host).map(|v| v.as_slice()),
        Some(b"here" as &[u8])
    );
    assert_eq!(
        result.headers().get(Header::UserAgent).map(|v| v.as_slice()),
        Some(b"me" as &[u8])
    );
}

#[test]
fn unknown_header_names_are_kept_verbatim() {
    let req = b"GET /hello HTTP/1.1\r\nX-Custom: y\r\ncAcHe-CoNtRoL: no-cache\r\n\r\n";

    let result = parse(req).unwrap();
    assert_eq!(
        result
            .headers()
            .get(Header::Other(b"X-Custom".to_vec()))
            .map(|v| v.as_slice()),
        Some(b"y" as &[u8])
    );
    // Cache-Control belongs to the closed set and folds case-insensitively.
    assert_eq!(
        result.headers().get(Header::CacheControl).map(|v| v.as_slice()),
        Some(b"no-cache" as &[u8])
    );
    assert_eq!(result.headers().get(Header::Other(b"Cache-Control".to_vec())), None);
}

#[test]
fn body_completeness_tracks_the_declared_length() {
    // Only five of the declared eleven bytes have arrived.
    let partial = b"PUT /hello HTTP/1.1\r\nContent-Length: 11\r\n\r\nHello";
    let result = parse(partial).unwrap();
    assert!(!result.body_complete());

    let whole = b"PUT /hello HTTP/1.1\r\nContent-Length: 11\r\n\r\nHello world";
    let result = parse(whole).unwrap();
    assert!(result.body_complete());

    let no_length = b"GET /hello HTTP/1.1\r\nHost: h\r\n\r\n";
    let result = parse(no_length).unwrap();
    assert!(result.body_complete());
}

#[test]
fn unresolvable_target_is_an_invalid_path() {
    // An absolute target with a port beyond 16 bits cannot be resolved.
    let req = b"GET http://h:99999999 HTTP/1.1\r\nHost: x\r\n\r\n";

    let result = parse(req);
    assert!(matches!(
        result,
        Err(HttpError::ClientError(400, "Invalid path"))
    ));
}

#[test]
fn parse_content_length_accepts_plus_and_rejects_overflow() {
    assert_eq!(
        smtr::parser::parse_content_length(&b"+123".to_vec()),
        Some(123)
    );
    assert_eq!(smtr::parser::parse_content_length(&b"0".to_vec()), Some(0));
    assert_eq!(
        smtr::parser::parse_content_length(&b"18446744073709551615".to_vec()),
        Some(u64::MAX)
    );
    assert_eq!(
        smtr::parser::parse_content_length(&b"18446744073709551616".to_vec()),
        None
    );
    assert_eq!(smtr::parser::parse_content_length(&b"".to_vec()), None);
    assert_eq!(smtr::parser::parse_content_length(&b"+".to_vec()), None);
    assert_eq!(smtr::parser::parse_content_length(&b"-1".to_vec()), None);
    assert_eq!(smtr::parser::parse_content_length(&b"1 2".to_vec()), None);
}
