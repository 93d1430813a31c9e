//! RTSP requests and responses.

use openairplay1::rtsp::{
    read_request, Headers, ReadOutcome, Request, RequestError, Response, MAX_BODY, MAX_HEADERS,
};

/// What comes of some bytes after which the connection ends.
fn parse(input: &[u8]) -> Result<Option<Request>, RequestError> {
    match read_request(input, true) {
        ReadOutcome::Request { request, .. } => Ok(Some(request)),
        ReadOutcome::Closed => Ok(None),
        ReadOutcome::Invalid(e) => Err(e),
        ReadOutcome::Incomplete => panic!("nothing more will arrive"),
    }
}

#[test]
fn parses_request_with_headers_and_body() {
    let req = parse(
        b"ANNOUNCE rtsp://192.168.1.2/1234 RTSP/1.0\r\n\
          CSeq: 2\r\n\
          Content-Type: application/sdp\r\n\
          Content-Length: 5\r\n\
          \r\n\
          hello",
    )
    .unwrap()
    .unwrap();
    assert_eq!(req.method, "ANNOUNCE");
    assert_eq!(req.uri, "rtsp://192.168.1.2/1234");
    assert_eq!(req.headers.get("cseq"), Some("2"));
    assert_eq!(req.headers.get("CONTENT-TYPE"), Some("application/sdp"));
    assert_eq!(req.body, b"hello");
}

#[test]
fn parses_two_requests_on_one_connection() {
    let input = b"OPTIONS * RTSP/1.0\r\nCSeq: 1\r\n\r\nOPTIONS * RTSP/1.0\r\nCSeq: 2\r\n\r\n";
    let (first, consumed) = match read_request(input, true) {
        ReadOutcome::Request { request, consumed } => (request, consumed),
        other => panic!("{other:?}"),
    };
    let rest = &input[consumed..];
    let (second, consumed) = match read_request(rest, true) {
        ReadOutcome::Request { request, consumed } => (request, consumed),
        other => panic!("{other:?}"),
    };
    assert_eq!(first.headers.get("CSeq"), Some("1"));
    assert_eq!(second.headers.get("CSeq"), Some("2"));
    assert!(parse(&rest[consumed..]).unwrap().is_none());
}

#[test]
fn eof_returns_none() {
    assert!(parse(b"").unwrap().is_none());
}

#[test]
fn rejects_non_rtsp() {
    assert!(parse(b"GET / HTTP/1.1\r\n\r\n").is_err());
    assert!(parse(b"garbage\r\n\r\n").is_err());
}

#[test]
fn serializes_response() {
    let out = Response::ok()
        .header("CSeq", "7")
        .header("Public", "OPTIONS")
        .to_bytes();
    assert_eq!(
        out,
        b"RTSP/1.0 200 OK\r\nCSeq: 7\r\nPublic: OPTIONS\r\n\r\n"
    );
}

#[test]
fn each_fault_has_its_error() {
    let bad = |input: &[u8]| parse(input).err();
    assert_eq!(bad(b"GET / HTTP/1.1\r\n\r\n"), Some(RequestError::NotRtsp));
    assert_eq!(bad(b"garbage\r\n\r\n"), Some(RequestError::MalformedRequestLine));
    assert_eq!(bad(b"A B\r\n\r\n"), Some(RequestError::MalformedRequestLine));
    assert_eq!(bad(b" * RTSP/1.0\r\n\r\n"), Some(RequestError::MalformedRequestLine));
    assert_eq!(bad(b"A * RTSP/1.0\r\n"), Some(RequestError::EofInHeaders));
    assert_eq!(bad(b"A * RTSP/1.0\r\nx\r\n\r\n"), Some(RequestError::MalformedHeader));
    assert_eq!(
        bad(b"A * RTSP/1.0\r\nContent-Length: x\r\n\r\n"),
        Some(RequestError::BadContentLength)
    );
    assert_eq!(
        bad(b"A * RTSP/1.0\r\nContent-Length: 3\r\n\r\nab"),
        Some(RequestError::TruncatedBody)
    );
    assert_eq!(bad(b"A \xff RTSP/1.0\r\n\r\n"), Some(RequestError::InvalidUtf8));
    let large = format!("A * RTSP/1.0\r\nContent-Length: {}\r\n\r\n", MAX_BODY + 1);
    assert_eq!(bad(large.as_bytes()), Some(RequestError::BodyTooLarge));
}

#[test]
fn headers_are_capped() {
    let with = |n: usize| {
        let mut text = String::from("A * RTSP/1.0\r\n");
        for i in 0..n {
            text.push_str(&format!("H{i}: v\r\n"));
        }
        text.push_str("\r\n");
        parse(text.as_bytes())
    };
    assert_eq!(with(MAX_HEADERS).unwrap().unwrap().headers.len(), MAX_HEADERS);
    assert_eq!(with(MAX_HEADERS + 1).err(), Some(RequestError::TooManyHeaders));
}

#[test]
fn a_request_waits_for_all_of_itself() {
    let whole = b"A * RTSP/1.0\r\nContent-Length: 2\r\n\r\nhi";
    for n in 0..whole.len() {
        assert!(matches!(
            read_request(&whole[..n], false),
            ReadOutcome::Incomplete
        ));
    }
    // What follows a request does not change it.
    let mut more = whole.to_vec();
    more.extend_from_slice(b"next");
    for input in [&whole[..], &more[..]] {
        match read_request(input, false) {
            ReadOutcome::Request { request, consumed } => {
                assert_eq!(request.body, b"hi");
                assert_eq!(consumed, whole.len());
            }
            other => panic!("{other:?}"),
        }
    }
}

#[test]
fn an_empty_line_ends_the_connection() {
    assert!(parse(b"\r\nA * RTSP/1.0\r\n\r\n").unwrap().is_none());
}

#[test]
fn values_are_trimmed_and_the_first_of_a_name_counts() {
    let req = parse(b"A * RTSP/1.0\nX :  1 \nx: 2\nY: a:b\n\n").unwrap().unwrap();
    assert_eq!(req.headers.get("X"), Some("1"));
    assert_eq!(req.headers.get("y"), Some("a:b"));
    assert_eq!(req.headers.get("z"), None);
    assert_eq!(req.headers.iter(), vec![("X", "1"), ("x", "2"), ("Y", "a:b")]);
    let mut headers = Headers::default();
    headers.push("N".into(), "v".into());
    assert_eq!(headers.get("n"), Some("v"));
}

#[test]
fn a_response_knows_its_status_and_headers() {
    let response = Response::new(453, "Not Enough Bandwidth").header("A", "b");
    assert_eq!(response.status(), 453);
    assert_eq!(response.get("a"), Some("b".to_string()));
    assert_eq!(response.get("c"), None);
    assert_eq!(
        response.to_bytes(),
        b"RTSP/1.0 453 Not Enough Bandwidth\r\nA: b\r\n\r\n"
    );
}
