use http_core::{HTTPResponse, Status};

#[test]
fn a_response_without_headers() {
    let response = HTTPResponse::new(Status::OK, "hi".to_string());
    assert_eq!(
        response.serialize(),
        b"HTTP/1.1 200 OK\r\nContent-Length: 2\r\n\r\nhi".to_vec()
    );
}

#[test]
fn an_empty_body_has_length_zero() {
    let response = HTTPResponse::new(Status::OK, String::new());
    assert_eq!(
        response.serialize(),
        b"HTTP/1.1 200 OK\r\nContent-Length: 0\r\n\r\n".to_vec()
    );
}

#[test]
fn the_three_status_lines() {
    assert_eq!(Status::OK.to_str(), "200 OK");
    assert_eq!(Status::NotFound.to_str(), "404 NOT FOUND");
    assert_eq!(Status::SwitchingProtocols.to_str(), "101 Switching Protocols");
    assert_eq!(Status::OK.code(), 200);
    assert_eq!(Status::NotFound.code(), 404);
    assert_eq!(Status::SwitchingProtocols.code(), 101);
    assert_eq!(
        HTTPResponse::new(Status::NotFound, "404".to_string()).serialize(),
        b"HTTP/1.1 404 NOT FOUND\r\nContent-Length: 3\r\n\r\n404".to_vec()
    );
    assert_eq!(
        HTTPResponse::new(Status::SwitchingProtocols, String::new()).serialize(),
        b"HTTP/1.1 101 Switching Protocols\r\nContent-Length: 0\r\n\r\n".to_vec()
    );
}

#[test]
fn headers_come_out_in_the_order_they_were_added() {
    let mut response = HTTPResponse::new(Status::OK, "{}".to_string());
    response.add_header("Content-Type".to_string(), "application/json".to_string());
    response.add_header("X-B".to_string(), "2".to_string());
    response.add_header("X-A".to_string(), "1".to_string());
    assert_eq!(
        response.serialize(),
        b"HTTP/1.1 200 OK\r\nContent-Length: 2\r\nContent-Type: application/json\r\nX-B: 2\r\nX-A: 1\r\n\r\n{}"
            .to_vec()
    );
}

#[test]
fn the_first_header_of_a_name_stays() {
    let mut response = HTTPResponse::new(Status::OK, String::new());
    response.add_header("X-A".to_string(), "first".to_string());
    response.add_header("X-A".to_string(), "second".to_string());
    assert_eq!(response.headers().len(), 1);
    assert_eq!(response.headers().get(b"X-A"), Some(&b"first".to_vec()));
    assert_eq!(
        response.serialize(),
        b"HTTP/1.1 200 OK\r\nContent-Length: 0\r\nX-A: first\r\n\r\n".to_vec()
    );
}

#[test]
fn header_names_keep_their_case_and_differ_by_it() {
    let mut response = HTTPResponse::new(Status::OK, String::new());
    response.add_header("X-A".to_string(), "1".to_string());
    response.add_header("x-a".to_string(), "2".to_string());
    assert_eq!(
        response.serialize(),
        b"HTTP/1.1 200 OK\r\nContent-Length: 0\r\nX-A: 1\r\nx-a: 2\r\n\r\n".to_vec()
    );
}

#[test]
fn the_length_header_cannot_be_set() {
    let mut response = HTTPResponse::new(Status::OK, "hello".to_string());
    response.add_header("Content-Length".to_string(), "999".to_string());
    response.add_header("content-length".to_string(), "0".to_string());
    response.add_header("CONTENT-LENGTH".to_string(), "1".to_string());
    assert_eq!(response.headers().len(), 0);
    assert_eq!(
        response.serialize(),
        b"HTTP/1.1 200 OK\r\nContent-Length: 5\r\n\r\nhello".to_vec()
    );
}

#[test]
fn the_length_counts_bytes() {
    let response = HTTPResponse::new(Status::OK, "h\u{e9}".to_string());
    assert_eq!(
        response.serialize(),
        b"HTTP/1.1 200 OK\r\nContent-Length: 3\r\n\r\nh\xC3\xA9".to_vec()
    );
    let long = "x".repeat(1234);
    let bytes = HTTPResponse::new(Status::OK, long.clone()).serialize();
    let mut expected = b"HTTP/1.1 200 OK\r\nContent-Length: 1234\r\n\r\n".to_vec();
    expected.extend_from_slice(long.as_bytes());
    assert_eq!(bytes, expected);
}

#[test]
fn a_response_from_bytes() {
    let response = HTTPResponse::from_bytes(Status::OK, vec![0, 255, 10]);
    assert_eq!(response.status(), Status::OK);
    assert_eq!(response.body(), &vec![0, 255, 10]);
    let mut expected = b"HTTP/1.1 200 OK\r\nContent-Length: 3\r\n\r\n".to_vec();
    expected.extend_from_slice(&[0, 255, 10]);
    assert_eq!(response.serialize(), expected);
}
