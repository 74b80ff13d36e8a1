use httpengine::method::is_method;
use httpengine::request::{parse_body, Request, RequestError};

#[test]
fn it_works() {
    let result = 2 + 2;
    assert_eq!(result, 4);
}

#[test]
fn parse_well_formed_request() {
    let raw = "GET /users/42 HTTP/1.1\r\nHost: example.com\r\nAccept: text/plain\r\n\r\nhello";
    let req = Request::parse(raw).unwrap();
    assert_eq!(req.method(), "GET");
    assert_eq!(req.uri(), "/users/42");
    assert_eq!(req.protocol(), "HTTP/1.1");
    assert_eq!(req.body(), "hello");
    let headers = req.headers();
    assert_eq!(headers.len(), 2);
    assert!(headers.contains(&("Host".to_string(), "example.com".to_string())));
    assert!(headers.contains(&("Accept".to_string(), "text/plain".to_string())));
}

#[test]
fn parse_trims_trailing_nul_padding() {
    let raw = "GET / HTTP/1.1\r\nHost: a\r\n\r\nbody\0\0\0\0";
    let req = Request::parse(raw).unwrap();
    assert_eq!(req.method(), "GET");
    assert_eq!(req.body(), "body");
}

#[test]
fn parse_rejects_four_token_request_line() {
    let raw = "GET /users HTTP/1.1 extra\r\nHost: a\r\n\r\n";
    let err = Request::parse(raw).unwrap_err();
    assert_eq!(err, RequestError::MalformRequest);
}

#[test]
fn parse_rejects_one_token_request_line() {
    let raw = "PUT\r\n\r\n";
    let err = Request::parse(raw).unwrap_err();
    assert_eq!(err, RequestError::MalformRequest);
}

#[test]
fn parse_rejects_text_without_request_line() {
    let raw = "Host: example.com\r\n\r\n";
    let err = Request::parse(raw).unwrap_err();
    assert_eq!(err, RequestError::MalformRequest);
}

#[test]
fn parse_last_request_line_wins() {
    let raw = "GET /a HTTP/1.1\r\nPOST /b HTTP/1.0\r\n\r\n";
    let req = Request::parse(raw).unwrap();
    assert_eq!(req.method(), "POST");
    assert_eq!(req.uri(), "/b");
    assert_eq!(req.protocol(), "HTTP/1.0");
}

#[test]
fn parse_brace_line_becomes_body() {
    let raw = "POST /users HTTP/1.1\r\n{\"name\":\"ada\"}\r\n\r\n";
    let req = Request::parse(raw).unwrap();
    assert_eq!(req.method(), "POST");
    assert_eq!(req.body(), "{\"name\":\"ada\"}");
}

#[test]
fn parse_body_splits_on_blank_line() {
    let (head, body) = parse_body("GET / HTTP/1.1\r\nHost: a\r\n\r\npayload".to_string());
    assert_eq!(head, "GET / HTTP/1.1\r\nHost: a");
    assert_eq!(body, "payload");
}

#[test]
fn parse_body_without_boundary_returns_whole() {
    let (head, body) = parse_body("no boundary here".to_string());
    assert_eq!(head, "no boundary here");
    assert_eq!(body, "no boundary here");
}

#[test]
fn header_value_splits_on_first_separator() {
    let raw = "GET / HTTP/1.1\r\nVia: a: b\r\n\r\n";
    let req = Request::parse(raw).unwrap();
    assert!(req.headers().contains(&("Via".to_string(), "a: b".to_string())));
}

#[test]
fn is_method_recognizes_the_six_methods() {
    for m in ["GET", "POST", "PUT", "PATCH", "DELETE", "OPTIONS"] {
        assert!(is_method(format!("{} / HTTP/1.1", m)));
        assert!(is_method(m.to_string()));
    }
    assert!(!is_method("Host: example.com".to_string()));
    assert!(!is_method("".to_string()));
}

#[test]
fn is_method_requires_exact_first_token() {
    assert!(!is_method("xGETy".to_string()));
    assert!(!is_method("Allow: GET, POST".to_string()));
    assert!(!is_method("GETX / HTTP/1.1".to_string()));
    assert!(!is_method(" GET / HTTP/1.1".to_string()));
}

#[test]
fn header_mentioning_a_method_stays_a_header() {
    let raw = "GET / HTTP/1.1\r\nAllow: GET, POST\r\n\r\n";
    let req = Request::parse(raw).unwrap();
    assert_eq!(req.method(), "GET");
    assert_eq!(req.uri(), "/");
    assert!(req.headers().contains(&("Allow".to_string(), "GET, POST".to_string())));
}

#[test]
fn parse_rejects_empty_request_line_tokens() {
    let raw = "GET  HTTP/1.1\r\n\r\n";
    assert_eq!(Request::parse(raw).unwrap_err(), RequestError::MalformRequest);
    let raw2 = "GET / \r\n\r\n";
    assert_eq!(Request::parse(raw2).unwrap_err(), RequestError::MalformRequest);
}

#[test]
fn body_starts_after_the_first_boundary() {
    let (head, body) = parse_body("A\r\n\r\nB\r\n\r\nC".to_string());
    assert_eq!(head, "A");
    assert_eq!(body, "B\r\n\r\nC");
    let req = Request::parse("GET / HTTP/1.1\r\n\r\nB\r\n\r\nC").unwrap();
    assert_eq!(req.body(), "B\r\n\r\nC");
}

#[test]
fn request_new_and_accessors() {
    let req = Request::new(
        "GET".to_string(),
        "/users/7".to_string(),
        "HTTP/1.1".to_string(),
        vec![("Host".to_string(), "h".to_string())],
        "".to_string(),
    );
    assert_eq!(req.method(), "GET");
    assert_eq!(req.uri(), "/users/7");
    assert_eq!(req.protocol(), "HTTP/1.1");
    assert_eq!(req.body(), "");
    assert_eq!(req.headers().len(), 1);
}

fn request_with_uri(uri: &str) -> Request {
    Request::new(
        "GET".to_string(),
        uri.to_string(),
        "HTTP/1.1".to_string(),
        Vec::new(),
        "".to_string(),
    )
}

#[test]
fn get_param_finds_differing_segment() {
    let req = request_with_uri("/users/42");
    assert_eq!(req.get_param("/users/{id}"), "42");
    assert_eq!(req.get_param("/users/42"), "");
    assert_eq!(req.get_param("/users"), "");
}

#[test]
fn param_counts_from_the_end() {
    let req = request_with_uri("/api/users/42");
    assert_eq!(req.param(0), "42");
    assert_eq!(req.param(1), "users");
    let short = request_with_uri("/x");
    assert_eq!(short.param(7), "x");
}

#[test]
fn get_int32_parses_numeric_segment() {
    let req = request_with_uri("/users/42");
    assert_eq!(req.get_int32(0), Ok(42));
    assert_eq!(req.get_int32(9), Err(RequestError::IndexOutOfRange));
}

#[test]
fn get_int32_rejects_non_numeric_segment() {
    let req = request_with_uri("/users/abc");
    assert_eq!(req.get_int32(0), Err(RequestError::InvalidId));
}

#[test]
fn get_int32_rejects_out_of_range_value() {
    let req = request_with_uri("/users/2147483648");
    assert_eq!(req.get_int32(0), Err(RequestError::InvalidId));
    assert_eq!(req.get_int64(0), Ok(2147483648));
}

#[test]
fn get_int64_parses_signs_and_bounds() {
    assert_eq!(request_with_uri("/users/-7").get_int64(0), Ok(-7));
    assert_eq!(request_with_uri("/users/+7").get_int64(0), Ok(7));
    assert_eq!(
        request_with_uri("/users/9223372036854775807").get_int64(0),
        Ok(9223372036854775807)
    );
    assert_eq!(
        request_with_uri("/users/-9223372036854775808").get_int64(0),
        Ok(-9223372036854775808)
    );
    assert_eq!(
        request_with_uri("/users/9223372036854775808").get_int64(0),
        Err(RequestError::InvalidId)
    );
    assert_eq!(request_with_uri("/users/").get_int64(0), Err(RequestError::InvalidId));
}

#[test]
fn request_error_messages_are_nonempty() {
    for e in [
        RequestError::ReadStream,
        RequestError::InvalidId,
        RequestError::IndexOutOfRange,
        RequestError::MalformRequest,
    ] {
        assert!(!e.message().is_empty());
    }
}
