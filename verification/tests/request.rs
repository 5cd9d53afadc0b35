use hello_http::request::find_header_end;
use hello_http::request::{Method, ParseError, Request};

#[test]
fn parse_simple_get() {
    let req = Request::parse_block(b"GET /foo HTTP/1.1\r\nHost: x\r\n\r\n").unwrap();
    match &req.method {
        Method::Get(target) => assert_eq!(target, "/foo"),
        other => panic!("expected a GET, got {:?}", other),
    }
    assert_eq!(req.headers.len(), 1);
    assert_eq!(req.header_value("Host").unwrap().as_str(), "x");
    assert!(req.warnings.is_empty());
}

#[test]
fn parse_decodes_the_target() {
    let req = Request::parse("GET /a%20b%2Fc HTTP/1.1").unwrap();
    match &req.method {
        Method::Get(target) => assert_eq!(target, "/a b/c"),
        other => panic!("expected a GET, got {:?}", other),
    }
}

#[test]
fn parse_method_without_regard_to_case() {
    let req = Request::parse("get / HTTP/1.1").unwrap();
    assert!(matches!(req.method, Method::Get(_)));
    let req = Request::parse("PuT /x HTTP/1.1").unwrap();
    match &req.method {
        Method::Put(target) => assert_eq!(target, "/x"),
        other => panic!("expected a PUT, got {:?}", other),
    }
}

#[test]
fn parse_unknown_version_is_one_warning() {
    let req = Request::parse("GET / HTTP/1.0\r\nHost: x").unwrap();
    assert_eq!(req.warnings.len(), 1);
    assert_eq!(req.warnings[0].as_str(), "Unknown HTTP version HTTP/1.0");
    assert_eq!(req.header_value("Host").unwrap().as_str(), "x");
}

#[test]
fn parse_line_without_colon_is_one_warning() {
    let req = Request::parse("GET / HTTP/1.1\r\nBadLine\r\nHost: x").unwrap();
    assert_eq!(req.headers.len(), 1);
    assert_eq!(req.header_value("Host").unwrap().as_str(), "x");
    assert!(req.header_value("BadLine").is_none());
    assert_eq!(req.warnings.len(), 1);
    assert_eq!(
        req.warnings[0].as_str(),
        "Invalid header line, missing colon separator in: 'BadLine'"
    );
}

#[test]
fn parse_trims_header_names_and_values() {
    let req = Request::parse("GET / HTTP/1.1\r\n  Host  :   some value  ").unwrap();
    assert_eq!(req.header_value("Host").unwrap().as_str(), "some value");
}

#[test]
fn parse_header_value_keeps_its_colons() {
    let req = Request::parse("GET / HTTP/1.1\r\nReferer: http://a/b").unwrap();
    assert_eq!(req.header_value("Referer").unwrap().as_str(), "http://a/b");
}

#[test]
fn parse_last_header_wins() {
    let req = Request::parse("GET / HTTP/1.1\r\nHost: a\r\nHost: b").unwrap();
    assert_eq!(req.header_value("Host").unwrap().as_str(), "b");
}

#[test]
fn parse_empty_block_is_missing_request_line() {
    assert_eq!(Request::parse("").unwrap_err(), ParseError::MissingRequestLine);
}

#[test]
fn parse_short_request_line_is_missing_fields() {
    assert_eq!(Request::parse("GET /").unwrap_err(), ParseError::MissingFields);
    assert_eq!(
        Request::parse("GET / HTTP/1.1 extra").unwrap_err(),
        ParseError::MissingFields
    );
}

#[test]
fn parse_undecodable_target_is_rejected() {
    assert_eq!(
        Request::parse("GET /%FF HTTP/1.1").unwrap_err(),
        ParseError::InvalidTargetEncoding
    );
}

#[test]
fn parse_unknown_method_is_rejected() {
    assert_eq!(
        Request::parse("BREW / HTTP/1.1").unwrap_err(),
        ParseError::UnknownMethod
    );
}

#[test]
fn header_end_is_found_with_either_terminator() {
    assert_eq!(find_header_end(b"GET / HTTP/1.1\r\n\r\nbody"), Some((14, 4)));
    assert_eq!(find_header_end(b"GET / HTTP/1.1\n\nbody"), Some((14, 2)));
    assert_eq!(find_header_end(b"GET / HTTP/1.1\r\nHost: x"), None);
}

#[test]
fn header_end_prefers_the_crlf_terminator() {
    // a \r\n\r\n anywhere wins over an earlier \n\n
    assert_eq!(find_header_end(b"a\n\nb\r\n\r\n"), Some((4, 4)));
}

#[test]
fn parse_block_without_terminator_is_rejected() {
    assert_eq!(
        Request::parse_block(b"GET / HTTP/1.1\r\nHost: x").unwrap_err(),
        ParseError::TerminatorNotFound
    );
}

#[test]
fn parse_block_leaves_the_body_out() {
    let req = Request::parse_block(b"PUT /up HTTP/1.1\r\nHost: x\r\n\r\nbody: not-a-header").unwrap();
    assert_eq!(req.headers.len(), 1);
    assert!(req.header_value("body").is_none());
    assert!(req.warnings.is_empty());
}
