//! Tests of the per-connection server logic: request-line parsing,
//! percent-decoding, path resolution, and the serving decision.
use chablo::errors::ChabloError;
use chablo::server::{
    build_response, choose_response, decode_percent_encoded_string, parse_request_path,
    resolve_path, route_request,
};

#[test]
fn test_parse_request_path_get_root() {
    let request = "GET / HTTP/1.1\r\nHost: localhost\r\n\r\n";

    assert_eq!(parse_request_path(request), "/");
}

#[test]
fn test_parse_request_path_named_file() {
    let request = "GET /about.html HTTP/1.1\r\n";

    assert_eq!(parse_request_path(request), "/about.html");
}

#[test]
fn test_parse_request_path_defaults_to_root() {
    assert_eq!(parse_request_path(""), "/");
    assert_eq!(parse_request_path("GET\r\n"), "/");
}

#[test]
fn test_decode_plain_path_unchanged() {
    let result = decode_percent_encoded_string("/index.html").unwrap();

    assert_eq!(result, "/index.html");
}

#[test]
fn test_decode_space_escape() {
    let result = decode_percent_encoded_string("/a%20b").unwrap();

    assert_eq!(result, "/a b");
}

#[test]
fn test_decode_slash_escape() {
    let result = decode_percent_encoded_string("/a%2Fb").unwrap();

    assert_eq!(result, "/a/b");
}

#[test]
fn test_decode_multibyte_escape() {
    let result = decode_percent_encoded_string("%E3%81%82").unwrap();

    assert_eq!(result, "あ");
}

#[test]
fn test_decode_invalid_byte_is_replaced() {
    let result = decode_percent_encoded_string("%FF").unwrap();

    assert_eq!(result, "\u{FFFD}");
}

#[test]
fn test_decode_short_escape_is_error() {
    assert_eq!(decode_percent_encoded_string("%4"), Err(ChabloError::ParseIntError));
    assert_eq!(decode_percent_encoded_string("%"), Err(ChabloError::ParseIntError));
}

#[test]
fn test_decode_non_hex_escape_is_error() {
    assert_eq!(decode_percent_encoded_string("%zz"), Err(ChabloError::ParseIntError));
    assert_eq!(decode_percent_encoded_string("/a%g0"), Err(ChabloError::ParseIntError));
}

#[test]
fn test_resolve_root_is_index() {
    assert_eq!(resolve_path("/"), "./public/index.html");
}

#[test]
fn test_resolve_named_file() {
    assert_eq!(resolve_path("/about.html"), "./public/about.html");
}

#[test]
fn test_route_request_root() {
    let request = "GET / HTTP/1.1\r\nHost: localhost\r\n\r\n";

    assert_eq!(route_request(request).unwrap(), "./public/index.html");
}

#[test]
fn test_route_request_malformed_escape_is_error() {
    let request = "GET /bad%4 HTTP/1.1\r\n";

    assert_eq!(route_request(request), Err(ChabloError::ParseIntError));
}

#[test]
fn test_choose_response_existing_html() {
    let (status, file) = choose_response(true, "./public/index.html");

    assert_eq!(status, "HTTP/1.1 200 OK\r\n\r\n");
    assert_eq!(file, "./public/index.html");
}

#[test]
fn test_choose_response_missing_file() {
    let (status, file) = choose_response(false, "./public/nope.html");

    assert_eq!(status, "HTTP/1.1 404 NOT FOUND\r\n\r\n");
    assert_eq!(file, "./public/404.html");
}

#[test]
fn test_choose_response_wrong_extension() {
    let (status, file) = choose_response(true, "./public/photo.png");

    assert_eq!(status, "HTTP/1.1 404 NOT FOUND\r\n\r\n");
    assert_eq!(file, "./public/404.html");
}

#[test]
fn test_build_response_concatenates() {
    let response = build_response("HTTP/1.1 200 OK\r\n\r\n", "<p>hi</p>");

    assert_eq!(response, "HTTP/1.1 200 OK\r\n\r\n<p>hi</p>");
}
