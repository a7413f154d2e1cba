//! Tests of the header-line parser and of assembling a response record from
//! one message.

use ssdp_client::{decode_datagram, decode_response, parse_headers, Error, SearchTarget};

#[test]
fn header_parser_extracts_all() {
    let text = "HTTP/1.1 200 OK\r\nLOCATION: http://x\r\nST: ssdp:all\r\nUSN: u\r\nSERVER: s\r\n\r\n";
    let pairs = parse_headers(text).unwrap();
    assert_eq!(
        pairs,
        vec![
            ("LOCATION".to_string(), "http://x".to_string()),
            ("ST".to_string(), "ssdp:all".to_string()),
            ("USN".to_string(), "u".to_string()),
            ("SERVER".to_string(), "s".to_string()),
        ]
    );
}

#[test]
fn header_parser_reports_http_error() {
    let text = "HTTP/1.1 404 Not Found\r\nLOCATION: http://x\r\n\r\n";
    assert_eq!(parse_headers(text).unwrap_err(), Error::HTTPError(404));
}

#[test]
fn header_parser_rejects_empty_response() {
    assert_eq!(
        parse_headers("").unwrap_err(),
        Error::InvalidHTTP("http response is empty".to_string())
    );
}

#[test]
fn header_parser_rejects_non_numeric_status() {
    assert_eq!(
        parse_headers("HTTP/1.1 OK\r\nST: ssdp:all\r\n\r\n").unwrap_err(),
        Error::InvalidHTTP("status code is not a number".to_string())
    );
    // An overlong status code is not a u32 either.
    assert_eq!(
        parse_headers("HTTP/1.1 99999999999\r\n\r\n").unwrap_err(),
        Error::InvalidHTTP("status code is not a number".to_string())
    );
}

#[test]
fn header_parser_drops_lines_without_colon() {
    let text = "HTTP/1.1 200 OK\r\nnoise\r\nST: ssdp:all\r\nmore noise\r\n\r\n";
    let pairs = parse_headers(text).unwrap();
    assert_eq!(pairs, vec![("ST".to_string(), "ssdp:all".to_string())]);
}

#[test]
fn header_parser_splits_on_first_colon_and_trims() {
    let text = "HTTP/1.1 200 OK\r\nLOCATION:   http://host:80/desc.xml\t\r\n\r\n";
    let pairs = parse_headers(text).unwrap();
    assert_eq!(
        pairs,
        vec![("LOCATION".to_string(), "http://host:80/desc.xml".to_string())]
    );
}

#[test]
fn decode_full_response() {
    let text = "HTTP/1.1 200 OK\r\nLOCATION: http://x\r\nST: ssdp:all\r\nUSN: u\r\nSERVER: s\r\nX-User-Agent: redsonic\r\n\r\n";
    let resp = decode_response(text).unwrap();
    assert_eq!(resp.location(), "http://x");
    assert_eq!(resp.search_target(), &SearchTarget::All);
    assert_eq!(resp.usn(), "u");
    assert_eq!(resp.server(), "s");
    assert_eq!(resp.extra_header("x-user-agent"), Some("redsonic"));
    assert_eq!(resp.extra_header("X-USER-AGENT"), Some("redsonic"));
    assert_eq!(resp.extra_header("absent"), None);
}

#[test]
fn decode_headers_case_insensitive_last_wins() {
    let text = "HTTP/1.1 200 OK\r\nlocation: http://first\r\nLoCaTiOn: http://second\r\nst: upnp:rootdevice\r\nUsn: u\r\nserver: s\r\n\r\n";
    let resp = decode_response(text).unwrap();
    assert_eq!(resp.location(), "http://second");
    assert_eq!(resp.search_target(), &SearchTarget::RootDevice);
}

#[test]
fn decode_missing_location() {
    let text = "HTTP/1.1 200 OK\r\nST: ssdp:all\r\nUSN: u\r\nSERVER: s\r\n\r\n";
    assert_eq!(
        decode_response(text).unwrap_err(),
        Error::MissingHeader("location".to_string())
    );
}

#[test]
fn decode_missing_st() {
    let text = "HTTP/1.1 200 OK\r\nLOCATION: http://x\r\nUSN: u\r\nSERVER: s\r\n\r\n";
    assert_eq!(
        decode_response(text).unwrap_err(),
        Error::MissingHeader("st".to_string())
    );
}

#[test]
fn decode_missing_usn() {
    let text = "HTTP/1.1 200 OK\r\nLOCATION: http://x\r\nST: ssdp:all\r\nSERVER: s\r\n\r\n";
    assert_eq!(
        decode_response(text).unwrap_err(),
        Error::MissingHeader("urn".to_string())
    );
}

#[test]
fn decode_missing_server() {
    let text = "HTTP/1.1 200 OK\r\nLOCATION: http://x\r\nST: ssdp:all\r\nUSN: u\r\n\r\n";
    assert_eq!(
        decode_response(text).unwrap_err(),
        Error::MissingHeader("server".to_string())
    );
}

#[test]
fn decode_bad_search_target() {
    let text = "HTTP/1.1 200 OK\r\nLOCATION: http://x\r\nST: not-a-target\r\nUSN: u\r\nSERVER: s\r\n\r\n";
    let err = decode_response(text).unwrap_err();
    assert!(matches!(err, Error::ParseSearchTargetError(_)));
}

#[test]
fn decode_invalid_utf8_datagram() {
    let bytes: Vec<u8> = vec![0xff, 0xfe, 0xfd];
    assert_eq!(decode_datagram(bytes.as_slice()).unwrap_err(), Error::Utf8);
}

#[test]
fn error_messages_exact() {
    assert_eq!(Error::IO("boom".to_string()).message(), "io error: boom");
    assert_eq!(Error::Utf8.message(), "utf8 decoding error");
    assert_eq!(
        Error::MissingHeader("location".to_string()).message(),
        "missing header: location"
    );
    assert_eq!(
        Error::InvalidHeader("TIMEOUT".to_string()).message(),
        "invalid header: TIMEOUT"
    );
    assert_eq!(
        Error::InvalidHTTP("http response is empty".to_string()).message(),
        "failed to parse http response: http response is empty"
    );
    assert_eq!(
        Error::HTTPError(503).message(),
        "control point responded with non-zero exit code: 503"
    );
}
