use web_server::request::{is_end_of_headers, read_request, MalformedRequest, RequestReader};

#[test]
fn path_is_the_second_token() {
    assert_eq!(read_request(b"GET / HTTP/1.1\r\n"), Ok("/".to_string()));
    assert_eq!(read_request(b"GET /about HTTP/1.1\r\n"), Ok("/about".to_string()));
    assert_eq!(read_request(b"GET /a/b?c=d#e HTTP/1.0\n"), Ok("/a/b?c=d#e".to_string()));
}

#[test]
fn method_and_version_are_ignored() {
    assert_eq!(read_request(b"POST / HTTP/1.1\r\n"), Ok("/".to_string()));
    assert_eq!(read_request(b"get / whatever\r\n"), Ok("/".to_string()));
    assert_eq!(read_request("\u{e9} /x \u{e9}\r\n".as_bytes()), Ok("/x".to_string()));
    assert_eq!(read_request(b"GET /x HTTP/1.1 and more tokens\r\n"), Ok("/x".to_string()));
}

#[test]
fn path_is_taken_as_it_is_written() {
    assert_eq!(read_request(b"GET /About/ HTTP/1.1\r\n"), Ok("/About/".to_string()));
    assert_eq!(read_request(b"GET about HTTP/1.1\r\n"), Ok("about".to_string()));
    assert_eq!(read_request("GET /caf\u{e9} HTTP/1.1\r\n".as_bytes()), Ok("/caf\u{e9}".to_string()));
}

#[test]
fn line_without_a_second_token_is_malformed() {
    assert_eq!(read_request(b""), Err(MalformedRequest));
    assert_eq!(read_request(b"GET"), Err(MalformedRequest));
    assert_eq!(read_request(b"GET\r\n"), Err(MalformedRequest));
    assert_eq!(read_request(b"\r\n"), Err(MalformedRequest));
    assert_eq!(read_request(b"GET\r\nHost: example.org\r\n"), Err(MalformedRequest));
}

#[test]
fn single_spaces_separate_the_tokens() {
    assert_eq!(read_request(b"GET  / HTTP/1.1\r\n"), Ok("".to_string()));
    assert_eq!(read_request(b" / HTTP/1.1\r\n"), Ok("/".to_string()));
    assert_eq!(read_request(b"GET "), Ok("".to_string()));
    assert_eq!(read_request(b"GET\t/ HTTP/1.1\r\n"), Ok("HTTP/1.1".to_string()));
}

#[test]
fn two_tokens_are_enough() {
    assert_eq!(read_request(b"GET /x\r\n"), Ok("/x".to_string()));
    assert_eq!(read_request(b"GET /x\r\n\r\n"), Ok("/x".to_string()));
    assert_eq!(read_request(b"GET /x\n"), Ok("/x".to_string()));
    assert_eq!(read_request(b"GET /x"), Ok("/x".to_string()));
    assert_eq!(read_request(b"GET /\r\nHost: example.org\r\n\r\n"), Ok("/".to_string()));
}

#[test]
fn line_terminator_is_no_part_of_the_path() {
    assert_eq!(read_request(b"GET /"), Ok("/".to_string()));
    assert_eq!(read_request(b"GET /\n"), Ok("/".to_string()));
    assert_eq!(read_request(b"GET /\r\n"), Ok("/".to_string()));
    assert_eq!(read_request(b"GET / HTTP/1.1\n"), Ok("/".to_string()));
    assert_eq!(read_request(b"GET \r\n"), Ok("".to_string()));
}

#[test]
fn carriage_return_ends_the_line_only_before_a_line_feed() {
    assert_eq!(read_request(b"GET /x\r"), Ok("/x\r".to_string()));
    assert_eq!(read_request(b"GET /x\r\r\n"), Ok("/x\r".to_string()));
    assert_eq!(read_request(b"GET /x\ry z\r\n"), Ok("/x\ry".to_string()));
}

#[test]
fn path_must_be_text() {
    assert_eq!(read_request(b"GET /\xff HTTP/1.1\r\n"), Err(MalformedRequest));
    assert_eq!(read_request(b"GET /\xc3 HTTP/1.1\r\n"), Err(MalformedRequest));
    assert_eq!(read_request(b"GET /\xed\xa0\x80 HTTP/1.1\r\n"), Err(MalformedRequest));
    assert_eq!(read_request(b"GET /\xc0\xaf HTTP/1.1\r\n"), Err(MalformedRequest));
    assert_eq!(read_request(b"GET /\xc3\xa9 HTTP/1.1\r\n"), Ok("/\u{e9}".to_string()));
    assert_eq!(read_request(b"GET /\xf0\x9f\x98\x80\r\n"), Ok("/\u{1f600}".to_string()));
}

#[test]
fn method_and_version_need_not_be_text() {
    assert_eq!(read_request(b"\xff\xfe /x \x80\x81\r\n"), Ok("/x".to_string()));
    assert_eq!(read_request(b"G\xc3T /x\r\n"), Ok("/x".to_string()));
}

#[test]
fn only_the_first_line_is_read() {
    assert_eq!(
        read_request(b"GET /first HTTP/1.1\r\nGET /second HTTP/1.1\r\n\r\n"),
        Ok("/first".to_string())
    );
    assert_eq!(read_request(b"GET /\nHost: a b\n"), Ok("/".to_string()));
    assert_eq!(read_request(b"GET\n/ HTTP/1.1\n"), Err(MalformedRequest));
}

#[test]
fn blank_line_or_end_of_stream_ends_the_headers() {
    assert!(is_end_of_headers(b"\r\n"));
    assert!(is_end_of_headers(b"\n"));
    assert!(is_end_of_headers(b""));
    assert!(!is_end_of_headers(b"Host: example.org\r\n"));
    assert!(!is_end_of_headers(b" \r\n"));
    assert!(!is_end_of_headers(b"\r"));
    assert!(!is_end_of_headers(b"\r\r\n"));
    assert!(!is_end_of_headers(b"\n\n"));
    assert!(!is_end_of_headers(b"x"));
    assert!(!is_end_of_headers(b"\r\nx"));
}

#[test]
fn reader_takes_the_path_and_drops_the_headers() {
    let mut reader = RequestReader::new();
    assert!(reader.wants_line());
    reader = reader.feed(b"GET /about HTTP/1.1\r\n");
    assert!(reader.wants_line());
    reader = reader.feed(b"Host: example.org\r\n");
    assert!(reader.wants_line());
    reader = reader.feed(b"GET /other HTTP/1.1\r\n");
    assert!(reader.wants_line());
    reader = reader.feed(b"\r\n");
    assert!(!reader.wants_line());
    assert_eq!(reader.finish(), Ok("/about".to_string()));
}

#[test]
fn reader_stops_at_the_end_of_the_stream() {
    let mut reader = RequestReader::new().feed(b"GET / HTTP/1.1\r\n");
    reader = reader.feed(b"Accept: */*");
    assert!(reader.wants_line());
    reader = reader.feed(b"");
    assert!(!reader.wants_line());
    assert_eq!(reader.finish(), Ok("/".to_string()));
}

#[test]
fn reader_never_reads_the_body() {
    let mut reader = RequestReader::new().feed(b"POST /form HTTP/1.1\r\n");
    reader = reader.feed(b"Content-Length: 3\r\n");
    reader = reader.feed(b"\n");
    assert!(!reader.wants_line());
    reader = reader.feed(b"a b c");
    assert!(!reader.wants_line());
    assert_eq!(reader.finish(), Ok("/form".to_string()));
}

#[test]
fn reader_drops_header_lines_that_are_no_text() {
    let mut reader = RequestReader::new().feed(b"GET /x\r\n");
    reader = reader.feed(b"X-Blob: \xff\xfe\x00\x80\r\n");
    assert!(reader.wants_line());
    reader = reader.feed(b"\xc3\n");
    assert!(reader.wants_line());
    reader = reader.feed(b"\r\n");
    assert!(!reader.wants_line());
    assert_eq!(reader.finish(), Ok("/x".to_string()));
}

#[test]
fn reader_fails_on_a_path_that_is_no_text() {
    let reader = RequestReader::new().feed(b"GET /\xff\r\n");
    assert!(!reader.wants_line());
    assert_eq!(reader.finish(), Err(MalformedRequest));
}

#[test]
fn reader_fails_on_a_malformed_first_line() {
    let reader = RequestReader::new().feed(b"GARBAGE\r\n");
    assert!(!reader.wants_line());
    let reader = reader.feed(b"GET / HTTP/1.1\r\n");
    assert!(!reader.wants_line());
    assert_eq!(reader.finish(), Err(MalformedRequest));
}

#[test]
fn reader_fails_when_the_stream_ends_before_any_line() {
    let reader = RequestReader::new().feed(b"");
    assert!(!reader.wants_line());
    assert_eq!(reader.finish(), Err(MalformedRequest));
}

#[test]
fn reader_that_was_fed_nothing_has_no_path() {
    assert_eq!(RequestReader::new().finish(), Err(MalformedRequest));
}

#[test]
fn reader_knows_the_path_before_the_headers_end() {
    let reader = RequestReader::new().feed(b"GET /early HTTP/1.1\r\n");
    assert!(reader.wants_line());
    assert_eq!(reader.finish(), Ok("/early".to_string()));
}
