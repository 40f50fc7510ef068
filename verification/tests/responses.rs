use web_server::pages::{about, index};
use web_server::response::{decimal_string, send_response};
use web_server::server::WebServer;

const HEAD: &str = "HTTP/1.1 200 OK\r\nServer: Zattiri Web 2K24\r\nContent-Type: text/html\r\nConnection: Closed\r\nContent-Length: ";

fn hello() -> String {
    "<h1>Hello</h1>".to_string()
}

fn expected(length: usize, body: &str) -> String {
    format!("{}{}\r\n\r\n{}\r\n\r\n", HEAD, length, body)
}

/// The body that a client finds in `response`, and the length it declares.
fn read_back(response: &str) -> (usize, String) {
    let rest = &response[HEAD.len()..];
    let end = rest.find('\r').unwrap();
    let length = rest[..end].parse().unwrap();
    let rest = &rest[end + 4..];
    let end = rest.find('\r').unwrap();
    (length, rest[..end].to_string())
}

#[test]
fn registered_root_is_served() {
    let mut server: WebServer<fn() -> String> = WebServer::launch(None, 1453, true, None);
    server.add_route("/".to_string(), hello);
    let response = server.serve_to_client(b"GET / HTTP/1.1\r\n").unwrap();
    assert_eq!(response, expected(14, "<h1>Hello</h1>"));
    assert!(response.contains("Content-Length: 14\r\n"));
}

#[test]
fn missing_route_gets_the_built_in_page() {
    let server: WebServer<fn() -> String> = WebServer::launch(None, 1453, true, None);
    let response = server.serve_to_client(b"GET /missing HTTP/1.1\r\n").unwrap();
    assert!(response.starts_with("HTTP/1.1 200 OK\r\n"));
    assert_eq!(response, expected(22, "<h1>404 Not Found</h1>"));
}

#[test]
fn sample_pages_are_sent_on_one_line() {
    assert_eq!(send_response(&index()), expected(21, "<h1>Hello World!</h1>"));
    assert_eq!(
        send_response(&about()),
        expected(63, "<h1>Welcome to the About Page!</h1>         <input type='text'>")
    );
}

#[test]
fn response_has_the_fixed_shape() {
    assert_eq!(
        send_response("ok"),
        "HTTP/1.1 200 OK\r\nServer: Zattiri Web 2K24\r\nContent-Type: text/html\r\nConnection: Closed\r\nContent-Length: 2\r\n\r\nok\r\n\r\n"
    );
}

#[test]
fn empty_page_has_length_zero() {
    assert_eq!(send_response(""), expected(0, ""));
    assert_eq!(send_response(" \r\n\t "), expected(0, ""));
}

#[test]
fn content_length_counts_the_bytes_of_the_body_sent() {
    let pages = [
        "<p>one\ntwo\r\nthree</p>",
        "\t<p>tab\tinside</p>\t",
        "  <p>caf\u{e9} \u{4f60}\u{597d} \u{1f600}</p>\n",
        "\u{a0}\u{3000}<b>\u{2028}x\u{85}</b>\u{2003}",
        "\n\n\n",
    ];
    for page in pages {
        let response = send_response(page);
        let (length, body) = read_back(&response);
        assert_eq!(length, body.len());
        assert_eq!(body, page.trim().replace(['\n', '\r'], ""));
        assert_eq!(response, expected(body.len(), &body));
    }
}

#[test]
fn content_length_is_that_of_the_body_not_of_the_page() {
    let response = send_response("  \u{e9}\n\u{e9}  ");
    assert_eq!(response, expected(4, "\u{e9}\u{e9}"));
}

#[test]
fn non_ascii_body_is_counted_in_bytes() {
    assert_eq!(send_response("\u{1f600}"), expected(4, "\u{1f600}"));
    assert_eq!(send_response("\u{20ac}5"), expected(4, "\u{20ac}5"));
}

#[test]
fn decimal_string_writes_numbers_as_the_standard_library_does() {
    assert_eq!(decimal_string(0), "0");
    assert_eq!(decimal_string(7), "7");
    assert_eq!(decimal_string(10), "10");
    assert_eq!(decimal_string(14), "14");
    assert_eq!(decimal_string(1453), "1453");
    assert_eq!(decimal_string(100_000), "100000");
    for n in [9usize, 99, 101, 4096, 65_535, 1_000_000_007, usize::MAX] {
        assert_eq!(decimal_string(n), n.to_string());
    }
}
