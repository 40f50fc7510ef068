use web_server::html::{html_cleanup, is_whitespace};

#[test]
fn cleanup_keeps_a_plain_page() {
    assert_eq!(html_cleanup("<h1>Hello</h1>"), "<h1>Hello</h1>");
    assert_eq!(html_cleanup("abc"), "abc");
}

#[test]
fn cleanup_trims_both_ends() {
    assert_eq!(html_cleanup("  \t<p>x</p>\n  "), "<p>x</p>");
    assert_eq!(html_cleanup("\u{a0}x\u{3000}"), "x");
    assert_eq!(html_cleanup("x "), "x");
    assert_eq!(html_cleanup(" x"), "x");
}

#[test]
fn cleanup_removes_inner_line_breaks_only() {
    assert_eq!(html_cleanup("a\nb\rc\r\nd"), "abcd");
    assert_eq!(html_cleanup("a \n b"), "a  b");
    assert_eq!(html_cleanup("a\tb\u{b}c\u{c}d\u{85}e\u{2028}f"), "a\tb\u{b}c\u{c}d\u{85}e\u{2028}f");
}

#[test]
fn cleanup_of_white_space_is_empty() {
    assert_eq!(html_cleanup(""), "");
    assert_eq!(html_cleanup(" "), "");
    assert_eq!(html_cleanup("\r\n"), "");
    assert_eq!(html_cleanup(" \t\r\n\u{2003}\u{205f} "), "");
}

#[test]
fn cleanup_collapses_a_page_of_several_lines() {
    let page = "\n<html>\n  <body>\r\n    <p>hi</p>\r\n  </body>\n</html>\n";
    assert_eq!(html_cleanup(page), "<html>  <body>    <p>hi</p>  </body></html>");
}

#[test]
fn cleanup_agrees_with_trim_and_replace() {
    let pages = [
        "",
        "x",
        " x ",
        "\n\nx\n\ny\n\n",
        "\r\r\r",
        "  <h1>Welcome</h1> \n\n\n    \n    <input type='text'>  ",
        "\u{1680}caf\u{e9}\n\u{4f60}\u{597d}\u{2009}",
        "\u{feff}x\u{200b}",
        "\u{180e}y\u{2060}",
        "a\u{0}b",
    ];
    for page in pages {
        assert_eq!(html_cleanup(page), page.trim().replace(['\n', '\r'], ""));
    }
}

#[test]
fn cleanup_is_idempotent() {
    for page in ["  a\nb  ", "\n", "x\r\n y", "\u{a0}z\n"] {
        let once = html_cleanup(page);
        assert_eq!(html_cleanup(&once), once);
    }
}

#[test]
fn white_space_is_what_the_standard_library_takes_for_it() {
    for code in 0..=0x10FFFFu32 {
        if let Some(c) = char::from_u32(code) {
            assert_eq!(is_whitespace(c), c.is_whitespace(), "U+{:04X}", code);
        }
    }
}

#[test]
fn white_space_at_the_edges_of_its_ranges() {
    for c in ['\t', '\n', '\u{b}', '\u{c}', '\r', ' ', '\u{85}', '\u{a0}', '\u{1680}', '\u{2000}',
        '\u{200a}', '\u{2028}', '\u{2029}', '\u{202f}', '\u{205f}', '\u{3000}']
    {
        assert!(is_whitespace(c));
    }
    for c in ['\u{8}', '\u{e}', '\u{1f}', '!', '\u{84}', '\u{86}', '\u{1fff}', '\u{200b}',
        '\u{2027}', '\u{202a}', '\u{2060}', '\u{3001}', '\u{feff}', 'a', '0', '<']
    {
        assert!(!is_whitespace(c));
    }
}
