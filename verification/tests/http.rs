use rusty_server::http::{response, same_text, to_decimal, Page};

#[test]
fn root_is_the_greeting() {
    let page = Page::route("GET / HTTP/1.1");
    assert_eq!(page, Page::Hello);
    assert_eq!(page.status_line(), "HTTP/1.1 200 OK");
    assert_eq!(page.filename(), "hello.html");
    assert_eq!(page.delay_secs(), 0);
}

#[test]
fn sleep_is_the_greeting_after_a_pause() {
    let page = Page::route("GET /sleep HTTP/1.1");
    assert_eq!(page, Page::Slow);
    assert_eq!(page.status_line(), "HTTP/1.1 200 OK");
    assert_eq!(page.filename(), "hello.html");
    assert_eq!(page.delay_secs(), 5);
}

#[test]
fn anything_else_is_not_found() {
    for line in [
        "",
        "GET /missing HTTP/1.1",
        "GET / HTTP/1.0",
        "GET / HTTP/1.1 ",
        " GET / HTTP/1.1",
        "get / http/1.1",
        "POST / HTTP/1.1",
        "GET /sleep/ HTTP/1.1",
        "GET / HTTP/1.1\r",
    ] {
        let page = Page::route(line);
        assert_eq!(page, Page::NotFound);
        assert_eq!(page.status_line(), "HTTP/1.1 404 NOT FOUND");
        assert_eq!(page.filename(), "404.html");
        assert_eq!(page.delay_secs(), 0);
    }
}

#[test]
fn texts_are_compared_whole() {
    assert!(same_text("", ""));
    assert!(same_text("abc", "abc"));
    assert!(!same_text("abc", "abd"));
    assert!(!same_text("abc", "ab"));
    assert!(!same_text("ab", "abc"));
    assert!(same_text("h\u{e9}llo", "h\u{e9}llo"));
    assert!(!same_text("h\u{e9}llo", "hello"));
}

#[test]
fn numbers_are_written_in_decimal() {
    assert_eq!(to_decimal(0), "0");
    assert_eq!(to_decimal(7), "7");
    assert_eq!(to_decimal(9), "9");
    assert_eq!(to_decimal(10), "10");
    assert_eq!(to_decimal(109), "109");
    assert_eq!(to_decimal(1234567890), "1234567890");
    assert_eq!(to_decimal(usize::MAX), format!("{}", usize::MAX));
}

#[test]
fn response_carries_status_length_and_body() {
    assert_eq!(
        response("HTTP/1.1 200 OK", "<p>Hi</p>\n"),
        "HTTP/1.1 200 OK\r\nContent-Length: 10\r\n\r\n<p>Hi</p>\n"
    );
}

#[test]
fn response_to_an_empty_body() {
    assert_eq!(
        response("HTTP/1.1 404 NOT FOUND", ""),
        "HTTP/1.1 404 NOT FOUND\r\nContent-Length: 0\r\n\r\n"
    );
}

#[test]
fn length_counts_bytes() {
    assert_eq!(
        response("HTTP/1.1 200 OK", "caf\u{e9}"),
        "HTTP/1.1 200 OK\r\nContent-Length: 5\r\n\r\ncaf\u{e9}"
    );
}

#[test]
fn response_matches_formatting() {
    let body = "x".repeat(4321);
    let expected = format!("{}\r\nContent-Length: {}\r\n\r\n{}", "HTTP/1.1 200 OK", 4321, body);
    assert_eq!(response("HTTP/1.1 200 OK", &body), expected);
}
