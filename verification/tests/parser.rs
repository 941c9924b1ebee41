use rsimple_http::http::request::{parse, Demand, Method, ParseError, Parser, Request};
use std::io::{BufRead, Read};

fn feed_from(source: &mut impl BufRead) -> Result<Request, ParseError> {
    let mut parser = Parser::new();
    loop {
        parser = match parser.demand() {
            Demand::Line => {
                let mut line = String::new();
                match source.read_line(&mut line) {
                    Ok(_) => parser.feed_line(Some(line)),
                    Err(_) => parser.feed_line(None),
                }
            }
            Demand::Body(length) => {
                let mut bytes = vec![0; length];
                match source.read_exact(&mut bytes) {
                    Ok(()) => parser.feed_body(String::from_utf8(bytes).ok()),
                    Err(_) => parser.feed_body(None),
                }
            }
            Demand::Nothing => break,
        };
    }
    parser.outcome().unwrap()
}

#[test]
fn new_parser_wants_a_line() {
    let parser = Parser::new();
    assert_eq!(parser.demand(), Demand::Line);
    assert!(parser.outcome().is_none());
}

#[test]
fn parser_step_by_step() {
    let parser = Parser::new();
    let parser = parser.feed_line(Some("POST /calc HTTP/1.1\r\n".to_string()));
    assert_eq!(parser.demand(), Demand::Line);
    let parser = parser.feed_line(Some("Host: example.org\r\n".to_string()));
    assert_eq!(parser.demand(), Demand::Line);
    let parser = parser.feed_line(Some("Content-Length: 7\r\n".to_string()));
    assert_eq!(parser.demand(), Demand::Line);
    let parser = parser.feed_line(Some("\r\n".to_string()));
    assert_eq!(parser.demand(), Demand::Body(7));
    let parser = parser.feed_body(Some("10 + 20".to_string()));
    assert_eq!(parser.demand(), Demand::Nothing);
    let request = parser.outcome().unwrap().unwrap();
    assert_eq!(request.method, Method::POST);
    assert_eq!(request.path, "/calc");
    assert_eq!(request.headers.len(), 2);
    assert_eq!(request.headers.get("Host"), Some(&"example.org".to_string()));
    assert_eq!(request.headers.get("Content-Length"), Some(&"7".to_string()));
    assert_eq!(request.body, "10 + 20");
}

#[test]
fn parser_without_body_is_done_after_the_block() {
    let parser = Parser::new()
        .feed_line(Some("GET / HTTP/1.1\r\n".to_string()))
        .feed_line(Some("\r\n".to_string()));
    assert_eq!(parser.demand(), Demand::Nothing);
    let request = parser.outcome().unwrap().unwrap();
    assert_eq!(request.method, Method::GET);
    assert_eq!(request.path, "/");
    assert!(request.headers.is_empty());
    assert_eq!(request.body, "");
}

#[test]
fn parser_takes_the_end_of_the_source_for_the_end_of_the_block() {
    let parser = Parser::new()
        .feed_line(Some("GET / HTTP/1.1\r\n".to_string()))
        .feed_line(Some("A: b\r\n".to_string()))
        .feed_line(Some(String::new()));
    assert_eq!(parser.demand(), Demand::Nothing);
    assert_eq!(parser.outcome().unwrap().unwrap().headers.len(), 1);
}

#[test]
fn failed_read_of_the_status_line() {
    let parser = Parser::new().feed_line(None);
    assert_eq!(parser.demand(), Demand::Nothing);
    assert_eq!(parser.outcome().unwrap().unwrap_err(), ParseError::MalformedStatusLine);
}

#[test]
fn failed_read_of_a_header_line() {
    let parser = Parser::new().feed_line(Some("GET / HTTP/1.1\r\n".to_string())).feed_line(None);
    assert_eq!(parser.demand(), Demand::Nothing);
    assert_eq!(parser.outcome().unwrap().unwrap_err(), ParseError::HeaderReadFailure);
}

#[test]
fn header_line_without_colon_fails_the_parser() {
    let parser = Parser::new()
        .feed_line(Some("GET / HTTP/1.1\r\n".to_string()))
        .feed_line(Some("nothing to split\r\n".to_string()));
    assert_eq!(parser.outcome().unwrap().unwrap_err(), ParseError::HeaderReadFailure);
}

#[test]
fn status_line_errors_fail_the_parser() {
    let parser = Parser::new().feed_line(Some("FOO / HTTP/1.1\r\n".to_string()));
    assert_eq!(parser.demand(), Demand::Nothing);
    assert_eq!(parser.outcome().unwrap().unwrap_err(), ParseError::UnsupportedMethod);
    let parser = Parser::new().feed_line(Some("GET\r\n".to_string()));
    assert_eq!(parser.outcome().unwrap().unwrap_err(), ParseError::MissingPath);
    let parser = Parser::new().feed_line(Some(String::new()));
    assert_eq!(parser.outcome().unwrap().unwrap_err(), ParseError::UnsupportedMethod);
}

#[test]
fn body_that_could_not_be_read() {
    let parser = Parser::new()
        .feed_line(Some("PUT /x HTTP/1.1\r\n".to_string()))
        .feed_line(Some("content-length: 3\r\n".to_string()))
        .feed_line(Some("\r\n".to_string()));
    assert_eq!(parser.demand(), Demand::Body(3));
    let parser = parser.feed_body(None);
    assert_eq!(parser.demand(), Demand::Nothing);
    assert_eq!(parser.outcome().unwrap().unwrap_err(), ParseError::TruncatedBody);
}

#[test]
fn body_of_another_length_than_declared() {
    for body in ["", "ab", "abcd", "é"] {
        let parser = Parser::new()
            .feed_line(Some("PUT /x HTTP/1.1\r\n".to_string()))
            .feed_line(Some("Content-Length: 3\r\n".to_string()))
            .feed_line(Some("\r\n".to_string()))
            .feed_body(Some(body.to_string()));
        assert_eq!(parser.outcome().unwrap().unwrap_err(), ParseError::TruncatedBody, "{body:?}");
    }
    let parser = Parser::new()
        .feed_line(Some("PUT /x HTTP/1.1\r\n".to_string()))
        .feed_line(Some("Content-Length: 3\r\n".to_string()))
        .feed_line(Some("\r\n".to_string()))
        .feed_body(Some("é!".to_string()));
    assert_eq!(parser.outcome().unwrap().unwrap().body, "é!");
}

#[test]
fn what_is_not_asked_for_changes_nothing() {
    let parser = Parser::new().feed_body(Some("early".to_string()));
    assert_eq!(parser.demand(), Demand::Line);
    let parser = parser.feed_body(None);
    assert_eq!(parser.demand(), Demand::Line);
    let parser = parser
        .feed_line(Some("POST / HTTP/1.1\r\n".to_string()))
        .feed_body(Some("early".to_string()))
        .feed_line(Some("Content-Length: 2\r\n".to_string()))
        .feed_line(Some("\r\n".to_string()));
    assert_eq!(parser.demand(), Demand::Body(2));
    let parser = parser.feed_line(Some("X: y\r\n".to_string())).feed_line(None);
    assert_eq!(parser.demand(), Demand::Body(2));
    let parser = parser.feed_body(Some("ok".to_string()));
    assert_eq!(parser.demand(), Demand::Nothing);
    let parser = parser.feed_line(None).feed_body(None).feed_line(Some("GET / x".to_string()));
    let request = parser.outcome().unwrap().unwrap();
    assert_eq!(request.body, "ok");
    assert_eq!(request.headers.len(), 1);

    let failed = Parser::new().feed_line(None).feed_line(Some("GET / x\r\n".to_string())).feed_body(None);
    assert_eq!(failed.outcome().unwrap().unwrap_err(), ParseError::MalformedStatusLine);
}

#[test]
fn unfinished_parser_has_no_outcome() {
    assert!(Parser::new().feed_line(Some("GET / HTTP/1.1\r\n".to_string())).outcome().is_none());
    let waiting = Parser::new()
        .feed_line(Some("GET / HTTP/1.1\r\n".to_string()))
        .feed_line(Some("Content-Length: 1\r\n".to_string()))
        .feed_line(Some("\n".to_string()));
    assert!(waiting.outcome().is_none());
}

#[test]
fn source_is_left_after_the_message() {
    let bytes = "POST /a HTTP/1.1\r\nContent-Length: 3\r\n\r\nabcGET /b HTTP/1.1\r\n\r\nrest";
    let mut source = bytes.as_bytes();
    let first = feed_from(&mut source).unwrap();
    assert_eq!(first.path, "/a");
    assert_eq!(first.body, "abc");
    assert_eq!(source, "GET /b HTTP/1.1\r\n\r\nrest".as_bytes());
    let second = feed_from(&mut source).unwrap();
    assert_eq!(second.method, Method::GET);
    assert_eq!(second.path, "/b");
    assert_eq!(source, "rest".as_bytes());
}

#[test]
fn lines_that_are_no_text_fail_the_read() {
    let mut source: &[u8] = b"GET /\xff HTTP/1.1\r\n\r\n";
    assert_eq!(feed_from(&mut source).unwrap_err(), ParseError::MalformedStatusLine);
    let mut source: &[u8] = b"GET / HTTP/1.1\r\nX: \xff\r\n\r\n";
    assert_eq!(feed_from(&mut source).unwrap_err(), ParseError::HeaderReadFailure);
}

#[test]
fn body_that_is_no_text_counts_as_not_read() {
    let mut source: &[u8] = b"POST / HTTP/1.1\r\nContent-Length: 2\r\n\r\n\xff\xfe";
    assert_eq!(feed_from(&mut source).unwrap_err(), ParseError::TruncatedBody);
    let mut source: &[u8] = "POST / HTTP/1.1\r\nContent-Length: 2\r\n\r\na€".as_bytes();
    assert_eq!(feed_from(&mut source).unwrap_err(), ParseError::TruncatedBody);
}

#[test]
fn fed_from_a_source_as_parsed_from_a_text() {
    let messages = [
        "",
        "\r\n",
        "GET",
        "GET /",
        "GET / HTTP/1.1\r\n\r\n",
        "FOO / HTTP/1.1\r\n\r\n",
        "GET / HTTP/1.1\r\nHost: a\r\nHost: b\r\n\r\nbody",
        "GET / HTTP/1.1\r\nbroken\r\n\r\n",
        "POST / HTTP/1.1\r\nContent-Length: 4\r\n\r\nbody and more",
        "POST / HTTP/1.1\r\nContent-Length: 40\r\n\r\nbody",
        "POST / HTTP/1.1\r\ncontent-length: +2\r\n\r\nbody",
        "POST / HTTP/1.1\r\nContent-Length: 0\r\n\r\nbody",
        "POST / HTTP/1.1\nContent-Length: 8\nX: é\n\nköln€",
        "POST / HTTP/1.1\nContent-Length: 7\nX: é\n\nköln€",
        "PATCH /x y z\nA:1\nb\nC:3\n\n",
    ];
    for message in messages {
        let mut source = message.as_bytes();
        let fed = feed_from(&mut source);
        let mut text = message;
        let parsed = parse(&mut text);
        assert_eq!(text.as_bytes(), if parsed.is_ok() { source } else { message.as_bytes() });
        match (fed, parsed) {
            (Ok(a), Ok(b)) => {
                assert_eq!(a.method, b.method);
                assert_eq!(a.path, b.path);
                assert_eq!(a.body, b.body);
                assert_eq!(a.headers.names(), b.headers.names());
                for name in a.headers.names() {
                    assert_eq!(a.headers.get(&name), b.headers.get(&name));
                }
            }
            (Err(a), Err(b)) => assert_eq!(a, b),
            (a, b) => panic!("{message:?}: {a:?} and {b:?}"),
        }
    }
}
