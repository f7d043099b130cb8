use range_fetch::error::FetchError;
use range_fetch::response::{
    blank, find_content_length, head_length, is_length_header, parse_declared_length,
    parse_response, parse_status,
};

#[test]
fn parses_a_plain_response() {
    let raw = b"HTTP/1.1 200 OK\r\nContent-Length: 10\r\n\r\n0123456789";
    let response = parse_response(raw).unwrap();
    assert_eq!(response.status, 200);
    assert_eq!(response.content_length, 10);
    assert_eq!(response.body, b"0123456789".to_vec());
}

#[test]
fn header_order_does_not_matter() {
    let a = b"HTTP/1.1 206 Partial Content\r\nServer: s\r\nContent-Length: 3\r\nDate: d\r\n\r\nabc";
    let b = b"HTTP/1.1 206 Partial Content\r\nDate: d\r\nServer: s\r\nContent-Length: 3\r\n\r\nabc";
    let c = b"HTTP/1.1 206 Partial Content\r\nContent-Length: 3\r\nDate: d\r\nServer: s\r\n\r\nabc";
    let first = parse_response(a).unwrap();
    assert_eq!(first.status, 206);
    assert_eq!(first.content_length, 3);
    assert_eq!(first.body, b"abc".to_vec());
    assert_eq!(parse_response(b).unwrap(), first);
    assert_eq!(parse_response(c).unwrap(), first);
}

#[test]
fn header_name_is_matched_in_any_case() {
    for name in ["content-length", "CONTENT-LENGTH", "Content-length", "cOnTeNt-LeNgTh"] {
        let raw = format!("HTTP/1.1 200 OK\r\n{}: 7\r\n\r\n1234567", name);
        let response = parse_response(raw.as_bytes()).unwrap();
        assert_eq!(response.content_length, 7);
    }
}

#[test]
fn white_space_around_the_value_is_dropped() {
    let raw = b"HTTP/1.1 200 OK\r\nContent-Length:  \t 42 \t \r\n\r\n";
    assert_eq!(parse_response(raw).unwrap().content_length, 42);
    let tight = b"HTTP/1.1 200 OK\r\nContent-Length:42\r\n\r\n";
    assert_eq!(parse_response(tight).unwrap().content_length, 42);
}

#[test]
fn line_feeds_alone_end_lines_too() {
    let raw = b"HTTP/1.1 200 OK\nContent-Length: 2\n\nhi";
    let response = parse_response(raw).unwrap();
    assert_eq!(response.status, 200);
    assert_eq!(response.content_length, 2);
    assert_eq!(response.body, b"hi".to_vec());
}

#[test]
fn status_is_the_second_token() {
    assert_eq!(parse_status(b"HTTP/1.1 200 OK"), Some(200));
    assert_eq!(parse_status(b"  HTTP/1.1 \t 404   Not Found\r"), Some(404));
    assert_eq!(parse_status(b"x 0"), Some(0));
    assert_eq!(parse_status(b"x 65535"), Some(65535));
    assert_eq!(parse_status(b"x +206"), Some(206));
    assert_eq!(parse_status(b"x 000200 y"), Some(200));
}

#[test]
fn status_line_without_a_number_is_malformed() {
    assert_eq!(parse_status(b""), None);
    assert_eq!(parse_status(b"HTTP/1.1"), None);
    assert_eq!(parse_status(b"HTTP/1.1 "), None);
    assert_eq!(parse_status(b"HTTP/1.1 OK 200"), None);
    assert_eq!(parse_status(b"HTTP/1.1 20x"), None);
    assert_eq!(parse_status(b"HTTP/1.1 -200"), None);
    assert_eq!(parse_status(b"HTTP/1.1 65536"), None);
    assert_eq!(parse_status(b"HTTP/1.1 +"), None);
    assert_eq!(parse_status(b"200"), None);
}

#[test]
fn missing_status_is_reported_first() {
    assert_eq!(parse_response(b""), Err(FetchError::MalformedStatusLine));
    assert_eq!(parse_response(b"\r\n\r\n"), Err(FetchError::MalformedStatusLine));
    assert_eq!(parse_response(b"HTTP/1.1\r\n\r\n"), Err(FetchError::MalformedStatusLine));
    assert_eq!(
        parse_response(b"HTTP/1.1 abc OK\r\nContent-Length: 1\r\n\r\nx"),
        Err(FetchError::MalformedStatusLine)
    );
    assert_eq!(parse_response(b"HTTP/1.1 abc OK\r\n\r\n"), Err(FetchError::MalformedStatusLine));
}

#[test]
fn rejects_a_response_without_length() {
    let raw = b"HTTP/1.1 200 OK\r\nServer: x\r\n\r\nabc";
    assert_eq!(parse_response(raw), Err(FetchError::MissingContentLength));
    assert_eq!(parse_response(b"HTTP/1.1 200 OK\r\n\r\n"), Err(FetchError::MissingContentLength));
    assert_eq!(parse_response(b"HTTP/1.1 200 OK"), Err(FetchError::MissingContentLength));
}

#[test]
fn rejects_a_length_that_is_no_number() {
    for value in ["", "abc", "-5", "1.5", "1 2", "0x10", "+", "12a"] {
        let raw = format!("HTTP/1.1 200 OK\r\nContent-Length: {}\r\n\r\n", value);
        assert_eq!(parse_response(raw.as_bytes()), Err(FetchError::MissingContentLength));
    }
}

#[test]
fn length_in_the_body_is_not_a_header() {
    let raw = b"HTTP/1.1 200 OK\r\nServer: x\r\n\r\nContent-Length: 5\r\n\r\n";
    assert_eq!(parse_response(raw), Err(FetchError::MissingContentLength));
}

#[test]
fn first_length_header_decides() {
    let raw = b"HTTP/1.1 200 OK\r\nContent-Length: 1\r\nContent-Length: 2\r\n\r\nx";
    assert_eq!(parse_response(raw).unwrap().content_length, 1);
    let bad_first = b"HTTP/1.1 200 OK\r\nContent-Length: x\r\nContent-Length: 2\r\n\r\nx";
    assert_eq!(parse_response(bad_first), Err(FetchError::MissingContentLength));
}

#[test]
fn only_the_exact_name_is_the_length_header() {
    assert!(is_length_header(b"Content-Length: 5"));
    assert!(is_length_header(b"content-length:"));
    assert!(!is_length_header(b"Content-Length-Extra: 5"));
    assert!(!is_length_header(b"X-Content-Length: 5"));
    assert!(!is_length_header(b"Content-Length : 5"));
    assert!(!is_length_header(b" Content-Length: 5"));
    assert!(!is_length_header(b"Content-Length"));
    assert!(!is_length_header(b""));
    let raw = b"HTTP/1.1 200 OK\r\nContent-Length-Extra: 9\r\nContent-Length: 1\r\n\r\nx";
    assert_eq!(parse_response(raw).unwrap().content_length, 1);
}

#[test]
fn value_ends_at_the_next_colon() {
    assert_eq!(parse_declared_length(b"Content-Length: 5"), Some(5));
    assert_eq!(parse_declared_length(b"Content-Length: 5 : 6"), Some(5));
    assert_eq!(parse_declared_length(b"Content-Length::6"), None);
    assert_eq!(parse_declared_length(b"Content-Length"), None);
    assert_eq!(parse_declared_length(b"Content-Length: +12\r"), Some(12));
    assert_eq!(parse_declared_length(b"Content-Length: 007"), Some(7));
}

#[test]
fn length_up_to_the_largest_size_is_read() {
    let most = format!("Content-Length: {}", usize::MAX);
    assert_eq!(parse_declared_length(most.as_bytes()), Some(usize::MAX));
    let more = format!("Content-Length: {}0", usize::MAX);
    assert_eq!(parse_declared_length(more.as_bytes()), None);
    let zeros = format!("Content-Length: {}1", "0".repeat(60));
    assert_eq!(parse_declared_length(zeros.as_bytes()), Some(1));
}

#[test]
fn header_block_ends_with_the_first_blank_line() {
    assert_eq!(head_length(b""), 0);
    assert_eq!(head_length(b"a\r\n\r\nbody\r\n\r\n"), 5);
    assert_eq!(head_length(b"a\n\nbody"), 3);
    assert_eq!(head_length(b"a\r\nb\r\n"), 6);
    assert_eq!(head_length(b"a\r\nb"), 4);
    assert_eq!(head_length(b"\r\nbody"), 2);
    assert_eq!(head_length(b"a\n \t \nbody"), 6);
    assert_eq!(head_length(b"a\n  "), 4);
}

#[test]
fn body_is_everything_behind_the_blank_line() {
    let raw = b"HTTP/1.1 200 OK\r\nContent-Length: 3\r\n\r\n\r\n\r\nab\n";
    let response = parse_response(raw).unwrap();
    assert_eq!(response.body, b"\r\n\r\nab\n".to_vec());
    assert_eq!(response.content_length, 3);
    let none = b"HTTP/1.1 200 OK\r\nContent-Length: 3\r\n\r\n";
    assert_eq!(parse_response(none).unwrap().body, Vec::<u8>::new());
    let cut = b"HTTP/1.1 200 OK\r\nContent-Length: 3";
    let response = parse_response(cut).unwrap();
    assert_eq!(response.content_length, 3);
    assert_eq!(response.body, Vec::<u8>::new());
}

#[test]
fn body_may_hold_any_byte() {
    let mut raw = b"HTTP/1.1 200 OK\r\nContent-Length: 4\r\n\r\n".to_vec();
    raw.extend_from_slice(&[0x00, 0xff, 0x0a, 0x80]);
    let response = parse_response(&raw).unwrap();
    assert_eq!(response.body, vec![0x00, 0xff, 0x0a, 0x80]);
}

#[test]
fn blank_means_white_space_only() {
    assert!(blank(b""));
    assert!(blank(b" \t\r\n\x0b\x0c"));
    assert!(!blank(b" a "));
    assert!(!blank(b"\x00"));
}

#[test]
fn length_is_looked_up_line_by_line() {
    assert_eq!(find_content_length(b""), None);
    assert_eq!(find_content_length(b"a: 1\nContent-Length: 8\nb: 2\n"), Some(8));
    assert_eq!(find_content_length(b"a: 1\nb: 2"), None);
    assert_eq!(find_content_length(b"content-length:3"), Some(3));
}

#[test]
fn status_other_than_success_still_parses() {
    let raw = b"HTTP/1.1 404 Not Found\r\nContent-Length: 0\r\n\r\n";
    let response = parse_response(raw).unwrap();
    assert_eq!(response.status, 404);
    assert_eq!(response.content_length, 0);
}
