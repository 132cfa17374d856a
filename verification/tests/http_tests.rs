use l7extract::cursor::ByteCursor;
use l7extract::http::{begins_message, extract_phpid, find_session_id};

fn phpid_of(payload: &[u8]) -> Option<(bool, String)> {
    let mut cursor = ByteCursor::new(payload);
    extract_phpid(&mut cursor).map(|(origin, value)| (origin, value.to_string()))
}

#[test]
fn request_cookie_is_extracted() {
    let payload = b"GET / HTTP/1.1\r\nCookie: PHPSESSID=abc123; foo=bar\r\n\r\n";
    assert_eq!(phpid_of(payload), Some((false, "abc123".to_string())));
}

#[test]
fn response_cookie_is_extracted() {
    let payload = b"HTTP/1.1 200 OK\r\nSet-Cookie: PHPSESSID=zzz\r\n\r\n";
    assert_eq!(phpid_of(payload), Some((true, "zzz".to_string())));
}

#[test]
fn post_request_is_searched() {
    let payload = b"POST /login HTTP/1.1\r\nHost: a\r\nCookie: PHPSESSID=p0st\r\n\r\n";
    assert_eq!(phpid_of(payload), Some((false, "p0st".to_string())));
}

#[test]
fn other_first_lines_give_nothing() {
    assert_eq!(phpid_of(b"PUT / HTTP/1.1\r\nCookie: PHPSESSID=abc\r\n\r\n"), None);
    assert_eq!(phpid_of(b"get / HTTP/1.1\r\nCookie: PHPSESSID=abc\r\n\r\n"), None);
    assert_eq!(phpid_of(b"GET\r\nCookie: PHPSESSID=abc\r\n\r\n"), None);
    assert_eq!(phpid_of(b" GET / HTTP/1.1\r\nCookie: PHPSESSID=abc\r\n\r\n"), None);
    assert_eq!(phpid_of(b"Cookie: PHPSESSID=abc\r\n\r\n"), None);
    assert_eq!(phpid_of(b"\x16\x03\x01\x00\x05hello\n"), None);
    assert_eq!(phpid_of(b""), None);
}

#[test]
fn only_the_first_cookie_header_is_searched() {
    let payload = b"GET / HTTP/1.1\r\nCookie: foo=bar\r\nCookie: PHPSESSID=late\r\n\r\n";
    assert_eq!(phpid_of(payload), None);
    let payload = b"HTTP/1.1 200 OK\r\nSet-Cookie: a=b\r\nSet-Cookie: PHPSESSID=late\r\n\r\n";
    assert_eq!(phpid_of(payload), None);
    let payload = b"GET / HTTP/1.1\r\nCookie: PHPSESSID=first\r\nCookie: PHPSESSID=second\r\n\r\n";
    assert_eq!(phpid_of(payload), Some((false, "first".to_string())));
}

#[test]
fn cookie_after_other_cookies_is_found() {
    let payload = b"GET / HTTP/1.1\r\nCookie: a=1;  b=2 ;PHPSESSID=xyz ; c=3\r\n\r\n";
    assert_eq!(phpid_of(payload), Some((false, "xyz".to_string())));
    let payload = b"GET / HTTP/1.1\r\nCookie: PHPSESSID=one; PHPSESSID=two\r\n\r\n";
    assert_eq!(phpid_of(payload), Some((false, "one".to_string())));
}

#[test]
fn headers_before_the_cookie_are_passed_over() {
    let payload =
        b"GET /index.php HTTP/1.1\r\nHost: example.com\r\nAccept: */*\r\nCookie: PHPSESSID=k9\r\n\r\n";
    assert_eq!(phpid_of(payload), Some((false, "k9".to_string())));
}

#[test]
fn empty_line_ends_the_headers() {
    let payload = b"GET / HTTP/1.1\r\nHost: a\r\n\r\nCookie: PHPSESSID=body\r\n\r\n";
    assert_eq!(phpid_of(payload), None);
    let payload = b"GET / HTTP/1.1\r\n  \t\r\nCookie: PHPSESSID=body\r\n";
    assert_eq!(phpid_of(payload), None);
}

#[test]
fn header_names_are_case_sensitive() {
    assert_eq!(phpid_of(b"GET / HTTP/1.1\r\ncookie: PHPSESSID=abc\r\n\r\n"), None);
    assert_eq!(phpid_of(b"GET / HTTP/1.1\r\nCookie:PHPSESSID=abc\r\n\r\n"), None);
    assert_eq!(phpid_of(b"GET / HTTP/1.1\r\nCookie: phpsessid=abc\r\n\r\n"), None);
}

#[test]
fn lines_may_end_with_a_bare_line_feed() {
    let payload = b"GET / HTTP/1.1\n  Cookie: PHPSESSID=lf  \n\n";
    assert_eq!(phpid_of(payload), Some((false, "lf".to_string())));
}

#[test]
fn empty_session_id_is_a_value() {
    let payload = b"GET / HTTP/1.1\r\nCookie: PHPSESSID=\r\n\r\n";
    assert_eq!(phpid_of(payload), Some((false, String::new())));
}

#[test]
fn session_id_that_is_not_text_gives_nothing() {
    let payload = b"GET / HTTP/1.1\r\nCookie: PHPSESSID=\xff\xfe\r\n\r\n";
    assert_eq!(phpid_of(payload), None);
}

#[test]
fn session_id_may_hold_non_ascii_text() {
    let payload = b"GET / HTTP/1.1\r\nCookie: PHPSESSID=\xc3\xa9\r\n\r\n";
    assert_eq!(phpid_of(payload), Some((false, "\u{e9}".to_string())));
}

#[test]
fn cursor_stops_after_the_cookie_line() {
    let payload = b"GET / HTTP/1.1\r\nCookie: PHPSESSID=abc123; foo=bar\r\n\r\n";
    let mut cursor = ByteCursor::new(payload);
    assert!(extract_phpid(&mut cursor).is_some());
    assert_eq!(cursor.pos(), payload.len() - 2);
    let payload = b"PUT / HTTP/1.1\r\nCookie: PHPSESSID=abc123\r\n\r\n";
    let mut cursor = ByteCursor::new(payload);
    assert!(extract_phpid(&mut cursor).is_none());
    assert_eq!(cursor.pos(), 16);
    let payload = b"no line feed";
    let mut cursor = ByteCursor::new(payload);
    assert!(extract_phpid(&mut cursor).is_none());
    assert_eq!(cursor.pos(), 0);
}

#[test]
fn extraction_starts_at_the_cursor() {
    let payload = b"junk\nGET / HTTP/1.1\r\nCookie: PHPSESSID=mid\r\n\r\n";
    let mut cursor = ByteCursor::new(payload);
    assert_eq!(cursor.skip(5), Ok(()));
    assert_eq!(extract_phpid(&mut cursor), Some((false, "mid")));
}

#[test]
fn truncated_http_payload_gives_nothing() {
    let payload = b"GET / HTTP/1.1\r\nHost: h\r\nCookie: PHPSESSID=abc123; foo=bar\r\n\r\n";
    let end = payload.len() - 2;
    for k in 0..end {
        assert_eq!(phpid_of(&payload[..k]), None);
    }
    for k in end..=payload.len() {
        assert_eq!(phpid_of(&payload[..k]), Some((false, "abc123".to_string())));
    }
}

#[test]
fn payload_not_starting_a_message_gives_nothing() {
    let payloads: [&[u8]; 6] = [
        b"HEAD / HTTP/1.1\r\nCookie: PHPSESSID=a\r\n\r\n",
        b"GET\t/ HTTP/1.1\r\nCookie: PHPSESSID=a\r\n\r\n",
        b"POST/ HTTP/1.1\r\nCookie: PHPSESSID=a\r\n\r\n",
        b"HTTP 200\r\nSet-Cookie: PHPSESSID=a\r\n\r\n",
        b"\r\nGET / HTTP/1.1\r\nCookie: PHPSESSID=a\r\n\r\n",
        b"\n",
    ];
    for payload in payloads {
        assert_eq!(phpid_of(payload), None);
    }
}

#[test]
fn begins_message_knows_the_three_starts() {
    assert!(begins_message(b"GET / HTTP/1.1\r"));
    assert!(begins_message(b"POST / HTTP/1.1\r"));
    assert!(begins_message(b"HTTP/1.1 200 OK\r"));
    assert!(begins_message(b"GET "));
    assert!(!begins_message(b"GET"));
    assert!(!begins_message(b"POST"));
    assert!(!begins_message(b"HTTP"));
    assert!(!begins_message(b"DELETE / HTTP/1.1"));
    assert!(!begins_message(b""));
}

#[test]
fn find_session_id_splits_on_semicolons() {
    assert_eq!(find_session_id(b"PHPSESSID=abc"), Some(&b"abc"[..]));
    assert_eq!(find_session_id(b"a=b; PHPSESSID=abc; c=d"), Some(&b"abc"[..]));
    assert_eq!(find_session_id(b"a=b;PHPSESSID=a b ;"), Some(&b"a b"[..]));
    assert_eq!(find_session_id(b"a=b; c=d"), None);
    assert_eq!(find_session_id(b""), None);
    assert_eq!(find_session_id(b";;;"), None);
    assert_eq!(find_session_id(b"xPHPSESSID=abc"), None);
    assert_eq!(find_session_id(b"a=PHPSESSID=abc"), None);
}
