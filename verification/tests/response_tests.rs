use librustlet::error::Error;
use librustlet::response::{frame_body, CallbackState, RustletResponse};

fn response(keep_alive: bool, chained: bool) -> RustletResponse {
    RustletResponse::new("Rustlet Httpd".to_string(), false, keep_alive, chained)
}

#[test]
fn chunk_framing() {
    assert_eq!(frame_body(b"hello", true, false), b"5\r\nhello\r\n".to_vec());
    assert_eq!(frame_body(b"hello", true, true), b"5\r\nhello\r\n0\r\n\r\n".to_vec());
    assert_eq!(frame_body(b"", true, true), b"0\r\n\r\n".to_vec());
    assert_eq!(frame_body(b"", true, false), Vec::<u8>::new());
    assert_eq!(frame_body(b"hello", false, true), b"hello".to_vec());
    let big = vec![b'x'; 255];
    let framed = frame_body(&big, true, false);
    assert_eq!(&framed[0..4], b"FF\r\n");
    assert_eq!(framed.len(), 4 + 255 + 2);
}

#[test]
fn headers_then_flush() {
    let mut r = response(true, false);
    r.set_cookie("abc", "def", "").unwrap();
    r.add_header("my_header", "ok").unwrap();
    r.set_content_type("text/plain").unwrap();
    r.write(b"data").unwrap();
    let plan = r.flush().unwrap();
    let h = plan.headers.expect("headers due");
    assert_eq!(h.additional_headers.len(), 3);
    assert_eq!(h.additional_headers[0], ("Set-Cookie".to_string(), "abc=def; ".to_string()));
    assert_eq!(h.additional_headers[2], ("Content-Type".to_string(), "text/plain".to_string()));
    assert!(h.keep_alive);
    assert_eq!(h.redirect, None);
    // 4 data + (10+9+4) + (9+2+4) + (12+10+4) + 94 + 13
    assert_eq!(h.size_estimate, 4 + 23 + 15 + 26 + 94 + 13);
    assert_eq!(plan.body, b"4\r\ndata\r\n".to_vec());
    assert_eq!(plan.state, CallbackState::HeadersChunked);
    r.flushed();
    assert!(r.get_headers_written());
    // once written, headers cannot change
    assert!(matches!(r.add_header("a", "b"),
        Err(Error::OrderingError(m)) if m == "headers already written. Cannot add a header"));
    assert!(matches!(r.set_cookie("a", "b", "c"),
        Err(Error::OrderingError(m)) if m == "Headers already written. Cannot set a cookie"));
    assert!(matches!(r.set_redirect("http://x"),
        Err(Error::OrderingError(m)) if m == "headers already written. Cannot set redirect"));
    assert!(matches!(r.set_content_type("x"),
        Err(Error::OrderingError(m)) if m == "headers already written. Cannot set content-type"));
    // a second flush sends only the new data
    r.write(b"more").unwrap();
    let plan = r.flush().unwrap();
    assert!(plan.headers.is_none());
    assert_eq!(plan.body, b"4\r\nmore\r\n".to_vec());
}

#[test]
fn redirect_size() {
    let mut r = response(false, false);
    r.set_redirect("http://www.disney.com").unwrap();
    assert_eq!(r.get_redirect(), Some("http://www.disney.com".to_string()));
    assert_eq!(r.calculate_buffer_size(1000).unwrap(), 21 + 121 + 13);
}

#[test]
fn complete_closes_without_keep_alive() {
    let mut r = response(false, false);
    r.write(b"x").unwrap();
    let p = r.complete().unwrap();
    assert!(p.close);
    let f = p.flush.unwrap();
    assert_eq!(f.body, b"x".to_vec());
    assert_eq!(f.state, CallbackState::HeadersClose);
}

#[test]
fn complete_keep_alive_sends_last_chunk() {
    let mut r = response(true, false);
    r.write(b"abc").unwrap();
    let p = r.complete().unwrap();
    assert!(!p.close);
    assert_eq!(p.flush.unwrap().body, b"3\r\nabc\r\n0\r\n\r\n".to_vec());
}

#[test]
fn complete_async_and_chained() {
    let mut r = RustletResponse::new("s".to_string(), true, true, false);
    let p = r.complete().unwrap();
    assert!(p.flush.is_none());
    assert!(!p.close);
    let p = r.async_complete().unwrap();
    assert!(p.flush.is_some());
    let mut c = response(true, true);
    c.write(b"zz").unwrap();
    let p = c.complete().unwrap();
    let f = p.flush.unwrap();
    assert!(f.headers.is_none());
    assert_eq!(f.body, b"2\r\nzz\r\n".to_vec());
    assert!(!p.close);
}
