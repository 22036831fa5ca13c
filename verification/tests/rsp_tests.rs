use librustlet::rsp::{is_rsp_path, plan_rsp_chunk, rsp_after_read, rsp_buffer_len, RspOutcome, RspStep};
use librustlet::error::Error;

fn show(steps: &[RspStep]) -> Vec<String> {
    steps
        .iter()
        .map(|s| match s {
            RspStep::Write(b) => format!("W:{}", String::from_utf8_lossy(b)),
            RspStep::Execute(n) => format!("X:{}", n),
            RspStep::Close => "C".to_string(),
        })
        .collect()
}

#[test]
fn rsp_plain_page() {
    let page = b"<html>static</html>";
    let (steps, out) = plan_rsp_chunk(page, page.len() as u64, false);
    assert_eq!(out, RspOutcome::Done);
    assert_eq!(show(&steps), vec!["W:<html>static</html>", "C"]);
}

#[test]
fn rsp_with_rustlets() {
    let page = b"<b><@=header>mid<@=footer>\n";
    let (steps, out) = plan_rsp_chunk(page, page.len() as u64, false);
    assert_eq!(out, RspOutcome::Done);
    assert_eq!(show(&steps), vec!["W:<b>", "X:header", "W:mid", "X:footer", "W:\n", "C"]);
}

#[test]
fn rsp_keep_alive_chunks() {
    let page = b"ab<@=x>cd";
    let (steps, out) = plan_rsp_chunk(page, page.len() as u64, true);
    assert_eq!(out, RspOutcome::Done);
    assert_eq!(show(&steps), vec!["W:2\r\nab\r\n", "X:x", "W:2\r\ncd\r\n0\r\n\r\n"]);
}

#[test]
fn rsp_unterminated_and_stalled() {
    let (steps, out) = plan_rsp_chunk(b"text<@=name", 11, false);
    assert_eq!(out, RspOutcome::Unterminated);
    assert_eq!(show(&steps), vec!["W:text"]);
    // a '>' as the very last byte closes the tag
    let (steps, out) = plan_rsp_chunk(b"text<@=name>", 12, false);
    assert_eq!(out, RspOutcome::Done);
    assert_eq!(show(&steps), vec!["W:text", "X:name", "W:", "C"]);
    // an unclosed tag at the start of the rest makes no progress
    let (_, out) = plan_rsp_chunk(b"<@=name", 7, false);
    assert_eq!(out, RspOutcome::Stalled);
}

#[test]
fn rsp_tag_on_last_byte() {
    let (steps, out) = plan_rsp_chunk(b"x<@=a>", 6, false);
    assert_eq!(out, RspOutcome::Done);
    assert_eq!(show(&steps), vec!["W:x", "X:a", "W:", "C"]);
    let (steps, out) = plan_rsp_chunk(b"x<@=a>", 6, true);
    assert_eq!(out, RspOutcome::Done);
    assert_eq!(show(&steps), vec!["W:1\r\nx\r\n", "X:a", "W:0\r\n\r\n"]);
}

#[test]
fn rsp_keep_alive_empty_text_sends_no_chunk() {
    // the page begins with a tag: no zero-length chunk before the rustlet
    let (steps, out) = plan_rsp_chunk(b"<@=a>bc", 7, true);
    assert_eq!(out, RspOutcome::Done);
    assert_eq!(show(&steps), vec!["X:a", "W:2\r\nbc\r\n0\r\n\r\n"]);
    // two tags in a row
    let (steps, _) = plan_rsp_chunk(b"a<@=x><@=y>b", 12, true);
    assert_eq!(show(&steps), vec!["W:1\r\na\r\n", "X:x", "X:y", "W:1\r\nb\r\n0\r\n\r\n"]);
}

#[test]
fn rsp_invalid_name() {
    let page: &[u8] = &[b'a', b'<', b'@', b'=', 0xff, b'>', b'z'];
    let (steps, out) = plan_rsp_chunk(page, 7, false);
    assert_eq!(out, RspOutcome::InvalidName);
    assert_eq!(show(&steps), vec!["W:a"]);
}

#[test]
fn rsp_sizes_and_paths() {
    assert_eq!(rsp_buffer_len(100).unwrap(), 100);
    assert_eq!(rsp_buffer_len(10485760).unwrap(), 10485760);
    assert!(matches!(rsp_buffer_len(10485761), Err(Error::InvalidRspError(m)) if m == "RSPs are limited to 10485760 bytes."));
    assert!(is_rsp_path("/index.rsp"));
    assert!(is_rsp_path("/INDEX.RSP"));
    assert!(!is_rsp_path("/index.html"));
    assert!(!is_rsp_path("rsp"));
}

#[test]
fn rsp_read_bookkeeping() {
    assert_eq!(rsp_after_read(100, 40), (60, true));
    assert_eq!(rsp_after_read(100, 100), (0, false));
    // an empty read leaves the page unfinished: reading goes on
    assert_eq!(rsp_after_read(100, 0), (100, true));
}
