use librustlet::client::{check_echo, handshake_received, reply_received, ClientTarget, EchoStep};

#[test]
fn chunked_reply_end_is_recognised() {
    let reply = b"HTTP/1.1 200 OK\r\n\r\n5\r\nhello\r\n0\r\n\r\n";
    assert!(reply_received(reply, ClientTarget::Rustlet));
    assert!(!reply_received(&reply[..reply.len() - 1], ClientTarget::Rustlet));
    assert!(!reply_received(reply, ClientTarget::Nginx));
}

#[test]
fn nginx_and_mio_reply_ends() {
    assert!(reply_received(b"<html></html>\n", ClientTarget::Nginx));
    assert!(!reply_received(b"<html></html>", ClientTarget::Nginx));
    assert!(reply_received(b"Hello World\r\nanswer\r\n", ClientTarget::Mio));
    assert!(!reply_received(b"Hello World\r\n", ClientTarget::Mio));
}

#[test]
fn short_reads_are_never_complete() {
    // four bytes end a mio reply, but fewer than five bytes never do
    assert!(!reply_received(b"er\r\n", ClientTarget::Mio));
    assert!(reply_received(b"xer\r\n", ClientTarget::Mio));
    assert!(!reply_received(b"", ClientTarget::Rustlet));
}

#[test]
fn handshake_end_is_found_anywhere() {
    assert!(handshake_received(b"HTTP/1.1 101 Switching\r\nUpgrade: websocket\r\n\r\n"));
    assert!(handshake_received(b"\r\n\r\nrest"));
    assert!(!handshake_received(b"HTTP/1.1 101 Switching\r\n\r"));
    assert!(!handshake_received(b"\r\n\r"));
    assert!(!handshake_received(b""));
}

#[test]
fn echo_in_one_read() {
    let buf = [130u8, 1, 1, 0, 0];
    assert_eq!(check_echo(0, &buf, 3), EchoStep::Done);
    let bad = [130u8, 2, 1, 0, 0];
    assert_eq!(check_echo(0, &bad, 3), EchoStep::InvalidByte);
    assert_eq!(check_echo(0, &buf, 4), EchoStep::TooMuch);
}

#[test]
fn echo_in_pieces() {
    let rest = [1u8, 1, 0];
    assert_eq!(check_echo(1, &rest, 2), EchoStep::Done);
    assert_eq!(check_echo(1, &rest, 1), EchoStep::More(2));
    let last = [1u8, 0, 0];
    assert_eq!(check_echo(2, &last, 1), EchoStep::Done);
    let wrong = [7u8, 0, 0];
    assert_eq!(check_echo(2, &wrong, 1), EchoStep::InvalidByte);
    assert_eq!(check_echo(3, &last, 0), EchoStep::Overrun);
    assert_eq!(check_echo(2, &last, 2), EchoStep::TooMuch);
}
