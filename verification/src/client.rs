use vstd::prelude::*;

verus! {

/// The server that the load-test client talks to; it decides how the end of
/// a reply is recognised.
#[derive(Clone, Copy, PartialEq, Eq, Structural, Debug)]
pub enum ClientTarget {
    /// nginx serving its default page: a reply ends with `tml>\n`.
    Nginx,
    /// A plain mio server: a reply ends with `er\r\n`.
    Mio,
    /// The rustlet server: a chunked reply ends with `0\r\n\r\n`.
    Rustlet,
}

/// The bytes that end a complete reply from `target`.
pub open spec fn reply_suffix(target: ClientTarget) -> Seq<u8> {
    match target {
        ClientTarget::Nginx => seq![116u8, 109u8, 108u8, 62u8, 10u8],
        ClientTarget::Mio => seq![101u8, 114u8, 13u8, 10u8],
        ClientTarget::Rustlet => seq![48u8, 13u8, 10u8, 13u8, 10u8],
    }
}

/// `b` ends with `suffix`.
pub open spec fn ends_with(b: Seq<u8>, suffix: Seq<u8>) -> bool {
    suffix.len() <= b.len() && b.subrange(b.len() - suffix.len(), b.len() as int) == suffix
}

/// What has been read holds a complete reply: at least five bytes, ending
/// with the target's suffix.
pub open spec fn reply_complete(b: Seq<u8>, target: ClientTarget) -> bool {
    b.len() >= 5 && ends_with(b, reply_suffix(target))
}

/// The four bytes `\r\n\r\n` that end an HTTP head.
pub open spec fn head_end() -> Seq<u8> {
    seq![13u8, 10u8, 13u8, 10u8]
}

/// `b` holds `\r\n\r\n` somewhere.
pub open spec fn holds_head_end(b: Seq<u8>) -> bool {
    exists|i: int| 0 <= i && i + 4 <= b.len() && #[trigger] b.subrange(i, i + 4) == head_end()
}

fn suffix_bytes(target: ClientTarget) -> (r: Vec<u8>)
    ensures
        r@ == reply_suffix(target),
{
    match target {
        ClientTarget::Nginx => vec![116u8, 109u8, 108u8, 62u8, 10u8],
        ClientTarget::Mio => vec![101u8, 114u8, 13u8, 10u8],
        ClientTarget::Rustlet => vec![48u8, 13u8, 10u8, 13u8, 10u8],
    }
}

/// Tells whether `received`, all that was read for one request so far, is a
/// complete reply from `target`.
pub fn reply_received(received: &[u8], target: ClientTarget) -> (r: bool)
    ensures
        r == reply_complete(received@, target),
{
    let suffix = suffix_bytes(target);
    let n = received.len();
    let k = suffix.len();
    if n < 5 {
        return false;
    }
    let start = n - k;
    let mut i: usize = 0;
    while i < k
        invariant
            k == suffix@.len(),
            suffix@ == reply_suffix(target),
            k <= 5 <= n,
            n == received@.len(),
            start == n - k,
            i <= k,
            forall|j: int| 0 <= j < i ==> received@[start + j] == suffix@[j],
        decreases k - i,
    {
        if received[start + i] != suffix[i] {
            proof {
                assert(received@.subrange(start as int, n as int)[i as int] != suffix@[i as int]);
                assert(received@.subrange(start as int, n as int) != suffix@);
            }
            return false;
        }
        i = i + 1;
    }
    assert(received@.subrange(start as int, n as int) =~= suffix@);
    true
}

/// Tells whether `received` holds the `\r\n\r\n` that ends an HTTP head,
/// the end of a websocket handshake's reply.
pub fn handshake_received(received: &[u8]) -> (r: bool)
    ensures
        r == holds_head_end(received@),
{
    let n = received.len();
    let mut i: usize = 0;
    while n >= 4 && i <= n - 4
        invariant
            n == received@.len(),
            i <= n,
            forall|j: int| 0 <= j < i && j + 4 <= n ==> #[trigger] received@.subrange(j, j + 4)
                != head_end(),
        decreases n - i,
    {
        if received[i] == 13 && received[i + 1] == 10 && received[i + 2] == 13 && received[i + 3]
            == 10 {
            assert(received@.subrange(i as int, i + 4) =~= head_end());
            return true;
        }
        assert(received@.subrange(i as int, i + 4)[0] == received@[i as int]);
        assert(received@.subrange(i as int, i + 4)[1] == received@[i + 1]);
        assert(received@.subrange(i as int, i + 4)[2] == received@[i + 2]);
        assert(received@.subrange(i as int, i + 4)[3] == received@[i + 3]);
        i = i + 1;
    }
    false
}

/// What the load-test client makes of one read of a websocket echo.
#[derive(Clone, Copy, PartialEq, Eq, Structural, Debug)]
pub enum EchoStep {
    /// The echo is complete.
    Done,
    /// More bytes are owed; this many have arrived.
    More(usize),
    /// More than the three bytes of the echo arrived.
    TooMuch,
    /// A byte differs from the echo `[130, 1, 1]`.
    InvalidByte,
    /// Three bytes had arrived already.
    Overrun,
}

/// What one read of `len` bytes into `buf` means, when `total` bytes of the
/// echo `[130, 1, 1]` had arrived before it. The first read is checked
/// against the whole echo and ends the wait either way.
pub open spec fn echo_step(total: int, buf: Seq<u8>, len: int) -> EchoStep {
    if total + len > 3 {
        EchoStep::TooMuch
    } else if total == 0 {
        if buf[0] != 130 || buf[1] != 1 || buf[2] != 1 {
            EchoStep::InvalidByte
        } else {
            EchoStep::Done
        }
    } else if total == 1 {
        if buf[0] != 1 || buf[1] != 1 {
            EchoStep::InvalidByte
        } else if total + len >= 3 {
            EchoStep::Done
        } else {
            EchoStep::More((total + len) as usize)
        }
    } else if total == 2 {
        if buf[0] != 1 {
            EchoStep::InvalidByte
        } else if total + len >= 3 {
            EchoStep::Done
        } else {
            EchoStep::More((total + len) as usize)
        }
    } else {
        EchoStep::Overrun
    }
}

/// Judges one read of the websocket echo (see `echo_step`); `buf` is the
/// whole read buffer and `len` the bytes this read put at its start.
pub fn check_echo(total: usize, buf: &[u8], len: usize) -> (r: EchoStep)
    requires
        buf.len() >= 3,
        len <= buf.len(),
    ensures
        r == echo_step(total as int, buf@, len as int),
{
    if total > 3 || len > 3 - total {
        EchoStep::TooMuch
    } else if total == 0 {
        if buf[0] != 130 || buf[1] != 1 || buf[2] != 1 {
            EchoStep::InvalidByte
        } else {
            EchoStep::Done
        }
    } else if total == 1 {
        if buf[0] != 1 || buf[1] != 1 {
            EchoStep::InvalidByte
        } else if total + len >= 3 {
            EchoStep::Done
        } else {
            EchoStep::More(total + len)
        }
    } else if total == 2 {
        if buf[0] != 1 {
            EchoStep::InvalidByte
        } else if total + len >= 3 {
            EchoStep::Done
        } else {
            EchoStep::More(total + len)
        }
    } else {
        EchoStep::Overrun
    }
}

} // verus!
