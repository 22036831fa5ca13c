use crate::error::Error;
use crate::response::{ascii_bytes, crlf};
use crate::text::{chars_of, chars_of_utf8, hex_upper, hex_upper_chars, string_of};
use vstd::prelude::*;
use vstd::utf8::{decode_utf8, valid_utf8};

verus! {

/// The largest RSP page, in bytes.
pub const MAX_CHUNK_SIZE: usize = 10485760;

/// The room that the read buffer keeps past an RSP page.
pub const MAX_ESCAPE_SEQUENCE: usize = 100;

/// One thing to do while serving an RSP page.
pub enum RspStep {
    /// Send these bytes.
    Write(Vec<u8>),
    /// Run the rustlet of this name, chained into the page.
    Execute(String),
    /// Close the connection.
    Close,
}

/// An `RspStep` as a value.
pub enum RspStepView {
    Write(Seq<u8>),
    Execute(Seq<char>),
    Close,
}

impl View for RspStep {
    type V = RspStepView;

    open spec fn view(&self) -> RspStepView {
        match self {
            RspStep::Write(b) => RspStepView::Write(b@),
            RspStep::Execute(n) => RspStepView::Execute(n@),
            RspStep::Close => RspStepView::Close,
        }
    }
}

/// How serving a piece of an RSP page ends.
#[derive(Clone, Copy, PartialEq, Eq, Structural, Debug)]
pub enum RspOutcome {
    /// The piece was served.
    Done,
    /// A `<@=` has no closing `>`.
    Unterminated,
    /// The name between `<@=` and `>` is not valid UTF-8.
    InvalidName,
    /// A `<@=` with no closing `>` begins the rest of the piece: the scan makes
    /// no more progress, and scanning on would never end.
    Stalled,
}

/// `<@=` ends at `i`.
pub open spec fn escape_ends_at(b: Seq<u8>, i: int) -> bool {
    2 <= i < b.len() && b[i - 2] == 60 && b[i - 1] == 64 && b[i] == 61
}

/// The first `i >= from` where a `<@=` ends.
pub open spec fn find_escape(b: Seq<u8>, from: int) -> Option<int>
    decreases b.len() - from,
{
    if from >= b.len() {
        None
    } else if from >= 0 && escape_ends_at(b, from) {
        Some(from)
    } else {
        find_escape(b, from + 1)
    }
}

/// The first `i` in `[from, to)` holding `>`.
pub open spec fn find_close(b: Seq<u8>, from: int, to: int) -> Option<int>
    decreases to - from,
{
    if from >= to {
        None
    } else if 0 <= from < b.len() && b[from] == 62 {
        Some(from)
    } else {
        find_close(b, from + 1, to)
    }
}

/// Where the text that starts at `start` ends: at the next `<@=`, else at the
/// end of the piece.
pub open spec fn text_end(b: Seq<u8>, start: int) -> int {
    match find_escape(b, start + 2) {
        Some(i) => i - 2,
        None => b.len() as int,
    }
}

/// What sending the text `b[start..end]` does: with keep-alive, one chunk when
/// the text is not empty (an empty text sends no chunk), the last chunk
/// following when the page's remaining length `flen` does not exceed `end`;
/// without keep-alive, the bytes, then closing when `flen <= end`.
pub open spec fn text_steps(b: Seq<u8>, start: int, end: int, flen: int, keep_alive: bool) -> Seq<
    RspStepView,
> {
    let text = b.subrange(start, end);
    if keep_alive {
        if end > start {
            seq![
                RspStepView::Write(
                    ascii_bytes(hex_upper((end - start) as nat)) + crlf() + text + (if flen <= end {
                        seq![13u8, 10u8, 48u8, 13u8, 10u8, 13u8, 10u8]
                    } else {
                        crlf()
                    }),
                ),
            ]
        } else if flen <= end {
            seq![RspStepView::Write(seq![48u8, 13u8, 10u8, 13u8, 10u8])]
        } else {
            seq![]
        }
    } else if flen <= end {
        seq![RspStepView::Write(text), RspStepView::Close]
    } else {
        seq![RspStepView::Write(text)]
    }
}

/// Serving the piece `b` of an RSP page from `start` on, when `flen` bytes of
/// the page were still unread before the piece: text up to each `<@=name>` is
/// sent, then the rustlet `name` is run.
pub open spec fn rsp_plan(b: Seq<u8>, start: int, flen: int, keep_alive: bool) -> (Seq<RspStepView>, RspOutcome)
    decreases b.len() - start,
    when 0 <= start <= b.len()
{
    let end = text_end(b, start);
    let steps = text_steps(b, start, end, flen, keep_alive);
    if end == b.len() {
        (steps, RspOutcome::Done)
    } else {
        match find_close(b, end + 3, b.len() as int) {
            Some(i) => {
                let name = b.subrange(end + 3, i);
                if !valid_utf8(name) {
                    (steps, RspOutcome::InvalidName)
                } else if 0 <= i + 1 <= b.len() && i + 1 > start {
                    let rest = rsp_plan(b, i + 1, flen, keep_alive);
                    (steps + seq![RspStepView::Execute(decode_utf8(name))] + rest.0, rest.1)
                } else {
                    (steps, RspOutcome::Done)
                }
            },
            None => if start < end {
                (steps, RspOutcome::Unterminated)
            } else {
                (steps, RspOutcome::Stalled)
            },
        }
    }
}

proof fn lemma_find_escape_bounds(b: Seq<u8>, from: int)
    ensures
        find_escape(b, from) matches Some(i) ==> from <= i < b.len() && i >= 2 && escape_ends_at(
            b,
            i,
        ),
    decreases b.len() - from,
{
    if from < b.len() && !(from >= 0 && escape_ends_at(b, from)) {
        lemma_find_escape_bounds(b, from + 1);
    }
}

proof fn lemma_find_close_bounds(b: Seq<u8>, from: int, to: int)
    ensures
        find_close(b, from, to) matches Some(i) ==> from <= i < to && 0 <= i < b.len() && b[i]
            == 62,
    decreases to - from,
{
    if from < to && !(0 <= from < b.len() && b[from] == 62) {
        lemma_find_close_bounds(b, from + 1, to);
    }
}

/// Finds where the text that starts at `start` ends.
fn scan_text_end(b: &[u8], start: usize) -> (end: usize)
    requires
        start <= b@.len(),
    ensures
        end == text_end(b@, start as int),
        start <= end <= b@.len(),
{
    proof {
        lemma_find_escape_bounds(b@, start + 2);
    }
    if b.len() - start < 2 {
        return b.len();
    }
    let mut i = start + 2;
    while i < b.len()
        invariant
            start + 2 <= i <= b@.len(),
            find_escape(b@, start + 2) == find_escape(b@, i as int),
        decreases b@.len() - i,
    {
        if b[i] == 61 && b[i - 1] == 64 && b[i - 2] == 60 {
            return i - 2;
        }
        i = i + 1;
    }
    b.len()
}

/// Finds the first `>` in `b[from..to]`.
fn scan_close(b: &[u8], from: usize, to: usize) -> (r: Option<usize>)
    requires
        to <= b@.len(),
    ensures
        r matches Some(i) ==> find_close(b@, from as int, to as int) == Some(i as int),
        r is None ==> find_close(b@, from as int, to as int) is None,
{
    proof {
        lemma_find_close_bounds(b@, from as int, to as int);
    }
    let mut i = from;
    while i < to
        invariant
            from <= i,
            to <= b@.len(),
            i >= to ==> find_close(b@, from as int, to as int) == find_close(
                b@,
                i as int,
                to as int,
            ),
            i < to ==> find_close(b@, from as int, to as int) == find_close(
                b@,
                i as int,
                to as int,
            ),
        decreases to - i,
    {
        if b[i] == 62 {
            return Some(i);
        }
        i = i + 1;
    }
    None
}

fn copy_bytes(b: &[u8], from: usize, to: usize) -> (r: Vec<u8>)
    requires
        from <= to <= b@.len(),
    ensures
        r@ == b@.subrange(from as int, to as int),
{
    let mut r: Vec<u8> = Vec::new();
    let mut i = from;
    while i < to
        invariant
            from <= i <= to <= b@.len(),
            r@ == b@.subrange(from as int, i as int),
        decreases to - i,
    {
        r.push(b[i]);
        i = i + 1;
    }
    r
}

/// The steps that send the text `b[start..end]`.
fn text_steps_exec(b: &[u8], start: usize, end: usize, flen: u64, keep_alive: bool) -> (r: Vec<
    RspStep,
>)
    requires
        start <= end <= b@.len(),
    ensures
        r@.map_values(|s: RspStep| s@) == text_steps(
            b@,
            start as int,
            end as int,
            flen as int,
            keep_alive,
        ),
{
    let mut steps: Vec<RspStep> = Vec::new();
    let text = copy_bytes(b, start, end);
    let last = (flen as u128) <= (end as u128);
    if keep_alive && end == start {
        if last {
            let mut out: Vec<u8> = Vec::new();
            out.push(48u8);
            out.push(13u8);
            out.push(10u8);
            out.push(13u8);
            out.push(10u8);
            assert(out@ =~= seq![48u8, 13u8, 10u8, 13u8, 10u8]);
            steps.push(RspStep::Write(out));
        }
    } else if keep_alive {
        let digits = hex_upper_chars(end - start);
        let mut out: Vec<u8> = Vec::new();
        let mut i: usize = 0;
        while i < digits.len()
            invariant
                i <= digits@.len(),
                out@ == ascii_bytes(digits@.take(i as int)),
            decreases digits@.len() - i,
        {
            out.push(digits[i] as u8);
            assert(ascii_bytes(digits@.take(i + 1)) =~= ascii_bytes(digits@.take(i as int)).push(
                digits@[i as int] as u8,
            ));
            i = i + 1;
        }
        assert(digits@.take(digits@.len() as int) =~= digits@);
        out.push(13u8);
        out.push(10u8);
        let mut j: usize = 0;
        let ghost head = out@;
        while j < text.len()
            invariant
                j <= text@.len(),
                out@ == head + text@.take(j as int),
            decreases text@.len() - j,
        {
            out.push(text[j]);
            assert(text@.take(j + 1) =~= text@.take(j as int).push(text@[j as int]));
            j = j + 1;
        }
        assert(text@.take(text@.len() as int) =~= text@);
        let ghost body = out@;
        assert(body =~= ascii_bytes(hex_upper((end - start) as nat)) + crlf() + text@);
        if last {
            out.push(13u8);
            out.push(10u8);
            out.push(48u8);
            out.push(13u8);
            out.push(10u8);
            out.push(13u8);
            out.push(10u8);
            assert(out@ =~= body + seq![13u8, 10u8, 48u8, 13u8, 10u8, 13u8, 10u8]);
        } else {
            out.push(13u8);
            out.push(10u8);
            assert(out@ =~= body + crlf());
        }
        steps.push(RspStep::Write(out));
    } else {
        steps.push(RspStep::Write(text));
        if last {
            steps.push(RspStep::Close);
        }
    }
    assert(steps@.map_values(|s: RspStep| s@) =~= text_steps(
        b@,
        start as int,
        end as int,
        flen as int,
        keep_alive,
    ));
    steps
}

/// Plans serving the piece `b` of an RSP page, when `flen` bytes of the page
/// were still unread before it: the steps to take, in order, and how it ends.
pub fn plan_rsp_chunk(b: &[u8], flen: u64, keep_alive: bool) -> (r: (Vec<RspStep>, RspOutcome))
    ensures
        r.0@.map_values(|s: RspStep| s@) == rsp_plan(b@, 0, flen as int, keep_alive).0,
        r.1 == rsp_plan(b@, 0, flen as int, keep_alive).1,
{
    let mut steps: Vec<RspStep> = Vec::new();
    let mut start: usize = 0;
    loop
        invariant
            start <= b@.len(),
            rsp_plan(b@, 0, flen as int, keep_alive).0 == steps@.map_values(|s: RspStep| s@)
                + rsp_plan(b@, start as int, flen as int, keep_alive).0,
            rsp_plan(b@, 0, flen as int, keep_alive).1 == rsp_plan(
                b@,
                start as int,
                flen as int,
                keep_alive,
            ).1,
        decreases b@.len() - start,
    {
        let ghost before = steps@.map_values(|s: RspStep| s@);
        let end = scan_text_end(b, start);
        let mut seg = text_steps_exec(b, start, end, flen, keep_alive);
        let ghost segv = seg@.map_values(|s: RspStep| s@);
        steps.append(&mut seg);
        assert(steps@.map_values(|s: RspStep| s@) =~= before + segv);
        if end == b.len() {
            assert(rsp_plan(b@, start as int, flen as int, keep_alive).0 == segv);
            return (steps, RspOutcome::Done);
        }
        proof {
            lemma_find_escape_bounds(b@, start + 2);
        }
        let close = scan_close(b, end + 3, b.len());
        proof {
            lemma_find_close_bounds(b@, end + 3, b@.len() as int);
        }
        match close {
            Some(i) => {
                match chars_of_utf8(&b[end + 3..i]) {
                    Some(name) => {
                        let ghost nv = name@;
                        let s = string_of(name.as_slice());
                        let ghost with_exec = steps@.map_values(|s: RspStep| s@);
                        steps.push(RspStep::Execute(s));
                        assert(steps@.map_values(|s: RspStep| s@) =~= with_exec.push(
                            RspStepView::Execute(nv),
                        ));
                        assert(rsp_plan(b@, start as int, flen as int, keep_alive).0 == segv
                            + seq![RspStepView::Execute(nv)] + rsp_plan(
                            b@,
                            i + 1,
                            flen as int,
                            keep_alive,
                        ).0);
                        assert(steps@.map_values(|s: RspStep| s@) + rsp_plan(
                            b@,
                            i + 1,
                            flen as int,
                            keep_alive,
                        ).0 =~= before + rsp_plan(b@, start as int, flen as int, keep_alive).0);
                        start = i + 1;
                    },
                    None => {
                        return (steps, RspOutcome::InvalidName);
                    },
                }
            },
            None => {
                if start < end {
                    return (steps, RspOutcome::Unterminated);
                } else {
                    return (steps, RspOutcome::Stalled);
                }
            },
        }
    }
}

/// The size of the buffer to read an RSP page of `flen` bytes into: the whole
/// page, refused over `MAX_CHUNK_SIZE`; a length beyond `usize` reads in
/// pieces of `MAX_CHUNK_SIZE`.
pub fn rsp_buffer_len(flen: u64) -> (r: Result<usize, Error>)
    ensures
        flen as int <= usize::MAX ==> (r is Ok <==> flen <= MAX_CHUNK_SIZE),
        flen as int <= usize::MAX && flen <= MAX_CHUNK_SIZE ==> r == Ok::<usize, Error>(
            flen as usize,
        ),
        flen as int > usize::MAX ==> r == Ok::<usize, Error>(MAX_CHUNK_SIZE),
        r is Err ==> (r matches Err(Error::InvalidRspError(m)) && m@
            == "RSPs are limited to 10485760 bytes."@),
{
    if (flen as u128) > (usize::MAX as u128) {
        Ok(MAX_CHUNK_SIZE)
    } else if (flen as usize) > MAX_CHUNK_SIZE {
        Err(Error::InvalidRspError("RSPs are limited to 10485760 bytes.".to_owned()))
    } else {
        Ok(flen as usize)
    }
}

/// After a read of `amt` bytes of an RSP page that had `flen` bytes unread
/// (a read never returns more than is left): the bytes still unread, and
/// whether to read again (some remain).
pub fn rsp_after_read(flen: u64, amt: usize) -> (r: (u64, bool))
    requires
        amt <= flen,
    ensures
        r.0 == flen - amt,
        r.1 == (r.0 > 0),
{
    let rest: u64 = flen - amt as u64;
    (rest, rest > 0)
}

/// A URI that names an RSP page: it ends in `.rsp`, in any case (as
/// `uri.to_lowercase().ends_with(".rsp")` decides; no character other than
/// these letters' upper-case forms lower-cases to them).
pub open spec fn is_rsp_uri(uri: Seq<char>) -> bool {
    let n = uri.len();
    &&& n >= 4
    &&& uri[n - 4] == '.'
    &&& (uri[n - 3] == 'r' || uri[n - 3] == 'R')
    &&& (uri[n - 2] == 's' || uri[n - 2] == 'S')
    &&& (uri[n - 1] == 'p' || uri[n - 1] == 'P')
}

pub fn is_rsp_path(uri: &str) -> (r: bool)
    ensures
        r == is_rsp_uri(uri@),
{
    let c = chars_of(uri);
    let n = c.len();
    n >= 4 && c[n - 4] == '.' && (c[n - 3] == 'r' || c[n - 3] == 'R') && (c[n - 2] == 's' || c[n
        - 2] == 'S') && (c[n - 1] == 'p' || c[n - 1] == 'P')
}

} // verus!
