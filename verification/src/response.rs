use crate::error::Error;
use crate::text::{hex_upper, hex_upper_chars};
use vstd::prelude::*;
use vstd::utf8::encode_utf8;

verus! {

broadcast use vstd::string::group_string_axioms;

/// The size of the response headers, less the server name, that
/// `HttpServer::build_headers` writes for an ordinary response.
pub const HEADER_SIZE_LESS_SERVER_NAME: usize = 94;

/// The same size for a redirect, less the redirect's location.
pub const HEADER_SIZE_LESS_SERVER_NAME_REDIR: usize = 121;

/// What a response holds.
pub struct ResponseState {
    pub server_name: Seq<char>,
    pub headers_written: bool,
    pub headers: Seq<(Seq<char>, Seq<char>)>,
    pub redirect: Option<Seq<char>>,
    pub keep_alive: bool,
    pub chained: bool,
    pub is_async: bool,
    pub buffer: Seq<u8>,
    pub is_complete: bool,
}

/// What the connection's write side is left expecting after a flush.
#[derive(Clone, Copy, PartialEq, Eq, Structural, Debug)]
pub enum CallbackState {
    /// Further data follows in chunks.
    HeadersChunked,
    /// The connection closes after the data.
    HeadersClose,
}

/// What `HttpServer::build_headers` is to be given to write the response headers.
pub struct HeaderRequest {
    /// The room, in bytes, to set aside for the headers.
    pub size_estimate: usize,
    pub keep_alive: bool,
    pub additional_headers: Vec<(String, String)>,
    pub redirect: Option<String>,
}

/// What a flush sends: the headers, when they are due, then the body bytes.
pub struct FlushPlan {
    pub headers: Option<HeaderRequest>,
    pub body: Vec<u8>,
    pub state: CallbackState,
}

/// What completing a response does: a flush, if one is due, then closing the
/// connection if `close` holds.
pub struct CompletePlan {
    pub flush: Option<FlushPlan>,
    pub close: bool,
}

/// The bytes of ASCII text.
pub open spec fn ascii_bytes(s: Seq<char>) -> Seq<u8> {
    s.map_values(|c: char| c as u8)
}

pub open spec fn crlf() -> Seq<u8> {
    seq![13u8, 10u8]
}

/// The bytes that end a chunked body: a zero-length chunk and an empty line.
pub open spec fn last_chunk() -> Seq<u8> {
    seq![48u8, 13u8, 10u8, 13u8, 10u8]
}

/// The body bytes that a flush sends for buffered data `buf`: with keep-alive
/// the data goes as one chunk (its length in upper-case hexadecimal, CRLF, the
/// data, CRLF), followed by the last chunk when the response is complete;
/// without keep-alive the data goes as it is.
pub open spec fn body_bytes(buf: Seq<u8>, keep_alive: bool, complete: bool) -> Seq<u8> {
    let data = if buf.len() > 0 {
        if keep_alive {
            ascii_bytes(hex_upper(buf.len())) + crlf() + buf
        } else {
            buf
        }
    } else {
        Seq::empty()
    };
    let tail = if keep_alive {
        (if buf.len() > 0 {
            crlf()
        } else {
            Seq::empty()
        }) + (if complete {
            last_chunk()
        } else {
            Seq::empty()
        })
    } else {
        Seq::empty()
    };
    data + tail
}

/// The number of bytes in the UTF-8 encoding of `s`, as `str::len` reports it.
pub open spec fn byte_len(s: Seq<char>) -> int {
    (encode_utf8(s).len() as usize) as int
}

/// The room that the additional headers take: name, value and four bytes each.
pub open spec fn headers_size(headers: Seq<(Seq<char>, Seq<char>)>) -> int
    decreases headers.len(),
{
    if headers.len() == 0 {
        0
    } else {
        headers_size(headers.drop_last()) + byte_len(headers.last().0) + byte_len(
            headers.last().1,
        ) + 4
    }
}

/// The room to set aside for a response's headers and the buffered data that
/// follows them: the buffer alone once the headers are written; otherwise the
/// headers' size plus either the redirect's location or the buffer.
pub open spec fn buffer_size(st: ResponseState, buffer_len: int) -> int {
    if st.headers_written {
        buffer_len
    } else if st.redirect is Some {
        byte_len(st.redirect.unwrap()) + headers_size(st.headers)
            + HEADER_SIZE_LESS_SERVER_NAME_REDIR + byte_len(st.server_name)
    } else {
        buffer_len + headers_size(st.headers) + HEADER_SIZE_LESS_SERVER_NAME + byte_len(
            st.server_name,
        )
    }
}

/// A flush would need more room for the headers than a `usize` counts.
pub open spec fn flush_overflows(st: ResponseState) -> bool {
    !st.headers_written && !st.chained && buffer_size(st, st.buffer.len() as int) > usize::MAX
}

/// The response after a flush: its headers are written unless it is chained.
pub open spec fn after_flush(st: ResponseState) -> ResponseState {
    ResponseState { headers_written: st.headers_written || !st.chained, ..st }
}

/// `p` is the flush of a response in state `st`: the headers are asked for
/// when due, with the room for them, the additional headers and the redirect;
/// the body is the framed buffer; the connection then expects chunks when kept
/// alive, and closing otherwise.
pub open spec fn plans_flush(st: ResponseState, p: FlushPlan) -> bool {
    &&& (p.headers is Some <==> !st.headers_written && !st.chained)
    &&& (p.headers matches Some(h) ==> {
        &&& h.size_estimate == buffer_size(st, st.buffer.len() as int)
        &&& h.keep_alive == st.keep_alive
        &&& h.additional_headers@.map_values(|h: (String, String)| (h.0@, h.1@)) == st.headers
        &&& (h.redirect is Some <==> st.redirect is Some)
        &&& (h.redirect matches Some(x) ==> x@ == st.redirect.unwrap())
    })
    &&& p.body@ == body_bytes(st.buffer, st.keep_alive, st.is_complete)
    &&& p.state == (if st.keep_alive {
        CallbackState::HeadersChunked
    } else {
        CallbackState::HeadersClose
    })
}

/// The response that is no longer asynchronous.
pub open spec fn not_async(st: ResponseState) -> ResponseState {
    ResponseState { is_async: false, ..st }
}

/// Completing a response flushes it when it is chained or not asynchronous.
pub open spec fn completion_flushes(st: ResponseState) -> bool {
    st.chained || !st.is_async
}

/// The response as completion marks it: complete, unless it is chained or asynchronous.
pub open spec fn completed(st: ResponseState) -> ResponseState {
    if st.chained || st.is_async {
        st
    } else {
        ResponseState { is_complete: true, ..st }
    }
}

/// Completing the response fails: its flush would overflow.
pub open spec fn completion_fails(st: ResponseState) -> bool {
    completion_flushes(st) && flush_overflows(completed(st))
}

/// `p` completes a response in state `st`, leaving it in state `next`: a
/// chained or synchronous response is flushed as marked, and the connection
/// closes after a synchronous one that is not kept alive; an asynchronous one
/// is left as it is.
pub open spec fn completes(st: ResponseState, next: ResponseState, p: CompletePlan) -> bool {
    if completion_flushes(st) {
        &&& (p.flush matches Some(f) && plans_flush(completed(st), f))
        &&& next == after_flush(completed(st))
        &&& p.close == (!st.chained && !st.keep_alive)
    } else {
        &&& p.flush is None
        &&& !p.close
        &&& next == st
    }
}

/// The response after a header is added, unless the headers are already written.
pub open spec fn with_header(st: ResponseState, name: Seq<char>, value: Seq<char>) -> ResponseState {
    ResponseState { headers: st.headers.push((name, value)), ..st }
}

/// The value of the `Set-Cookie` header for a cookie: `name=value; other`.
pub open spec fn cookie_header_value(name: Seq<char>, value: Seq<char>, other: Seq<char>) -> Seq<
    char,
> {
    name + "="@ + value + "; "@ + other
}

fn string_from(s: &str) -> (r: String)
    ensures
        r@ == s@,
{
    s.to_owned()
}

/// The bytes of `s`, which must be ASCII.
fn ascii_vec(s: &[char]) -> (r: Vec<u8>)
    ensures
        r@ == ascii_bytes(s@),
{
    let mut r: Vec<u8> = Vec::new();
    let mut i: usize = 0;
    while i < s.len()
        invariant
            i <= s@.len(),
            r@ == ascii_bytes(s@.take(i as int)),
        decreases s@.len() - i,
    {
        let c = s[i];
        r.push(c as u8);
        assert(ascii_bytes(s@.take(i + 1)) =~= ascii_bytes(s@.take(i as int)).push(c as u8));
        i = i + 1;
    }
    assert(s@.take(s@.len() as int) =~= s@);
    r
}

fn append_bytes(v: &mut Vec<u8>, data: &[u8])
    ensures
        final(v)@ == old(v)@ + data@,
{
    let mut i: usize = 0;
    while i < data.len()
        invariant
            i <= data@.len(),
            v@ == old(v)@ + data@.take(i as int),
        decreases data@.len() - i,
    {
        v.push(data[i]);
        assert(data@.take(i + 1) =~= data@.take(i as int).push(data@[i as int]));
        i = i + 1;
    }
    assert(data@.take(data@.len() as int) =~= data@);
}

/// The body bytes for buffered data `buf`.
pub fn frame_body(buf: &[u8], keep_alive: bool, complete: bool) -> (r: Vec<u8>)
    ensures
        r@ == body_bytes(buf@, keep_alive, complete),
{
    let mut out: Vec<u8> = Vec::new();
    let n = buf.len();
    if n > 0 {
        if keep_alive {
            let digits = hex_upper_chars(n);
            let hex = ascii_vec(digits.as_slice());
            append_bytes(&mut out, hex.as_slice());
            out.push(13u8);
            out.push(10u8);
        }
        append_bytes(&mut out, buf);
    }
    if keep_alive {
        if n > 0 {
            out.push(13u8);
            out.push(10u8);
        }
        if complete {
            out.push(48u8);
            out.push(13u8);
            out.push(10u8);
            out.push(13u8);
            out.push(10u8);
        }
    }
    assert(out@ =~= body_bytes(buf@, keep_alive, complete));
    out
}

/// The response that a rustlet writes to.
pub struct RustletResponse {
    server_name: String,
    headers_written: bool,
    additional_headers: Vec<(String, String)>,
    redirect: Option<String>,
    keep_alive: bool,
    chained: bool,
    is_async: bool,
    buffer: Vec<u8>,
    is_complete: bool,
}

impl View for RustletResponse {
    type V = ResponseState;

    closed spec fn view(&self) -> ResponseState {
        ResponseState {
            server_name: self.server_name@,
            headers_written: self.headers_written,
            headers: self.additional_headers@.map_values(|h: (String, String)| (h.0@, h.1@)),
            redirect: match self.redirect {
                Some(r) => Some(r@),
                None => None,
            },
            keep_alive: self.keep_alive,
            chained: self.chained,
            is_async: self.is_async,
            buffer: self.buffer@,
            is_complete: self.is_complete,
        }
    }
}

impl RustletResponse {
    /// A fresh response: nothing written, no headers, no redirect, an empty buffer.
    pub fn new(server_name: String, is_async: bool, keep_alive: bool, chained: bool) -> (r: Self)
        ensures
            r@ == (ResponseState {
                server_name: server_name@,
                headers_written: false,
                headers: Seq::empty(),
                redirect: None,
                keep_alive,
                chained,
                is_async,
                buffer: Seq::empty(),
                is_complete: false,
            }),
    {
        let r = RustletResponse {
            server_name,
            headers_written: false,
            additional_headers: Vec::new(),
            redirect: None,
            keep_alive,
            chained,
            is_async,
            buffer: Vec::new(),
            is_complete: false,
        };
        assert(r@.headers =~= Seq::<(Seq<char>, Seq<char>)>::empty());
        r
    }

    fn push_header(&mut self, name: String, value: String)
        ensures
            final(self)@ == with_header(old(self)@, name@, value@),
    {
        let ghost before = self.additional_headers@;
        self.additional_headers.push((name, value));
        assert(self@.headers =~= old(self)@.headers.push((name@, value@)));
    }

    /// Adds a `Set-Cookie` header `name=value; other`; refused once the headers
    /// are written.
    pub fn set_cookie(&mut self, name: &str, value: &str, other: &str) -> (r: Result<(), Error>)
        ensures
            r is Err <==> old(self)@.headers_written,
            r is Err ==> final(self)@ == old(self)@,
            r is Ok ==> final(self)@ == with_header(
                old(self)@,
                "Set-Cookie"@,
                cookie_header_value(name@, value@, other@),
            ),
            r is Err ==> (r matches Err(Error::OrderingError(m)) && m@ == "Headers already written. Cannot set a cookie"@),
    {
        if self.headers_written {
            return Err(Error::OrderingError(string_from("Headers already written. Cannot set a cookie")));
        }
        let mut v = string_from(name);
        v.append("=");
        v.append(value);
        v.append("; ");
        v.append(other);
        self.push_header(string_from("Set-Cookie"), v);
        Ok(())
    }

    pub fn get_headers_written(&self) -> (r: bool)
        ensures
            r == self@.headers_written,
    {
        self.headers_written
    }

    pub fn set_headers_written(&mut self, value: bool)
        ensures
            final(self)@ == (ResponseState { headers_written: value, ..old(self)@ }),
    {
        self.headers_written = value;
    }

    pub fn get_redirect(&self) -> (r: Option<String>)
        ensures
            r is Some <==> self@.redirect is Some,
            r matches Some(s) ==> s@ == self@.redirect.unwrap(),
    {
        match &self.redirect {
            Some(s) => Some(s.clone()),
            None => None,
        }
    }

    /// Redirects the client to `value`; refused once the headers are written.
    pub fn set_redirect(&mut self, value: &str) -> (r: Result<(), Error>)
        ensures
            r is Err <==> old(self)@.headers_written,
            r is Err ==> final(self)@ == old(self)@,
            r is Ok ==> final(self)@ == (ResponseState { redirect: Some(value@), ..old(self)@ }),
            r is Err ==> (r matches Err(Error::OrderingError(m)) && m@ == "headers already written. Cannot set redirect"@),
    {
        if self.headers_written {
            return Err(Error::OrderingError(string_from("headers already written. Cannot set redirect")));
        }
        self.redirect = Some(string_from(value));
        Ok(())
    }

    /// Adds the header `name: value`; refused once the headers are written.
    pub fn add_header(&mut self, name: &str, value: &str) -> (r: Result<(), Error>)
        ensures
            r is Err <==> old(self)@.headers_written,
            r is Err ==> final(self)@ == old(self)@,
            r is Ok ==> final(self)@ == with_header(old(self)@, name@, value@),
            r is Err ==> (r matches Err(Error::OrderingError(m)) && m@ == "headers already written. Cannot add a header"@),
    {
        if self.headers_written {
            return Err(Error::OrderingError(string_from("headers already written. Cannot add a header")));
        }
        self.push_header(string_from(name), string_from(value));
        Ok(())
    }

    /// Adds the header `Content-Type: ctype`; refused once the headers are written.
    pub fn set_content_type(&mut self, ctype: &str) -> (r: Result<(), Error>)
        ensures
            r is Err <==> old(self)@.headers_written,
            r is Err ==> final(self)@ == old(self)@,
            r is Ok ==> final(self)@ == with_header(old(self)@, "Content-Type"@, ctype@),
            r is Err ==> (r matches Err(Error::OrderingError(m)) && m@ == "headers already written. Cannot set content-type"@),
    {
        if self.headers_written {
            return Err(Error::OrderingError(string_from("headers already written. Cannot set content-type")));
        }
        self.push_header(string_from("Content-Type"), string_from(ctype));
        Ok(())
    }

    /// The room to set aside for the headers and `buffer_len` bytes of data;
    /// an error when it does not fit in a `usize`.
    pub fn calculate_buffer_size(&self, buffer_len: usize) -> (r: Result<usize, Error>)
        ensures
            r is Ok <==> buffer_size(self@, buffer_len as int) <= usize::MAX,
            r matches Ok(n) ==> n == buffer_size(self@, buffer_len as int),
    {
        if self.headers_written {
            return Ok(buffer_len);
        }
        let mut total: usize = 0;
        let n = self.additional_headers.len();
        let ghost hv = self@.headers;
        let mut overflow = false;
        for i in 0..n
            invariant
                n == self.additional_headers@.len(),
                hv == self.additional_headers@.map_values(|h: (String, String)| (h.0@, h.1@)),
                !overflow ==> total == headers_size(hv.take(i as int)),
                overflow ==> headers_size(hv.take(i as int)) > usize::MAX,
        {
            assert(hv.take(i + 1).drop_last() =~= hv.take(i as int));
            proof {
                lemma_headers_size_monotone(hv.take(i + 1));
            }
            assert(hv.take(i + 1).last() == hv[i as int]);
            assert(hv[i as int].0 == self.additional_headers@[i as int].0@);
            assert(hv[i as int].1 == self.additional_headers@[i as int].1@);
            if !overflow {
                let a = self.additional_headers[i].0.as_str().len();
                let b = self.additional_headers[i].1.as_str().len();
                assert(a == byte_len(hv[i as int].0));
                assert(b == byte_len(hv[i as int].1));
                match total.checked_add(a) {
                    Some(t1) => match t1.checked_add(b) {
                        Some(t2) => match t2.checked_add(4) {
                            Some(t3) => {
                                total = t3;
                            },
                            None => {
                                overflow = true;
                            },
                        },
                        None => {
                            overflow = true;
                        },
                    },
                    None => {
                        overflow = true;
                    },
                }
            }
        }
        assert(hv.take(n as int) =~= hv);
        if overflow {
            return Err(Error::ApplicationError(string_from("header size overflow")));
        }
        let server_len = self.server_name.as_str().len();
        {
            let first = match &self.redirect {
                Some(r) => r.as_str().len(),
                None => buffer_len,
            };
            let fixed = if self.redirect.is_some() {
                HEADER_SIZE_LESS_SERVER_NAME_REDIR
            } else {
                HEADER_SIZE_LESS_SERVER_NAME
            };
            match first.checked_add(total) {
                Some(s1) => match s1.checked_add(fixed) {
                    Some(s2) => match s2.checked_add(server_len) {
                        Some(s3) => Ok(s3),
                        None => Err(Error::ApplicationError(string_from("header size overflow"))),
                    },
                    None => Err(Error::ApplicationError(string_from("header size overflow"))),
                },
                None => Err(Error::ApplicationError(string_from("header size overflow"))),
            }
        }
    }

    /// Starts a flush: when the headers are still due (not yet written, and the
    /// response is not part of a chained page), marks them written and asks for
    /// them; the buffered data goes out framed as `body_bytes` describes.  The
    /// buffer is emptied by `flushed`, once the bytes are sent.
    pub fn flush(&mut self) -> (r: Result<FlushPlan, Error>)
        ensures
            r is Err <==> flush_overflows(old(self)@),
            r is Err ==> final(self)@ == old(self)@,
            r matches Ok(p) ==> final(self)@ == after_flush(old(self)@) && plans_flush(old(self)@, p),
    {
        let headers = if !self.headers_written && !self.chained {
            let size_estimate = self.calculate_buffer_size(self.buffer.len())?;
            self.headers_written = true;
            let mut copy: Vec<(String, String)> = Vec::new();
            let n = self.additional_headers.len();
            for i in 0..n
                invariant
                    n == self.additional_headers@.len(),
                    copy@.len() == i,
                    forall|j: int|
                        0 <= j < i ==> (#[trigger] copy@[j]).0@ == self.additional_headers@[j].0@
                            && copy@[j].1@ == self.additional_headers@[j].1@,
            {
                copy.push((self.additional_headers[i].0.clone(), self.additional_headers[i].1.clone()));
            }
            assert(copy@.map_values(|h: (String, String)| (h.0@, h.1@)) =~= old(self)@.headers);
            Some(
                HeaderRequest {
                    size_estimate,
                    keep_alive: self.keep_alive,
                    additional_headers: copy,
                    redirect: self.get_redirect(),
                },
            )
        } else {
            None
        };
        let body = frame_body(self.buffer.as_slice(), self.keep_alive, self.is_complete);
        let state = if self.keep_alive {
            CallbackState::HeadersChunked
        } else {
            CallbackState::HeadersClose
        };
        Ok(FlushPlan { headers, body, state })
    }

    /// Ends a flush whose bytes were sent: the buffer is emptied.
    pub fn flushed(&mut self)
        ensures
            final(self)@ == (ResponseState { buffer: Seq::empty(), ..old(self)@ }),
    {
        self.buffer.clear();
    }

    /// Appends `data` to the buffered response body.
    pub fn write(&mut self, data: &[u8]) -> (r: Result<(), Error>)
        ensures
            r is Ok,
            final(self)@ == (ResponseState { buffer: old(self)@.buffer + data@, ..old(self)@ }),
    {
        append_bytes(&mut self.buffer, data);
        Ok(())
    }

    pub fn set_is_async(&mut self, value: bool) -> (r: Result<(), Error>)
        ensures
            r is Ok,
            final(self)@ == (ResponseState { is_async: value, ..old(self)@ }),
    {
        self.is_async = value;
        Ok(())
    }

    /// Completes the response.  A chained response only flushes; an
    /// asynchronous one does nothing; otherwise the response is marked complete,
    /// flushed, and the connection closes unless it is kept alive.
    pub fn complete(&mut self) -> (r: Result<CompletePlan, Error>)
        ensures
            r is Err <==> completion_fails(old(self)@),
            r is Err ==> final(self)@ == completed(old(self)@),
            r matches Ok(p) ==> completes(old(self)@, final(self)@, p),
    {
        if self.chained || self.is_async {
            if self.chained {
                let f = self.flush()?;
                return Ok(CompletePlan { flush: Some(f), close: false });
            }
            return Ok(CompletePlan { flush: None, close: false });
        }
        self.is_complete = true;
        let f = self.flush()?;
        Ok(CompletePlan { flush: Some(f), close: !self.keep_alive })
    }

    /// Completes an asynchronous response: it stops being asynchronous, then
    /// completes as `complete` describes.
    pub fn async_complete(&mut self) -> (r: Result<CompletePlan, Error>)
        ensures
            r is Err <==> completion_fails(not_async(old(self)@)),
            r is Err ==> final(self)@ == completed(not_async(old(self)@)),
            r matches Ok(p) ==> completes(not_async(old(self)@), final(self)@, p),
    {
        let _ = self.set_is_async(false);
        self.complete()
    }
}

proof fn lemma_headers_size_monotone(h: Seq<(Seq<char>, Seq<char>)>)
    ensures
        h.len() > 0 ==> headers_size(h) >= headers_size(h.drop_last()) + 4,
        headers_size(h) >= 0,
    decreases h.len(),
{
    if h.len() > 0 {
        lemma_headers_size_monotone(h.drop_last());
    }
}

} // verus!
