use crate::container::random_id;
use crate::error::Error;
use crate::request::{cookie_value, RustletRequest};
use crate::response::{
    body_bytes, cookie_header_value, frame_body, last_chunk, with_header, RustletResponse,
};
use crate::text::{chars_of, decimal, decimal_string, parse_decimal, parse_decimal_chars};
use vstd::prelude::*;
use vstd::utf8::encode_utf8;

verus! {

broadcast use vstd::string::group_string_axioms;

/// The session id that a request runs under: the id that its
/// `rustletsessionid` cookie holds, when that reads as a `u128`, else `fresh`.
pub open spec fn session_id_of(cookie: Option<Seq<char>>, fresh: u128) -> u128 {
    match cookie {
        Some(c) => match parse_decimal(c, u128::MAX as int) {
            Some(v) => v as u128,
            None => fresh,
        },
        None => fresh,
    }
}

/// The session id for a request whose session cookie is `cookie`, with `fresh`
/// as the new id when there is no usable cookie.
pub fn choose_session_id(cookie: &Option<String>, fresh: u128) -> (r: u128)
    ensures
        r == session_id_of(
            match cookie {
                Some(c) => Some(c@),
                None => None,
            },
            fresh,
        ),
{
    match cookie {
        Some(c) => {
            let chars = chars_of(c.as_str());
            match parse_decimal_chars(chars.as_slice(), u128::MAX) {
                Some(v) => v,
                None => fresh,
            }
        },
        None => fresh,
    }
}

/// Gives `request` its session, with `fresh` as the id of a new one: the id
/// from its `rustletsessionid` cookie, else `fresh`, in which case the response
/// sets the cookie `rustletsessionid=<fresh>; path=/`.
pub fn assign_session_with(
    request: &mut RustletRequest,
    response: &mut RustletResponse,
    fresh: u128,
) -> (r: Result<(), Error>)
    requires
        old(request).wf(),
    ensures
        final(request).wf(),
        ({
            let sid = session_id_of(
                cookie_value(old(request).header_map_view(), "rustletsessionid"@),
                fresh,
            );
            &&& sid != fresh ==> r is Ok && final(response)@ == old(response)@
                && final(request).session_id_view() == sid
            &&& sid == fresh ==> (r is Err <==> old(response)@.headers_written)
            &&& sid == fresh && r is Ok ==> final(request).session_id_view() == sid && final(response)@ == with_header(
                old(response)@,
                "Set-Cookie"@,
                cookie_header_value("rustletsessionid"@, decimal(fresh as nat), "path=/"@),
            )
            &&& r is Err ==> final(response)@ == old(response)@
        }),
        final(request).headers_view() == old(request).headers_view(),
        final(request).query_view() == old(request).query_view(),
        final(request).uri_view() == old(request).uri_view(),
        final(request).content_view() == old(request).content_view(),
{
    let cookie = match request.get_cookie("rustletsessionid") {
        Ok(c) => c,
        Err(_) => None,
    };
    let sid = choose_session_id(&cookie, fresh);
    if sid == fresh {
        let value = decimal_string(fresh);
        response.set_cookie("rustletsessionid", value.as_str(), "path=/")?;
    }
    let _ = request.set_session_id(sid);
    Ok(())
}

/// Gives `request` its session, drawing the id of a new one at random.
pub fn assign_session(request: &mut RustletRequest, response: &mut RustletResponse) -> (r: Result<
    (),
    Error,
>)
    requires
        old(request).wf(),
    ensures
        final(request).wf(),
        exists|fresh: u128|
            {
                let sid = #[trigger] session_id_of(
                    cookie_value(old(request).header_map_view(), "rustletsessionid"@),
                    fresh,
                );
                &&& r is Ok ==> final(request).session_id_view() == sid
                &&& r is Err ==> sid == fresh && old(response)@.headers_written && final(response)@
                    == old(response)@
                &&& (r is Ok && sid != fresh) ==> final(response)@ == old(response)@
                &&& (r is Ok && sid == fresh) ==> final(response)@ == with_header(
                    old(response)@,
                    "Set-Cookie"@,
                    cookie_header_value("rustletsessionid"@, decimal(fresh as nat), "path=/"@),
                )
            },
{
    let fresh = random_id();
    assign_session_with(request, response, fresh)
}

/// The text that ends a page whose rustlet failed after its headers were sent.
pub open spec fn error_text() -> Seq<char> {
    "\n</br>------------------------------------------------------------------------------------------------------------------------------------\n</br>Internal Server error. See logs for details.</body></html>"@
}

pub fn error_trailer() -> (r: &'static str)
    ensures
        r@ == error_text(),
{
    "\n</br>------------------------------------------------------------------------------------------------------------------------------------\n</br>Internal Server error. See logs for details.</body></html>"
}

/// What to send when serving a request failed, before the connection closes:
/// once the headers are sent on a kept-alive connection, the error text goes
/// as a final chunk; otherwise nothing is sent.
pub fn error_reply(headers_written: bool, keep_alive: bool) -> (r: Option<Vec<u8>>)
    ensures
        r is Some <==> headers_written && keep_alive,
        r matches Some(b) ==> b@ == body_bytes(encode_utf8(error_text()), true, true),
{
    if headers_written && keep_alive {
        let msg = error_trailer().as_bytes();
        Some(frame_body(msg, true, true))
    } else {
        None
    }
}

/// What is sent for a request whose rustlet is not registered: the body
/// written for it ("Rustlet '<name>' does not exist.") stays in a response
/// that is never flushed, so a kept-alive connection gets only the last chunk,
/// and any other connection is closed with nothing sent.
pub fn missing_rustlet_reply(keep_alive: bool) -> (r: (Vec<u8>, bool))
    ensures
        r.0@ == (if keep_alive {
            last_chunk()
        } else {
            Seq::empty()
        }),
        r.1 == !keep_alive,
{
    if keep_alive {
        let v: Vec<u8> = vec![48u8, 13u8, 10u8, 13u8, 10u8];
        assert(v@ =~= last_chunk());
        (v, false)
    } else {
        (Vec::new(), true)
    }
}

} // verus!
