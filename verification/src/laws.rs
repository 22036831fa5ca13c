use crate::container::{route_of, ws_decision};
use crate::request::{method_name, version_name, HttpMethod, HttpVersion};
use crate::dispatch::session_id_of;
use crate::request::{cookie_in, cookie_pair_value, find_char};
use crate::response::{
    ascii_bytes, crlf, after_flush, completed, completion_flushes, not_async, plans_flush, FlushPlan, ResponseState,
};
use crate::rsp::{
    escape_ends_at, find_close, find_escape, is_rsp_uri, rsp_plan, text_end, text_steps, RspOutcome,
    RspStepView,
};
use crate::session::{
    entry_removed, is_stale, stored, stored_value, touched, unexpired, SessionState,
};
use crate::text::{
    all_digits, decimal, digit_char, digits_part, hex_upper, hex_value, is_digit, is_white_space,
    lemma_decimal_digits, lemma_hex_digits, parse_decimal, split_on, trim, trim_end, trim_start,
};
use vstd::prelude::*;
use vstd::utf8::{decode_utf8, valid_utf8};

verus! {

/// A value stored in a session is what reading it back gives.
pub proof fn law_session_read_after_write(
    m: Map<u128, SessionState>,
    id: u128,
    name: Seq<char>,
    value: Seq<u8>,
    now: u128,
)
    ensures
        stored_value(stored(m, id, name, value, now), id, name) == Some(value),
{
}

/// Storing a value leaves every other value, in this session and in the
/// others, as it was.
pub proof fn law_session_write_keeps_others(
    m: Map<u128, SessionState>,
    id: u128,
    name: Seq<char>,
    value: Seq<u8>,
    now: u128,
    other_id: u128,
    other_name: Seq<char>,
)
    requires
        other_id != id || other_name != name,
    ensures
        stored_value(stored(m, id, name, value, now), other_id, other_name) == stored_value(
            m,
            other_id,
            other_name,
        ),
{
}

/// Reading a session changes none of the stored values.
pub proof fn law_session_read_keeps_values(
    m: Map<u128, SessionState>,
    id: u128,
    now: u128,
    other_id: u128,
    name: Seq<char>,
)
    ensures
        stored_value(touched(m, id, now), other_id, name) == stored_value(m, other_id, name),
{
}

/// A value removed from a session is gone, and only that value.
pub proof fn law_session_remove_entry(
    m: Map<u128, SessionState>,
    id: u128,
    name: Seq<char>,
    now: u128,
    other_id: u128,
    other_name: Seq<char>,
)
    ensures
        stored_value(entry_removed(m, id, name, now), id, name) is None,
        other_id != id || other_name != name ==> stored_value(
            entry_removed(m, id, name, now),
            other_id,
            other_name,
        ) == stored_value(m, other_id, other_name),
{
}

/// After a session is invalidated none of its values remain.
pub proof fn law_session_invalidate(m: Map<u128, SessionState>, id: u128, name: Seq<char>)
    ensures
        stored_value(m.remove(id), id, name) is None,
{
}

/// Expiry keeps exactly the sessions that have not timed out, with their
/// values; a session used at the moment of expiry survives it.
pub proof fn law_session_expiry(
    m: Map<u128, SessionState>,
    now: u128,
    timeout: u64,
    id: u128,
    name: Seq<char>,
)
    requires
        timeout > 0,
    ensures
        unexpired(m, now, timeout).dom().contains(id) <==> m.dom().contains(id) && !is_stale(
            m[id].mod_time,
            now,
            timeout,
        ),
        unexpired(m, now, timeout).dom().contains(id) ==> stored_value(
            unexpired(m, now, timeout),
            id,
            name,
        ) == stored_value(m, id, name),
        unexpired(touched(m, id, now), now, timeout).dom().contains(id),
{
}

/// A session that has been idle for more than `timeout` whole seconds at the
/// store's latest clock reading `last` is dropped by an expiry at any reading
/// `now` that is not earlier. The store's clock never goes back (`now`,
/// `expire` and `housekeeper` state that their reading is at least the latest
/// one), so such a session never survives an expiry.
pub proof fn law_idle_session_expires(
    m: Map<u128, SessionState>,
    last: u128,
    now: u128,
    timeout: u64,
    id: u128,
)
    requires
        timeout > 0,
        m.dom().contains(id),
        m[id].mod_time <= last <= now,
        (last - m[id].mod_time) / 1000 > timeout,
    ensures
        !unexpired(m, now, timeout).dom().contains(id),
{
    vstd::arithmetic::div_mod::lemma_div_is_ordered(last - m[id].mod_time, now - m[id].mod_time, 1000);
    assert(is_stale(m[id].mod_time, now, timeout));
}

/// Once a response that is not part of a chained page has been flushed, its
/// headers are written: adding a header, a cookie, a content type or a
/// redirect is then refused (their contracts fail exactly when the headers
/// are written), sending the buffered data leaves that so, and a later flush
/// asks for no headers.
pub proof fn law_flush_freezes_headers(st: ResponseState, later: FlushPlan)
    requires
        !st.chained,
    ensures
        after_flush(st).headers_written,
        (ResponseState { buffer: Seq::empty(), ..after_flush(st) }).headers_written,
        plans_flush(after_flush(st), later) ==> later.headers is None,
{
}

/// Completing an asynchronous response (which first makes it synchronous)
/// always flushes it, and leaves it complete with its headers written unless
/// it is part of a chained page.
pub proof fn law_async_completion_flushes(st: ResponseState)
    ensures
        completion_flushes(not_async(st)),
        !st.chained ==> after_flush(completed(not_async(st))).is_complete,
        !st.chained ==> after_flush(completed(not_async(st))).headers_written,
{
}

/// Without a separator, `s` splits into itself.
proof fn lemma_split_no_sep(s: Seq<char>, sep: char)
    requires
        forall|i: int| 0 <= i < s.len() ==> s[i] != sep,
    ensures
        split_on(s, sep) == seq![s],
    decreases s.len(),
{
    if s.len() > 0 {
        lemma_split_no_sep(s.drop_last(), sep);
        assert(s.drop_last().push(s.last()) =~= s);
        assert(split_on(s, sep) =~= seq![s]);
    } else {
        assert(s =~= Seq::<char>::empty());
    }
}

proof fn lemma_find_char_found(s: Seq<char>, c: char, from: int, at: int)
    requires
        0 <= from <= at < s.len(),
        s[at] == c,
        forall|j: int| from <= j < at ==> s[j] != c,
    ensures
        find_char(s, c, from) == Some(at),
    decreases at - from,
{
    if from < at {
        lemma_find_char_found(s, c, from + 1, at);
    }
}

proof fn lemma_trim_no_white(s: Seq<char>)
    requires
        forall|i: int| 0 <= i < s.len() ==> !is_white_space(s[i]),
    ensures
        trim(s) == s,
{
    assert(trim_start(s) == s);
    assert(trim_end(s) == s);
}

/// The cookie `name=value` that a client sends back reads as `value`, for a
/// name without white space, `=` or `;`, and a value without white space or
/// `;` (it may hold `=`).
pub proof fn law_cookie_reads_back(name: Seq<char>, value: Seq<char>)
    requires
        forall|i: int|
            0 <= i < name.len() ==> !is_white_space(#[trigger] name[i]) && name[i] != '='
                && name[i] != ';',
        forall|i: int|
            0 <= i < value.len() ==> !is_white_space(#[trigger] value[i]) && value[i] != ';',
    ensures
        cookie_in(split_on(name + seq!['='] + value, ';'), name) == Some(value),
{
    let c = name + seq!['='] + value;
    assert forall|i: int| 0 <= i < c.len() implies c[i] != ';' && !is_white_space(c[i]) by {
        if i < name.len() {
            assert(c[i] == name[i]);
        } else if i > name.len() {
            assert(c[i] == value[i - name.len() - 1]);
        }
    }
    lemma_split_no_sep(c, ';');
    lemma_trim_no_white(c);
    assert forall|j: int| 0 <= j < name.len() implies c[j] != '=' by {
        assert(c[j] == name[j]);
    }
    lemma_find_char_found(c, '=', 0, name.len() as int);
    assert(c.take(name.len() as int) =~= name);
    assert(c.skip(name.len() + 1int) =~= value);
    assert(split_on(c, ';')[0] == c);
    assert(cookie_pair_value(trim(c), name) == Some(value));
}

/// The session cookie that a response sets names, when the client sends it
/// back, the session that the response was for: the id's decimal digits read
/// back as the id.
pub proof fn law_session_cookie_round_trip(id: u128, other_fresh: u128)
    ensures
        parse_decimal(decimal(id as nat), u128::MAX as int) == Some(id as int),
        session_id_of(
            cookie_in(split_on("rustletsessionid"@ + seq!['='] + decimal(id as nat), ';'), "rustletsessionid"@),
            other_fresh,
        ) == id,
{
    lemma_decimal_digits(id as nat);
    let d = decimal(id as nat);
    assert(digits_part(d) == d);
    assert(all_digits(d));
    reveal_strlit("rustletsessionid");
    let n = "rustletsessionid"@;
    assert forall|i: int| 0 <= i < d.len() implies !is_white_space(#[trigger] d[i]) && d[i]
        != '=' && d[i] != ';' by {
        assert(is_digit(d[i]));
    }
    law_cookie_reads_back(n, d);
}

/// A page with no `<@=` is sent as it is, in one piece.
pub proof fn law_rsp_plain_page(b: Seq<u8>, flen: int, keep_alive: bool)
    requires
        forall|i: int| 0 <= i < b.len() ==> !escape_ends_at(b, i),
    ensures
        rsp_plan(b, 0, flen, keep_alive).1 == RspOutcome::Done,
        !keep_alive ==> rsp_plan(b, 0, flen, keep_alive).0[0] == RspStepView::Write(b),
{
    lemma_no_escape(b, 2);
    assert(text_end(b, 0) == b.len());
    assert(b.subrange(0, b.len() as int) =~= b);
}

proof fn lemma_no_escape(b: Seq<u8>, from: int)
    requires
        forall|i: int| 0 <= i < b.len() ==> !escape_ends_at(b, i),
    ensures
        find_escape(b, from) is None,
    decreases b.len() - from,
{
    if from < b.len() {
        lemma_no_escape(b, from + 1);
    }
}

/// An RSP page piece made of `pre`, the tag `<@=name>` and `post`.
pub open spec fn tagged_page(pre: Seq<u8>, name: Seq<u8>, post: Seq<u8>) -> Seq<u8> {
    pre + seq![60u8, 64u8, 61u8] + name + seq![62u8] + post
}

proof fn lemma_escape_found(b: Seq<u8>, from: int, at: int)
    requires
        0 <= from <= at < b.len(),
        escape_ends_at(b, at),
        forall|i: int| from <= i < at ==> !escape_ends_at(b, i),
    ensures
        find_escape(b, from) == Some(at),
    decreases at - from,
{
    if from < at {
        lemma_escape_found(b, from + 1, at);
    }
}

proof fn lemma_no_escape_from(b: Seq<u8>, from: int)
    requires
        0 <= from,
        forall|i: int| from <= i < b.len() ==> !escape_ends_at(b, i),
    ensures
        find_escape(b, from) is None,
    decreases b.len() - from,
{
    if from < b.len() {
        lemma_no_escape_from(b, from + 1);
    }
}

proof fn lemma_close_found(b: Seq<u8>, from: int, at: int, to: int)
    requires
        0 <= from <= at < to <= b.len(),
        b[at] == 62,
        forall|i: int| from <= i < at ==> b[i] != 62,
    ensures
        find_close(b, from, to) == Some(at),
    decreases at - from,
{
    if from < at {
        lemma_close_found(b, from + 1, at, to);
    }
}

/// A tag `<@=name>` in an RSP page runs the rustlet `name` between the text
/// before it and the text after it: the page `pre<@=name>post` is served as
/// `pre`, then the rustlet, then `post`. This holds when the tag is the only
/// `<@=` in the piece and `name` holds no `>` and is valid UTF-8; `post` may
/// be empty.
pub proof fn law_rsp_runs_tagged_rustlet(
    pre: Seq<u8>,
    name: Seq<u8>,
    post: Seq<u8>,
    flen: int,
    keep_alive: bool,
)
    requires
        valid_utf8(name),
        forall|j: int| 0 <= j < name.len() ==> name[j] != 62,
        forall|i: int|
            0 <= i < tagged_page(pre, name, post).len() && i != pre.len() + 2int ==> !escape_ends_at(
                tagged_page(pre, name, post),
                i,
            ),
    ensures
        ({
            let b = tagged_page(pre, name, post);
            let close: int = pre.len() + 3 + name.len() as int;
            rsp_plan(b, 0, flen, keep_alive) == (text_steps(b, 0, pre.len() as int, flen, keep_alive)
                + seq![RspStepView::Execute(decode_utf8(name))] + text_steps(
                b,
                close + 1,
                b.len() as int,
                flen,
                keep_alive,
            ), RspOutcome::Done)
        }),
{
    let b = tagged_page(pre, name, post);
    let at: int = pre.len() + 2int;
    let close: int = pre.len() + 3 + name.len() as int;
    assert(b[at - 2] == 60 && b[at - 1] == 64 && b[at] == 61);
    assert(escape_ends_at(b, at));
    lemma_escape_found(b, 2, at);
    assert(text_end(b, 0) == pre.len());
    assert forall|i: int| at + 1 <= i < close implies b[i] != 62 by {
        assert(b[i] == name[i - at - 1]);
    }
    assert(b[close] == 62);
    lemma_close_found(b, at + 1, close, b.len() as int);
    assert(b.subrange(at + 1, close) =~= name);
    lemma_no_escape_from(b, close + 3);
    assert(text_end(b, close + 1) == b.len());
    let rest = rsp_plan(b, close + 1, flen, keep_alive);
    assert(rest == (text_steps(b, close + 1, b.len() as int, flen, keep_alive), RspOutcome::Done));
}

/// The length that heads a chunk reads back as the number of bytes in it.
pub proof fn law_chunk_length_reads_back(buf: Seq<u8>)
    ensures
        hex_value(hex_upper(buf.len())) == buf.len(),
{
    lemma_hex_digits(buf.len());
}

/// A URI mapped to a rustlet goes to that rustlet.
pub proof fn law_mapped_uri_routes(
    mappings: Map<Seq<char>, Seq<char>>,
    path: Seq<char>,
    name: Seq<char>,
)
    ensures
        route_of(mappings.insert(path, name), path) == (Some(name), false),
{
}

/// A websocket opened on a URI mapped to a registered socklet is attached to
/// that socklet, and its messages then go to it.
pub proof fn law_socklet_mapping_dispatches(
    socklets: Set<u128>,
    mappings: Map<Seq<char>, Seq<char>>,
    ids: Map<Seq<char>, u128>,
    path: Seq<char>,
    name: Seq<char>,
    id: u128,
    kind_is_open: bool,
)
    ensures
        ws_decision(
            socklets.insert(id),
            mappings.insert(path, name),
            ids.insert(name, id),
            None,
            true,
            Some(path),
        ) == (Some(id), Some(id)),
        ws_decision(
            socklets.insert(id),
            mappings.insert(path, name),
            ids.insert(name, id),
            Some(id),
            kind_is_open,
            None,
        ) == (None::<u128>, Some(id)),
{
}

/// An ASCII upper-case hexadecimal digit.
pub open spec fn is_hex_digit_byte(b: u8) -> bool {
    (48 <= b <= 57) || (65 <= b <= 70)
}

/// The number that ASCII upper-case hexadecimal digits spell.
pub open spec fn hex_bytes_value(bs: Seq<u8>) -> int
    decreases bs.len(),
{
    if bs.len() == 0 {
        0
    } else {
        hex_bytes_value(bs.drop_last()) * 16 + (if bs.last() <= 57 {
            bs.last() - 48
        } else {
            bs.last() - 55
        })
    }
}

proof fn lemma_digit_char_byte(d: nat)
    requires
        d < 16,
    ensures
        digit_char(d) as u8 == (if d < 10 { 48 + d } else { 55 + d }),
{
    let t = seq!['0', '1', '2', '3', '4', '5', '6', '7', '8', '9', 'A', 'B', 'C', 'D', 'E', 'F'];
    assert(digit_char(d) == t[d as int]);
    if d == 0 { assert(t[0] == '0'); }
    else if d == 1 { assert(t[1] == '1'); }
    else if d == 2 { assert(t[2] == '2'); }
    else if d == 3 { assert(t[3] == '3'); }
    else if d == 4 { assert(t[4] == '4'); }
    else if d == 5 { assert(t[5] == '5'); }
    else if d == 6 { assert(t[6] == '6'); }
    else if d == 7 { assert(t[7] == '7'); }
    else if d == 8 { assert(t[8] == '8'); }
    else if d == 9 { assert(t[9] == '9'); }
    else if d == 10 { assert(t[10] == 'A'); }
    else if d == 11 { assert(t[11] == 'B'); }
    else if d == 12 { assert(t[12] == 'C'); }
    else if d == 13 { assert(t[13] == 'D'); }
    else if d == 14 { assert(t[14] == 'E'); }
    else { assert(t[15] == 'F'); }
}

proof fn lemma_hex_bytes(n: nat)
    ensures
        ascii_bytes(hex_upper(n)).len() > 0,
        forall|i: int| 0 <= i < ascii_bytes(hex_upper(n)).len() ==> is_hex_digit_byte(
            #[trigger] ascii_bytes(hex_upper(n))[i],
        ),
        hex_bytes_value(ascii_bytes(hex_upper(n))) == n,
    decreases n,
{
    if n < 16 {
        lemma_digit_char_byte(n);
        let a = ascii_bytes(hex_upper(n));
        assert(a =~= seq![digit_char(n) as u8]);
        assert(a.drop_last() =~= Seq::<u8>::empty());
        assert(hex_bytes_value(a.drop_last()) == 0);
        assert(a.last() == digit_char(n) as u8);
        assert(hex_bytes_value(a) == hex_bytes_value(a.drop_last()) * 16 + (if a.last() <= 57 {
            a.last() - 48
        } else {
            a.last() - 55
        }));
    } else {
        lemma_hex_bytes(n / 16);
        lemma_digit_char_byte(n % 16);
        let prev = ascii_bytes(hex_upper(n / 16));
        let a = ascii_bytes(hex_upper(n));
        assert(a =~= prev.push(digit_char(n % 16) as u8));
        assert(a.drop_last() =~= prev);
        assert(a.last() == digit_char(n % 16) as u8);
        assert(hex_bytes_value(a) == hex_bytes_value(a.drop_last()) * 16 + (if a.last() <= 57 {
            a.last() - 48
        } else {
            a.last() - 55
        }));
        assert(hex_bytes_value(a) == (n / 16) * 16 + n % 16);
    }
}

/// On a kept-alive connection the static text `b[start..end]` of an RSP page,
/// when not empty, goes as one chunk whose length line reads back, in
/// hexadecimal, as the number of text bytes: upper-case hexadecimal digits,
/// CRLF, the text, CRLF, and the last chunk after it when the page ends there.
pub proof fn law_rsp_chunk_length_is_hex(b: Seq<u8>, start: int, end: int, flen: int)
    requires
        0 <= start < end <= b.len(),
    ensures
        text_steps(b, start, end, flen, true).len() == 1,
        text_steps(b, start, end, flen, true)[0] matches RspStepView::Write(w) && {
            let n = end - start;
            let tail = if flen <= end {
                seq![13u8, 10u8, 48u8, 13u8, 10u8, 13u8, 10u8]
            } else {
                seq![13u8, 10u8]
            };
            let k = w.len() - n - 2 - tail.len();
            &&& k > 0
            &&& forall|i: int| 0 <= i < k ==> is_hex_digit_byte(#[trigger] w[i])
            &&& hex_bytes_value(w.take(k)) == n
            &&& w.subrange(k, k + 2) == seq![13u8, 10u8]
            &&& w.subrange(k + 2, k + 2 + n) == b.subrange(start, end)
            &&& w.skip(k + 2 + n) == tail
        },
{
    let n = end - start;
    lemma_hex_bytes(n as nat);
    let h = ascii_bytes(hex_upper(n as nat));
    let tail = if flen <= end {
        seq![13u8, 10u8, 48u8, 13u8, 10u8, 13u8, 10u8]
    } else {
        seq![13u8, 10u8]
    };
    let text = b.subrange(start, end);
    let w = h + crlf() + text + tail;
    assert(text_steps(b, start, end, flen, true) == seq![RspStepView::Write(w)]);
    let k = w.len() - n - 2 - tail.len();
    assert(k == h.len());
    assert(w.take(k) =~= h);
    assert forall|i: int| 0 <= i < k implies is_hex_digit_byte(#[trigger] w[i]) by {
        assert(w[i] == h[i]);
    }
    assert(w.subrange(k, k + 2) =~= seq![13u8, 10u8]);
    assert(w.subrange(k + 2, k + 2 + n) =~= text);
    assert(w.skip(k + 2 + n) =~= tail);
}

/// A redirect set on a response whose headers are not yet written is handed
/// on by the next flush: the flush asks for the headers, with that location
/// as their redirect.
pub proof fn law_flush_carries_redirect(st: ResponseState, location: Seq<char>, p: FlushPlan)
    requires
        !st.headers_written,
        !st.chained,
        plans_flush(ResponseState { redirect: Some(location), ..st }, p),
    ensures
        p.headers matches Some(h) && h.redirect matches Some(r) && r@ == location,
{
}

/// Storing a value marks its session as used at that moment: the session,
/// with the value, survives an expiry at the same moment, whatever its
/// earlier idle time and whatever the (non-zero) timeout.
pub proof fn law_session_write_survives_expiry(
    m: Map<u128, SessionState>,
    id: u128,
    name: Seq<char>,
    value: Seq<u8>,
    now: u128,
    timeout: u64,
)
    requires
        timeout > 0,
    ensures
        unexpired(stored(m, id, name, value, now), now, timeout).dom().contains(id),
        stored_value(unexpired(stored(m, id, name, value, now), now, timeout), id, name) == Some(
            value,
        ),
{
}

/// Removing a value marks its session as used at that moment: an existing
/// session survives an expiry at the same moment.
pub proof fn law_session_remove_survives_expiry(
    m: Map<u128, SessionState>,
    id: u128,
    name: Seq<char>,
    now: u128,
    timeout: u64,
)
    requires
        timeout > 0,
        m.dom().contains(id),
    ensures
        unexpired(entry_removed(m, id, name, now), now, timeout).dom().contains(id),
{
}

/// The `method` field names the request's method, `GET` or `POST`, and the
/// `version` field its HTTP version: each name belongs to exactly one.
pub proof fn law_method_and_version_names(m: HttpMethod, v: HttpVersion)
    ensures
        method_name(m) == "GET"@ <==> m == HttpMethod::Get,
        method_name(m) == "POST"@ <==> m == HttpMethod::Post,
        version_name(v) == "V09"@ <==> v == HttpVersion::V09,
        version_name(v) == "V10"@ <==> v == HttpVersion::V10,
        version_name(v) == "V11"@ <==> v == HttpVersion::V11,
        version_name(v) == "V20"@ <==> v == HttpVersion::V20,
{
    reveal_strlit("GET");
    reveal_strlit("POST");
    reveal_strlit("V09");
    reveal_strlit("V10");
    reveal_strlit("V11");
    reveal_strlit("V20");
    assert("GET"@ != "POST"@) by {
        assert("GET"@.len() != "POST"@.len());
    }
    assert("V09"@[2] != "V10"@[2] && "V09"@[2] != "V11"@[2] && "V09"@[1] != "V20"@[1]);
    assert("V10"@[2] != "V11"@[2] && "V10"@[1] != "V20"@[1] && "V11"@[1] != "V20"@[1]);
}

/// Whether a URI names an RSP page depends only on its last four characters:
/// any URI, in any directory, that ends in `.rsp` (in any case) and is not
/// mapped to a rustlet goes to its RSP page.
pub proof fn law_rsp_uri_anywhere(
    mappings: Map<Seq<char>, Seq<char>>,
    prefix: Seq<char>,
    r: char,
    s: char,
    p: char,
)
    requires
        r == 'r' || r == 'R',
        s == 's' || s == 'S',
        p == 'p' || p == 'P',
        !mappings.dom().contains(prefix + seq!['.', r, s, p]),
    ensures
        is_rsp_uri(prefix + seq!['.', r, s, p]),
        route_of(mappings, prefix + seq!['.', r, s, p]) == (None::<Seq<char>>, true),
{
    let u = prefix + seq!['.', r, s, p];
    let n = u.len();
    assert(u[n - 4] == '.');
    assert(u[n - 3] == r);
    assert(u[n - 2] == s);
    assert(u[n - 1] == p);
}

} // verus!
