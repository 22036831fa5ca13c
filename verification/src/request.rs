use crate::assoc::AssocMap;
use crate::error::Error;
use crate::session::{stored, stored_value, touched, entry_removed, SessionStore};
use crate::text::{
    chars_of, chars_of_utf8, decimal, decimal_string, parse_decimal, parse_decimal_chars,
    copy_range, split_chars, split_on, string_of, text_of_utf8, trim, trim_chars,
};
use vstd::prelude::*;
use vstd::utf8::{decode_utf8, valid_utf8};

verus! {

broadcast use vstd::string::group_string_axioms;

/// The HTTP method of a request.
#[derive(Clone, Copy, PartialEq, Eq, Structural, Debug)]
pub enum HttpMethod {
    Get,
    Post,
}

/// The HTTP version of a request.
#[derive(Clone, Copy, PartialEq, Eq, Structural, Debug)]
pub enum HttpVersion {
    V09,
    V10,
    V11,
    V20,
}

/// The text of a header's name or value: its UTF-8 decoding, or nothing when
/// the bytes are not valid UTF-8.
pub open spec fn header_text(bytes: Seq<u8>) -> Seq<char> {
    if valid_utf8(bytes) {
        decode_utf8(bytes)
    } else {
        Seq::empty()
    }
}

/// The headers by name: every header whose name and value are valid UTF-8,
/// a later header replacing an earlier one of the same name.
pub open spec fn header_map_of(headers: Seq<(Seq<u8>, Seq<u8>)>) -> Map<Seq<char>, Seq<char>>
    decreases headers.len(),
{
    if headers.len() == 0 {
        Map::empty()
    } else {
        let m = header_map_of(headers.drop_last());
        let h = headers.last();
        if valid_utf8(h.0) && valid_utf8(h.1) {
            m.insert(decode_utf8(h.0), decode_utf8(h.1))
        } else {
            m
        }
    }
}

/// The `(key, value)` pairs of the `&`-separated parts of `items` that hold an
/// `=`: the key is before the first `=`, the value between it and the next `=`
/// (or the end).
pub open spec fn query_pairs_of(items: Seq<Seq<char>>) -> Seq<(Seq<char>, Seq<char>)>
    decreases items.len(),
{
    if items.len() == 0 {
        Seq::empty()
    } else {
        let r = query_pairs_of(items.drop_last());
        let parts = split_on(items.last(), '=');
        if parts.len() >= 2 {
            r.push((parts[0], parts[1]))
        } else {
            r
        }
    }
}

/// The pairs that `querystring::querify` finds in a query string.
pub open spec fn querify(query: Seq<char>) -> Seq<(Seq<char>, Seq<char>)> {
    query_pairs_of(split_on(query, '&'))
}

/// The map that a list of pairs stands for, a later pair for a key replacing
/// an earlier one.
pub open spec fn pairs_map(pairs: Seq<(Seq<char>, Seq<char>)>) -> Map<Seq<char>, Seq<char>>
    decreases pairs.len(),
{
    if pairs.len() == 0 {
        Map::empty()
    } else {
        pairs_map(pairs.drop_last()).insert(pairs.last().0, pairs.last().1)
    }
}

/// The query parameters by name.
pub open spec fn query_map_of(query: Seq<char>) -> Map<Seq<char>, Seq<char>> {
    pairs_map(querify(query))
}

/// The first index at or after `from` where `s` holds `c`.
pub open spec fn find_char(s: Seq<char>, c: char, from: int) -> Option<int>
    decreases s.len() - from,
{
    if from < 0 || from >= s.len() {
        None
    } else if s[from] == c {
        Some(from)
    } else {
        find_char(s, c, from + 1)
    }
}

/// The value that the cookie text `t` (one trimmed `;`-separated part of a
/// `Cookie` header) gives for `name`: everything after its first `=`, when
/// what comes before that `=` is `name`.
pub open spec fn cookie_pair_value(t: Seq<char>, name: Seq<char>) -> Option<Seq<char>> {
    match find_char(t, '=', 0) {
        Some(k) => if t.take(k) == name {
            Some(t.skip(k + 1))
        } else {
            None
        },
        None => None,
    }
}

/// The value of cookie `name` among the `;`-separated parts of a `Cookie`
/// header: the first part that, with surrounding white space trimmed, has
/// `name` before its first `=` gives everything after that `=`.
pub open spec fn cookie_in(items: Seq<Seq<char>>, name: Seq<char>) -> Option<Seq<char>>
    decreases items.len(),
{
    if items.len() == 0 {
        None
    } else {
        match cookie_pair_value(trim(items[0]), name) {
            Some(v) => Some(v),
            None => cookie_in(items.drop_first(), name),
        }
    }
}

proof fn lemma_find_char_bounds(s: Seq<char>, c: char, from: int)
    ensures
        find_char(s, c, from) matches Some(k) ==> from <= k < s.len() && s[k] == c && forall|
            j: int,
        | from <= j < k ==> s[j] != c,
        find_char(s, c, from) is None && 0 <= from ==> forall|j: int| from <= j < s.len() ==> s[j] != c,
    decreases s.len() - from,
{
    if from >= 0 && from < s.len() && s[from] != c {
        lemma_find_char_bounds(s, c, from + 1);
    }
}

/// The value that the trimmed cookie text `t` gives for `name`, if any.
fn cookie_pair(t: &[char], name: &[char]) -> (r: Option<Vec<char>>)
    ensures
        r is Some <==> cookie_pair_value(t@, name@) is Some,
        r matches Some(v) ==> v@ == cookie_pair_value(t@, name@).unwrap(),
{
    proof {
        lemma_find_char_bounds(t@, '=', 0);
    }
    let mut k: usize = 0;
    while k < t.len()
        invariant
            k <= t@.len(),
            find_char(t@, '=', 0) == find_char(t@, '=', k as int),
        decreases t@.len() - k,
    {
        if t[k] == '=' {
            let prefix = copy_range(t, 0, k);
            assert(prefix@ =~= t@.take(k as int));
            if crate::assoc::chars_equal(prefix.as_slice(), name) {
                let v = copy_range(t, k + 1, t.len());
                assert(v@ =~= t@.skip(k + 1));
                return Some(v);
            } else {
                return None;
            }
        }
        k = k + 1;
    }
    None
}

/// The value of cookie `name` in a request whose headers by name are `headers`.
pub open spec fn cookie_value(headers: Map<Seq<char>, Seq<char>>, name: Seq<char>) -> Option<
    Seq<char>,
> {
    if headers.dom().contains("Cookie"@) {
        cookie_in(split_on(headers["Cookie"@], ';'), name)
    } else {
        None
    }
}

/// Parses a query string with `querystring::querify`, keeping the pairs as owned strings.
#[verifier::external_body]
fn querify_owned(query: &str) -> (r: Vec<(String, String)>)
    ensures
        r@.map_values(|p: (String, String)| (p.0@, p.1@)) == querify(query@),
{
    querystring::querify(query).into_iter().map(|(k, v)| (k.to_string(), v.to_string())).collect()
}

/// An HTTP request as a rustlet sees it.
pub struct RustletRequest {
    content: Vec<u8>,
    http_method: HttpMethod,
    http_version: HttpVersion,
    uri: String,
    query: String,
    headers: Vec<(Vec<u8>, Vec<u8>)>,
    keep_alive: bool,
    query_map: Option<AssocMap<String, String>>,
    header_map: Option<AssocMap<Vec<char>, Vec<char>>>,
    session_id: u128,
}

impl RustletRequest {
    pub closed spec fn content_view(&self) -> Seq<u8> {
        self.content@
    }

    pub closed spec fn method_view(&self) -> HttpMethod {
        self.http_method
    }

    pub closed spec fn version_view(&self) -> HttpVersion {
        self.http_version
    }

    pub closed spec fn uri_view(&self) -> Seq<char> {
        self.uri@
    }

    pub closed spec fn query_view(&self) -> Seq<char> {
        self.query@
    }

    pub closed spec fn keep_alive_view(&self) -> bool {
        self.keep_alive
    }

    pub closed spec fn headers_view(&self) -> Seq<(Seq<u8>, Seq<u8>)> {
        self.headers@.map_values(|h: (Vec<u8>, Vec<u8>)| (h.0@, h.1@))
    }

    pub closed spec fn session_id_view(&self) -> u128 {
        self.session_id
    }

    /// The request's headers by name.
    pub open spec fn header_map_view(&self) -> Map<Seq<char>, Seq<char>> {
        header_map_of(self.headers_view())
    }

    /// The request's query parameters by name.
    pub open spec fn query_map_view(&self) -> Map<Seq<char>, Seq<char>> {
        query_map_of(self.query_view())
    }

    /// The maps built on demand agree with the headers and the query string.
    pub closed spec fn wf(&self) -> bool {
        &&& (self.header_map matches Some(m) ==> m.wf() && m@.map_values(|v: Vec<char>| v@)
            == header_map_of(self.headers_view()))
        &&& (self.query_map matches Some(m) ==> m.wf() && m@.map_values(|v: String| v@)
            == query_map_of(self.query@))
    }

    /// What the request was made of stays as it was.
    pub open spec fn same_request(&self, other: &Self) -> bool {
        &&& self.content_view() == other.content_view()
        &&& self.method_view() == other.method_view()
        &&& self.version_view() == other.version_view()
        &&& self.uri_view() == other.uri_view()
        &&& self.query_view() == other.query_view()
        &&& self.keep_alive_view() == other.keep_alive_view()
        &&& self.headers_view() == other.headers_view()
        &&& self.session_id_view() == other.session_id_view()
    }

    pub fn new(
        uri: String,
        query: String,
        content: Vec<u8>,
        http_method: HttpMethod,
        http_version: HttpVersion,
        headers: Vec<(Vec<u8>, Vec<u8>)>,
        keep_alive: bool,
    ) -> (r: Self)
        ensures
            r.wf(),
            r.uri_view() == uri@,
            r.query_view() == query@,
            r.content_view() == content@,
            r.method_view() == http_method,
            r.version_view() == http_version,
            r.headers_view() == headers@.map_values(|h: (Vec<u8>, Vec<u8>)| (h.0@, h.1@)),
            r.keep_alive_view() == keep_alive,
            r.session_id_view() == 0,
    {
        RustletRequest {
            uri,
            query,
            content,
            http_method,
            http_version,
            headers,
            keep_alive,
            query_map: None,
            header_map: None,
            session_id: 0,
        }
    }

    pub fn set_session_id(&mut self, session_id: u128) -> (r: Result<(), Error>)
        requires
            old(self).wf(),
        ensures
            final(self).wf(),
            r is Ok,
            final(self).session_id_view() == session_id,
            final(self).content_view() == old(self).content_view(),
            final(self).method_view() == old(self).method_view(),
            final(self).version_view() == old(self).version_view(),
            final(self).uri_view() == old(self).uri_view(),
            final(self).query_view() == old(self).query_view(),
            final(self).keep_alive_view() == old(self).keep_alive_view(),
            final(self).headers_view() == old(self).headers_view(),
    {
        self.session_id = session_id;
        Ok(())
    }

    /// The value stored under `name` in this request's session; the session is
    /// marked as used, and created empty if it did not exist.
    pub fn get_session(&self, sessions: &mut SessionStore, name: &str) -> (r: Result<
        Option<Vec<u8>>,
        Error,
    >)
        requires
            old(sessions).wf(),
        ensures
            final(sessions).wf(),
            final(sessions)@ == touched(
                old(sessions)@,
                self.session_id_view(),
                final(sessions).last_now(),
            ),
            final(sessions).last_now() >= old(sessions).last_now(),
            r matches Ok(v) && (v is Some <==> stored_value(
                old(sessions)@,
                self.session_id_view(),
                name@,
            ) is Some),
            r matches Ok(Some(v)) ==> v@ == stored_value(
                old(sessions)@,
                self.session_id_view(),
                name@,
            ).unwrap(),
    {
        Ok(sessions.get(self.session_id, name))
    }

    /// Stores `value` under `name` in this request's session, creating the
    /// session if needed.
    pub fn set_session(&self, sessions: &mut SessionStore, name: &str, value: Vec<u8>) -> (r:
        Result<(), Error>)
        requires
            old(sessions).wf(),
        ensures
            final(sessions).wf(),
            r is Ok,
            final(sessions)@ == stored(
                old(sessions)@,
                self.session_id_view(),
                name@,
                value@,
                final(sessions).last_now(),
            ),
            final(sessions).last_now() >= old(sessions).last_now(),
    {
        sessions.set(self.session_id, name, value);
        Ok(())
    }

    /// Removes the value under `name` from this request's session.
    pub fn remove_session_entry(&self, sessions: &mut SessionStore, name: &str) -> (r: Result<
        (),
        Error,
    >)
        requires
            old(sessions).wf(),
        ensures
            final(sessions).wf(),
            r is Ok,
            final(sessions)@ == entry_removed(
                old(sessions)@,
                self.session_id_view(),
                name@,
                final(sessions).last_now(),
            ),
            final(sessions).last_now() >= old(sessions).last_now(),
    {
        sessions.remove_entry(self.session_id, name);
        Ok(())
    }

    /// Drops this request's session.
    pub fn invalidate_session(&self, sessions: &mut SessionStore) -> (r: Result<(), Error>)
        requires
            old(sessions).wf(),
        ensures
            final(sessions).wf(),
            r is Ok,
            final(sessions)@ == old(sessions)@.remove(self.session_id_view()),
            final(sessions).last_now() == old(sessions).last_now(),
    {
        sessions.invalidate(self.session_id);
        Ok(())
    }
    /// Builds the map of headers by name.
    fn build_header_map(&mut self) -> (r: Result<(), Error>)
        requires
            old(self).wf(),
        ensures
            final(self).wf(),
            r is Ok,
            final(self).same_request(old(self)),
            final(self).header_map is Some,
    {
        let mut map: AssocMap<Vec<char>, Vec<char>> = AssocMap::new();
        let ghost hv = self.headers_view();
        let n = self.headers.len();
        assert(map@.map_values(|v: Vec<char>| v@) =~= header_map_of(hv.take(0)));
        for i in 0..n
            invariant
                n == self.headers@.len(),
                hv == self.headers@.map_values(|h: (Vec<u8>, Vec<u8>)| (h.0@, h.1@)),
                map.wf(),
                map@.map_values(|v: Vec<char>| v@) == header_map_of(hv.take(i as int)),
        {
            let key = chars_of_utf8(self.headers[i].0.as_slice());
            let value = chars_of_utf8(self.headers[i].1.as_slice());
            let ghost before = map@;
            assert(hv.take(i + 1).drop_last() =~= hv.take(i as int));
            assert(hv.take(i + 1).last() == hv[i as int]);
            match (key, value) {
                (Some(k), Some(v)) => {
                    let ghost kv = k@;
                    let ghost vv = v@;
                    map.insert(k, v);
                    assert(map@.map_values(|v: Vec<char>| v@) =~= before.map_values(
                        |v: Vec<char>| v@,
                    ).insert(kv, vv));
                },
                _ => {},
            }
        }
        assert(hv.take(n as int) =~= hv);
        self.header_map = Some(map);
        Ok(())
    }

    /// Builds the map of query parameters by name.
    fn build_query_map(&mut self) -> (r: Result<(), Error>)
        requires
            old(self).wf(),
        ensures
            final(self).wf(),
            r is Ok,
            final(self).same_request(old(self)),
            final(self).query_map is Some,
    {
        let pairs = querify_owned(self.query.as_str());
        let ghost pv = pairs@.map_values(|p: (String, String)| (p.0@, p.1@));
        let mut map: AssocMap<String, String> = AssocMap::new();
        let n = pairs.len();
        assert(map@.map_values(|v: String| v@) =~= pairs_map(pv.take(0)));
        for i in 0..n
            invariant
                n == pairs@.len(),
                pv == pairs@.map_values(|p: (String, String)| (p.0@, p.1@)),
                map.wf(),
                map@.map_values(|v: String| v@) == pairs_map(pv.take(i as int)),
        {
            let k = pairs[i].0.clone();
            let v = pairs[i].1.clone();
            let ghost before = map@;
            assert(pv.take(i + 1).drop_last() =~= pv.take(i as int));
            assert(pv.take(i + 1).last() == pv[i as int]);
            map.insert(k, v);
            assert(map@.map_values(|v: String| v@) =~= before.map_values(|v: String| v@).insert(
                pv[i as int].0,
                pv[i as int].1,
            ));
        }
        assert(pv.take(n as int) =~= pv);
        self.query_map = Some(map);
        Ok(())
    }

    /// The value of cookie `name`, from the request's `Cookie` header.
    pub fn get_cookie(&mut self, name: &str) -> (r: Result<Option<String>, Error>)
        requires
            old(self).wf(),
        ensures
            final(self).wf(),
            final(self).same_request(old(self)),
            r matches Ok(c) && (c is Some <==> cookie_value(old(self).header_map_view(), name@) is Some),
            r matches Ok(Some(c)) ==> c@ == cookie_value(old(self).header_map_view(), name@).unwrap(),
    {
        if self.header_map.is_none() {
            let _ = self.build_header_map();
        }
        let key = chars_of("Cookie");
        let name_chars = chars_of(name);
        let ghost hm = self.header_map_view();
        match &self.header_map {
            Some(m) => {
                match m.get(&key) {
                    Some(v) => {
                        assert(hm.dom().contains("Cookie"@));
                        assert(hm["Cookie"@] == v@);
                        let items = split_chars(v.as_slice(), ';');
                        let ghost iv = items@.map_values(|v: Vec<char>| v@);
                        assert(iv.skip(0) =~= iv);
                        assert(old(self).header_map_view() == hm);
                        assert(cookie_value(hm, name@) == cookie_in(iv, name@));
                        let mut i: usize = 0;
                        while i < items.len()
                            invariant
                                i <= items@.len(),
                                iv == items@.map_values(|v: Vec<char>| v@),
                                name_chars@ == name@,
                                self.wf(),
                                self.same_request(old(self)),
                                cookie_value(old(self).header_map_view(), name@) == cookie_in(
                                    iv,
                                    name@,
                                ),
                                cookie_in(iv, name@) == cookie_in(iv.skip(i as int), name@),
                            decreases items@.len() - i,
                        {
                            assert(iv.skip(i as int)[0] == iv[i as int]);
                            assert(iv.skip(i as int).drop_first() =~= iv.skip(i + 1));
                            let t = trim_chars(items[i].as_slice());
                            match cookie_pair(t.as_slice(), name_chars.as_slice()) {
                                Some(v) => {
                                    assert(cookie_in(iv.skip(i as int), name@) == Some(v@));
                                    return Ok(Some(string_of(v.as_slice())));
                                },
                                None => {},
                            }
                            i = i + 1;
                        }
                        Ok(None)
                    },
                    None => Ok(None),
                }
            },
            None => Ok(None),
        }
    }

    /// The number of headers the request was sent with: the range of the
    /// indices that `get_header_i_name` and `get_header_i_value` serve.
    pub fn get_header_len(&mut self) -> (r: Result<usize, Error>)
        requires
            old(self).wf(),
        ensures
            final(self).wf(),
            final(self).same_request(old(self)),
            r matches Ok(n) && n == old(self).headers_view().len(),
    {
        Ok(self.headers.len())
    }

    /// The value of the `i`-th header as text; empty when there is no such
    /// header or its value is not valid UTF-8.
    pub fn get_header_i_value(&self, i: usize) -> (r: Result<String, Error>)
        ensures
            r matches Ok(s) && s@ == (if i < self.headers_view().len() {
                header_text(self.headers_view()[i as int].1)
            } else {
                Seq::empty()
            }),
    {
        if i >= self.headers.len() {
            Ok(String::new())
        } else {
            match text_of_utf8(self.headers[i].1.as_slice()) {
                Some(s) => Ok(s),
                None => Ok(String::new()),
            }
        }
    }

    /// The name of the `i`-th header as text; empty when there is no such
    /// header or its name is not valid UTF-8.
    pub fn get_header_i_name(&self, i: usize) -> (r: Result<String, Error>)
        ensures
            r matches Ok(s) && s@ == (if i < self.headers_view().len() {
                header_text(self.headers_view()[i as int].0)
            } else {
                Seq::empty()
            }),
    {
        if i >= self.headers.len() {
            Ok(String::new())
        } else {
            match text_of_utf8(self.headers[i].0.as_slice()) {
                Some(s) => Ok(s),
                None => Ok(String::new()),
            }
        }
    }

    /// The value of header `name` (names compare exactly); of several headers
    /// with that name the last one counts.
    pub fn get_header(&mut self, name: &str) -> (r: Result<Option<String>, Error>)
        requires
            old(self).wf(),
        ensures
            final(self).wf(),
            final(self).same_request(old(self)),
            r matches Ok(h) && (h is Some <==> old(self).header_map_view().dom().contains(name@)),
            r matches Ok(Some(h)) ==> h@ == old(self).header_map_view()[name@],
    {
        if self.header_map.is_none() {
            let _ = self.build_header_map();
        }
        let key = chars_of(name);
        match &self.header_map {
            Some(map) => match map.get(&key) {
                Some(v) => Ok(Some(string_of(v.as_slice()))),
                None => Ok(None),
            },
            None => Ok(None),
        }
    }

    /// A copy of the headers, as received.
    pub fn get_headers(&self) -> (r: Result<Vec<(Vec<u8>, Vec<u8>)>, Error>)
        ensures
            r matches Ok(h) && h@.map_values(|h: (Vec<u8>, Vec<u8>)| (h.0@, h.1@))
                == self.headers_view(),
    {
        let mut out: Vec<(Vec<u8>, Vec<u8>)> = Vec::new();
        let n = self.headers.len();
        for i in 0..n
            invariant
                n == self.headers@.len(),
                out@.len() == i,
                forall|j: int|
                    0 <= j < i ==> (#[trigger] out@[j]).0@ == self.headers@[j].0@ && out@[j].1@
                        == self.headers@[j].1@,
        {
            let k = vstd::slice::slice_to_vec(self.headers[i].0.as_slice());
            let v = vstd::slice::slice_to_vec(self.headers[i].1.as_slice());
            out.push((k, v));
        }
        assert(out@.map_values(|h: (Vec<u8>, Vec<u8>)| (h.0@, h.1@)) =~= self.headers_view());
        Ok(out)
    }

    pub fn get_http_method(&self) -> (r: Result<HttpMethod, Error>)
        ensures
            r == Ok::<HttpMethod, Error>(self.method_view()),
    {
        Ok(self.http_method)
    }

    pub fn get_http_version(&self) -> (r: Result<HttpVersion, Error>)
        ensures
            r == Ok::<HttpVersion, Error>(self.version_view()),
    {
        Ok(self.http_version)
    }

    /// A copy of the request's content.
    pub fn get_content(&self) -> (r: Result<Vec<u8>, Error>)
        ensures
            r matches Ok(c) && c@ == self.content_view(),
    {
        Ok(vstd::slice::slice_to_vec(self.content.as_slice()))
    }

    pub fn get_uri(&self) -> (r: Result<String, Error>)
        ensures
            r matches Ok(u) && u@ == self.uri_view(),
    {
        Ok(self.uri.clone())
    }

    pub fn get_query(&self) -> (r: Result<String, Error>)
        ensures
            r matches Ok(q) && q@ == self.query_view(),
    {
        Ok(self.query.clone())
    }

    /// The value of query parameter `name`; of several with that name the last
    /// one counts.
    pub fn get_query_parameter(&mut self, name: &str) -> (r: Result<Option<String>, Error>)
        requires
            old(self).wf(),
        ensures
            final(self).wf(),
            final(self).same_request(old(self)),
            r matches Ok(p) && (p is Some <==> old(self).query_map_view().dom().contains(name@)),
            r matches Ok(Some(p)) ==> p@ == old(self).query_map_view()[name@],
    {
        if self.query_map.is_none() {
            let _ = self.build_query_map();
        }
        let key: String = name.to_owned();
        match &self.query_map {
            Some(map) => match map.get(&key) {
                Some(v) => Ok(Some(v.clone())),
                None => Ok(None),
            },
            None => Ok(None),
        }
    }

    /// A field of the request by name, the name in any ASCII case: `query`,
    /// `method` (`GET` or `POST`), `version` (`V09`, `V10`, `V11`, `V20`),
    /// `header_len` (in decimal) or `uri`; none for any other name.
    pub fn request_param(&mut self, field: &str) -> (r: Option<String>)
        requires
            old(self).wf(),
        ensures
            final(self).wf(),
            final(self).same_request(old(self)),
            ({
                let f = field@;
                let o = old(self);
                &&& names_field(f, "query"@) ==> (r matches Some(s) && s@ == o.query_view())
                &&& names_field(f, "method"@) ==> (r matches Some(s) && s@ == method_name(o.method_view()))
                &&& names_field(f, "version"@) ==> (r matches Some(s) && s@ == version_name(o.version_view()))
                &&& names_field(f, "header_len"@) ==> (r matches Some(s) && s@ == decimal(o.headers_view().len()))
                &&& names_field(f, "uri"@) ==> (r matches Some(s) && s@ == o.uri_view())
                &&& !names_field(f, "query"@) && !names_field(f, "method"@) && !names_field(
                    f,
                    "version"@,
                ) && !names_field(f, "header_len"@) && !names_field(f, "uri"@) ==> r is None
            }),
    {
        proof {
            reveal_strlit("query");
            reveal_strlit("method");
            reveal_strlit("version");
            reveal_strlit("header_len");
            reveal_strlit("uri");
        }
        let f = chars_of(field);
        if field_is(f.as_slice(), "query") {
            Some(self.query.clone())
        } else if field_is(f.as_slice(), "method") {
            Some(
                match self.http_method {
                    HttpMethod::Get => "GET".to_owned(),
                    HttpMethod::Post => "POST".to_owned(),
                },
            )
        } else if field_is(f.as_slice(), "version") {
            Some(
                match self.http_version {
                    HttpVersion::V09 => "V09".to_owned(),
                    HttpVersion::V10 => "V10".to_owned(),
                    HttpVersion::V11 => "V11".to_owned(),
                    HttpVersion::V20 => "V20".to_owned(),
                },
            )
        } else if field_is(f.as_slice(), "header_len") {
            let n = match self.get_header_len() {
                Ok(n) => n,
                Err(_) => 0,
            };
            Some(decimal_string(n as u128))
        } else if field_is(f.as_slice(), "uri") {
            Some(self.uri.clone())
        } else {
            None
        }
    }

    /// A field of the request by name and argument, the name in any ASCII case:
    /// `query` gives the query parameter named by `arg`; `header_i_name` and
    /// `header_i_value` the name and value of the header whose index `arg` reads
    /// as (`usize::MAX` when it does not); `header` the header named by `arg`;
    /// anything missing, and any other name, gives the empty string.
    pub fn request_param_arg(&mut self, field: &str, arg: &str) -> (r: String)
        requires
            old(self).wf(),
        ensures
            final(self).wf(),
            final(self).same_request(old(self)),
            ({
                let f = field@;
                let o = old(self);
                let index = match parse_decimal(arg@, usize::MAX as int) {
                    Some(v) => v,
                    None => usize::MAX as int,
                };
                &&& names_field(f, "query"@) ==> r@ == (if o.query_map_view().dom().contains(arg@) {
                    o.query_map_view()[arg@]
                } else {
                    Seq::empty()
                })
                &&& names_field(f, "header_i_name"@) ==> r@ == (if index < o.headers_view().len() {
                    header_text(o.headers_view()[index].0)
                } else {
                    Seq::empty()
                })
                &&& names_field(f, "header_i_value"@) ==> r@ == (if index < o.headers_view().len() {
                    header_text(o.headers_view()[index].1)
                } else {
                    Seq::empty()
                })
                &&& names_field(f, "header"@) ==> r@ == (if o.header_map_view().dom().contains(arg@) {
                    o.header_map_view()[arg@]
                } else {
                    Seq::empty()
                })
                &&& !names_field(f, "query"@) && !names_field(f, "header_i_name"@) && !names_field(
                    f,
                    "header_i_value"@,
                ) && !names_field(f, "header"@) ==> r@ == Seq::<char>::empty()
            }),
    {
        proof {
            reveal_strlit("query");
            reveal_strlit("header_i_name");
            reveal_strlit("header_i_value");
            reveal_strlit("header");
        }
        let f = chars_of(field);
        if field_is(f.as_slice(), "query") {
            match self.get_query_parameter(arg) {
                Ok(Some(q)) => q,
                _ => String::new(),
            }
        } else if field_is(f.as_slice(), "header_i_name") {
            let a = chars_of(arg);
            let i = match parse_decimal_chars(a.as_slice(), usize::MAX as u128) {
                Some(v) => v as usize,
                None => usize::MAX,
            };
            match self.get_header_i_name(i) {
                Ok(n) => n,
                Err(_) => String::new(),
            }
        } else if field_is(f.as_slice(), "header_i_value") {
            let a = chars_of(arg);
            let i = match parse_decimal_chars(a.as_slice(), usize::MAX as u128) {
                Some(v) => v as usize,
                None => usize::MAX,
            };
            match self.get_header_i_value(i) {
                Ok(v) => v,
                Err(_) => String::new(),
            }
        } else if field_is(f.as_slice(), "header") {
            match self.get_header(arg) {
                Ok(Some(h)) => h,
                _ => String::new(),
            }
        } else {
            String::new()
        }
    }
}

/// The name of an HTTP method.
pub open spec fn method_name(m: HttpMethod) -> Seq<char> {
    match m {
        HttpMethod::Get => "GET"@,
        HttpMethod::Post => "POST"@,
    }
}

/// The name of an HTTP version.
pub open spec fn version_name(v: HttpVersion) -> Seq<char> {
    match v {
        HttpVersion::V09 => "V09"@,
        HttpVersion::V10 => "V10"@,
        HttpVersion::V11 => "V11"@,
        HttpVersion::V20 => "V20"@,
    }
}

/// `c` is `k` or, for an ASCII capital, its lower-case form is `k`.
pub open spec fn lower_matches(c: char, k: char) -> bool {
    c == k || ('A' <= c <= 'Z' && (c as u32) + 32 == k as u32)
}

/// `field` names the lower-case ASCII keyword `keyword` in any case, as
/// `field.to_lowercase() == keyword` decides (no other character lower-cases
/// to the letters of these keywords).
pub open spec fn names_field(field: Seq<char>, keyword: Seq<char>) -> bool {
    field.len() == keyword.len() && forall|i: int|
        0 <= i < field.len() ==> lower_matches(#[trigger] field[i], keyword[i])
}

fn field_is(field: &[char], keyword: &str) -> (r: bool)
    ensures
        r == names_field(field@, keyword@),
{
    let k = chars_of(keyword);
    if field.len() != k.len() {
        return false;
    }
    let mut i: usize = 0;
    while i < field.len()
        invariant
            i <= field@.len(),
            field@.len() == k@.len(),
            k@ == keyword@,
            forall|j: int| 0 <= j < i ==> lower_matches(#[trigger] field@[j], k@[j]),
        decreases field@.len() - i,
    {
        let c = field[i];
        let d = k[i];
        if !(c == d || ('A' <= c && c <= 'Z' && (c as u32) + 32 == d as u32)) {
            return false;
        }
        i = i + 1;
    }
    true
}

} // verus!
