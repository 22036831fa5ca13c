use crate::assoc::AssocMap;
use std::collections::HashMap;
use crate::error::Error;
use crate::request::RustletRequest;
use crate::response::{
    completed, completes, completion_fails, not_async, CompletePlan, RustletResponse,
};
use crate::rsp::{is_rsp_path, is_rsp_uri};
use crate::session::{unexpired, SessionStore};
use vstd::prelude::*;

verus! {

broadcast use vstd::std_specs::hash::group_hash_axioms;

/// An id drawn at random (`rand::random::<u128>`), for a session or a socklet.
/// Nothing is stated of the value: it is random.
#[verifier::external_body]
pub(crate) fn random_id() -> u128 {
    rand::random::<u128>()
}

/// The configuration of the rustlet container.
pub struct RustletConfig {
    /// The timeout (in seconds) for sessions in this container; zero keeps
    /// sessions for ever.
    pub session_timeout: u64,
}

impl Default for RustletConfig {
    /// Sessions time out after 1,800 seconds (30 minutes).
    fn default() -> (c: Self)
        ensures
            c.session_timeout == 1800,
    {
        RustletConfig { session_timeout: 60 * 30 }
    }
}

impl Clone for RustletConfig {
    fn clone(&self) -> (c: Self)
        ensures
            c.session_timeout == self.session_timeout,
    {
        RustletConfig { session_timeout: self.session_timeout }
    }
}

/// The session timeout that a configuration sets; none without one.
pub open spec fn timeout_of(config: Option<RustletConfig>) -> u64 {
    match config {
        Some(c) => c.session_timeout,
        None => 0,
    }
}

/// Drops the sessions that have timed out under `config`; without a
/// configuration, or with a zero timeout, nothing is dropped.
pub fn housekeeper(config: &Option<RustletConfig>, sessions: &mut SessionStore) -> (r: Result<
    (),
    Error,
>)
    requires
        old(sessions).wf(),
    ensures
        r is Ok,
        final(sessions).wf(),
        final(sessions)@ == unexpired(old(sessions)@, final(sessions).last_now(), timeout_of(*config)),
        final(sessions).last_now() >= old(sessions).last_now(),
{
    let session_timeout = match config {
        Some(c) => c.session_timeout,
        None => 0,
    };
    assert(session_timeout == timeout_of(*config));
    if session_timeout > 0 {
        sessions.expire(session_timeout);
    } else {
        assert(sessions@ == unexpired(old(sessions)@, sessions.last_now(), session_timeout));
    }
    Ok(())
}

/// Where a request for a URI goes.
#[derive(PartialEq, Eq, Debug)]
pub enum Route {
    /// To the rustlet of this name.
    Rustlet(String),
    /// To the RSP page at the URI.
    Rsp,
    /// Nowhere: the URI is not mapped.
    NotFound,
}

/// The rustlets by name, and the URIs mapped to them.
pub struct RustletContainerHolder<R> {
    rustlets: AssocMap<String, R>,
    mappings: AssocMap<String, String>,
}

impl<R> RustletContainerHolder<R> {
    pub closed spec fn wf(&self) -> bool {
        self.rustlets.wf() && self.mappings.wf()
    }

    /// The rustlets by name.
    pub closed spec fn rustlets_view(&self) -> Map<Seq<char>, R> {
        self.rustlets@
    }

    /// The rustlet name that each mapped URI goes to.
    pub closed spec fn mappings_view(&self) -> Map<Seq<char>, Seq<char>> {
        self.mappings@.map_values(|v: String| v@)
    }

    pub fn new() -> (h: Self)
        ensures
            h.wf(),
            h.rustlets_view() == Map::<Seq<char>, R>::empty(),
            h.mappings_view() == Map::<Seq<char>, Seq<char>>::empty(),
    {
        let h = RustletContainerHolder { rustlets: AssocMap::new(), mappings: AssocMap::new() };
        assert(h.mappings_view() =~= Map::<Seq<char>, Seq<char>>::empty());
        h
    }
}

/// The rustlet container: its configuration, its rustlets and their URIs.
pub struct RustletContainer<R> {
    config: Option<RustletConfig>,
    holder: RustletContainerHolder<R>,
}

/// Where a request for `uri` goes: to the rustlet mapped to it, else to an RSP
/// page when it names one, else nowhere.
pub open spec fn route_of(mappings: Map<Seq<char>, Seq<char>>, uri: Seq<char>) -> (Option<
    Seq<char>,
>, bool) {
    if mappings.dom().contains(uri) {
        (Some(mappings[uri]), false)
    } else {
        (None, is_rsp_uri(uri))
    }
}

impl<R> RustletContainer<R> {
    pub closed spec fn wf(&self) -> bool {
        self.holder.wf()
    }

    pub closed spec fn configured(&self) -> bool {
        self.config is Some
    }

    pub closed spec fn session_timeout_view(&self) -> Option<u64> {
        match self.config {
            Some(c) => Some(c.session_timeout),
            None => None,
        }
    }

    pub closed spec fn rustlets_view(&self) -> Map<Seq<char>, R> {
        self.holder.rustlets_view()
    }

    pub closed spec fn mappings_view(&self) -> Map<Seq<char>, Seq<char>> {
        self.holder.mappings_view()
    }

    /// A container with no configuration, no rustlets and no mappings.
    pub fn new() -> (c: Self)
        ensures
            c.wf(),
            !c.configured(),
            c.rustlets_view() == Map::<Seq<char>, R>::empty(),
            c.mappings_view() == Map::<Seq<char>, Seq<char>>::empty(),
    {
        RustletContainer { config: None, holder: RustletContainerHolder::new() }
    }

    /// Sets the configuration.
    pub fn set_config(&mut self, config: RustletConfig) -> (r: Result<(), Error>)
        requires
            old(self).wf(),
        ensures
            r is Ok,
            final(self).wf(),
            final(self).configured(),
            final(self).session_timeout_view() == Some(config.session_timeout),
            final(self).rustlets_view() == old(self).rustlets_view(),
            final(self).mappings_view() == old(self).mappings_view(),
    {
        self.config = Some(config);
        Ok(())
    }

    /// Whether the container can start: it has a configuration.
    pub fn start(&self) -> (r: bool)
        ensures
            r == self.configured(),
    {
        self.config.is_some()
    }

    /// The configuration, if there is one.
    pub fn config(&self) -> (r: Option<RustletConfig>)
        ensures
            r is Some <==> self.configured(),
            r matches Some(c) ==> self.session_timeout_view() == Some(c.session_timeout),
    {
        match &self.config {
            Some(c) => Some(c.clone()),
            None => None,
        }
    }

    /// Registers `rustlet` under `name`, replacing one of the same name.
    pub fn add_rustlet(&mut self, name: &str, rustlet: R) -> (r: Result<(), Error>)
        requires
            old(self).wf(),
        ensures
            r is Ok,
            final(self).wf(),
            final(self).configured() == old(self).configured(),
            final(self).session_timeout_view() == old(self).session_timeout_view(),
            final(self).rustlets_view() == old(self).rustlets_view().insert(name@, rustlet),
            final(self).mappings_view() == old(self).mappings_view(),
    {
        self.holder.rustlets.insert(name.to_owned(), rustlet);
        Ok(())
    }

    /// Maps `path` to the rustlet `name`; without a configuration nothing is
    /// mapped.  Tells whether the mapping was made.
    pub fn add_rustlet_mapping(&mut self, path: &str, name: &str) -> (r: Result<bool, Error>)
        requires
            old(self).wf(),
        ensures
            final(self).wf(),
            r == Ok::<bool, Error>(old(self).configured()),
            final(self).configured() == old(self).configured(),
            final(self).session_timeout_view() == old(self).session_timeout_view(),
            final(self).rustlets_view() == old(self).rustlets_view(),
            old(self).configured() ==> final(self).mappings_view() == old(
                self,
            ).mappings_view().insert(path@, name@),
            !old(self).configured() ==> final(self).mappings_view() == old(self).mappings_view(),
    {
        if self.config.is_none() {
            return Ok(false);
        }
        let ghost before = self.holder.mappings@;
        self.holder.mappings.insert(path.to_owned(), name.to_owned());
        assert(self.mappings_view() =~= old(self).mappings_view().insert(path@, name@));
        Ok(true)
    }

    /// Where a request for `uri` goes.
    pub fn route(&self, uri: &str) -> (r: Route)
        requires
            self.wf(),
        ensures
            r matches Route::Rustlet(n) ==> route_of(self.mappings_view(), uri@) == (
                Some(n@),
                false,
            ),
            r is Rsp ==> route_of(self.mappings_view(), uri@) == (None::<Seq<char>>, true),
            r is NotFound ==> route_of(self.mappings_view(), uri@) == (None::<Seq<char>>, false),
    {
        let key: String = uri.to_owned();
        match self.holder.mappings.get(&key) {
            Some(name) => Route::Rustlet(name.clone()),
            None => {
                if is_rsp_path(uri) {
                    Route::Rsp
                } else {
                    Route::NotFound
                }
            },
        }
    }

    /// The rustlet registered under `name`, if any.
    pub fn get_rustlet(&self, name: &str) -> (r: Option<&R>)
        requires
            self.wf(),
        ensures
            r is Some <==> self.rustlets_view().dom().contains(name@),
            r matches Some(x) ==> *x == self.rustlets_view()[name@],
    {
        let key: String = name.to_owned();
        self.holder.rustlets.get(&key)
    }
}

/// The kinds of websocket message.
#[derive(Clone, Copy, PartialEq, Eq, Structural, Debug)]
pub enum WebSocketMessageType {
    Open,
    Close,
    Text,
    Binary,
    Ping,
    Pong,
}

/// The event that a socklet sees.
#[derive(Clone, Copy, PartialEq, Eq, Structural, Debug)]
pub enum Socklet {
    /// A websocket opened on the URI mapped to the socklet.
    Open,
    /// The websocket closed.
    Close,
    /// A text message arrived.
    Text,
    /// A binary message arrived.
    Binary,
    /// A ping arrived.
    Ping,
    /// A pong arrived.
    Pong,
}

/// The event for a message of kind `t`.
pub fn event_of(t: WebSocketMessageType) -> (e: Socklet)
    ensures
        t == WebSocketMessageType::Open ==> e == Socklet::Open,
        t == WebSocketMessageType::Close ==> e == Socklet::Close,
        t == WebSocketMessageType::Text ==> e == Socklet::Text,
        t == WebSocketMessageType::Binary ==> e == Socklet::Binary,
        t == WebSocketMessageType::Ping ==> e == Socklet::Ping,
        t == WebSocketMessageType::Pong ==> e == Socklet::Pong,
{
    match t {
        WebSocketMessageType::Open => Socklet::Open,
        WebSocketMessageType::Close => Socklet::Close,
        WebSocketMessageType::Text => Socklet::Text,
        WebSocketMessageType::Binary => Socklet::Binary,
        WebSocketMessageType::Ping => Socklet::Ping,
        WebSocketMessageType::Pong => Socklet::Pong,
    }
}

/// What to do with a websocket message: which socklet id to attach to the
/// connection, and which socklet to hand the message to.
#[derive(PartialEq, Eq, Debug)]
pub struct WsDecision {
    pub bind: Option<u128>,
    pub dispatch: Option<u128>,
}

/// The socklets by id, the names they were registered under, and the URIs
/// mapped to those names.
pub struct SockletContainer<S> {
    socklets: HashMap<u128, S>,
    mappings: AssocMap<String, String>,
    ids: AssocMap<String, u128>,
}

/// The decision for a message on a connection attached to socklet `conn`
/// (if any), of an opening kind or not, for `uri` (if known): an attached
/// connection goes to its socklet, if it still exists; an opening message for
/// a mapped URI attaches the connection to the socklet registered under the
/// mapped name and goes to it, if it exists; anything else goes nowhere.
pub open spec fn ws_decision(
    socklets: Set<u128>,
    mappings: Map<Seq<char>, Seq<char>>,
    ids: Map<Seq<char>, u128>,
    conn: Option<u128>,
    is_open: bool,
    uri: Option<Seq<char>>,
) -> (Option<u128>, Option<u128>) {
    match conn {
        Some(id) => (None, if socklets.contains(id) {
            Some(id)
        } else {
            None
        }),
        None => {
            if is_open && uri is Some && mappings.dom().contains(uri.unwrap()) && ids.dom().contains(
                mappings[uri.unwrap()],
            ) {
                let id = ids[mappings[uri.unwrap()]];
                (Some(id), if socklets.contains(id) {
                    Some(id)
                } else {
                    None
                })
            } else {
                (None, None)
            }
        },
    }
}

impl<S> SockletContainer<S> {
    pub closed spec fn wf(&self) -> bool {
        self.mappings.wf() && self.ids.wf()
    }

    pub closed spec fn socklets_view(&self) -> Map<u128, S> {
        self.socklets@
    }

    pub closed spec fn mappings_view(&self) -> Map<Seq<char>, Seq<char>> {
        self.mappings@.map_values(|v: String| v@)
    }

    pub closed spec fn ids_view(&self) -> Map<Seq<char>, u128> {
        self.ids@
    }

    pub fn new() -> (c: Self)
        ensures
            c.wf(),
            c.socklets_view() == Map::<u128, S>::empty(),
            c.mappings_view() == Map::<Seq<char>, Seq<char>>::empty(),
            c.ids_view() == Map::<Seq<char>, u128>::empty(),
    {
        let c = SockletContainer {
            socklets: HashMap::new(),
            mappings: AssocMap::new(),
            ids: AssocMap::new(),
        };
        assert(c.mappings_view() =~= Map::<Seq<char>, Seq<char>>::empty());
        c
    }

    /// Registers `socklet` under `name` with a fresh random id.
    pub fn add_socklet(&mut self, name: &str, socklet: S) -> (r: Result<(), Error>)
        requires
            old(self).wf(),
        ensures
            r is Ok,
            final(self).wf(),
            final(self).ids_view() == old(self).ids_view().insert(
                name@,
                final(self).ids_view()[name@],
            ),
            final(self).socklets_view() == old(self).socklets_view().insert(
                final(self).ids_view()[name@],
                socklet,
            ),
            final(self).mappings_view() == old(self).mappings_view(),
    {
        let id = random_id();
        self.ids.insert(name.to_owned(), id);
        let _ = self.socklets.insert(id, socklet);
        Ok(())
    }

    /// Maps `path` to the socklet registered under `name`.
    pub fn add_socklet_mapping(&mut self, path: &str, name: &str) -> (r: Result<(), Error>)
        requires
            old(self).wf(),
        ensures
            r is Ok,
            final(self).wf(),
            final(self).mappings_view() == old(self).mappings_view().insert(path@, name@),
            final(self).ids_view() == old(self).ids_view(),
            final(self).socklets_view() == old(self).socklets_view(),
    {
        self.mappings.insert(path.to_owned(), name.to_owned());
        assert(self.mappings_view() =~= old(self).mappings_view().insert(path@, name@));
        Ok(())
    }

    /// The socklet with id `id`, if any.
    pub fn get_socklet(&self, id: u128) -> (r: Option<&S>)
        requires
            self.wf(),
        ensures
            r is Some <==> self.socklets_view().dom().contains(id),
            r matches Some(x) ==> *x == self.socklets_view()[id],
    {
        self.socklets.get(&id)
    }

    /// Decides what to do with a websocket message on a connection attached to
    /// socklet `conn` (if any), of kind `mtype`, opened for `uri` (if known).
    pub fn decide(&self, conn: Option<u128>, mtype: WebSocketMessageType, uri: Option<&str>) -> (r:
        WsDecision)
        requires
            self.wf(),
        ensures
            (r.bind, r.dispatch) == ws_decision(
                self.socklets_view().dom(),
                self.mappings_view(),
                self.ids_view(),
                conn,
                mtype == WebSocketMessageType::Open,
                match uri {
                    Some(u) => Some(u@),
                    None => None,
                },
            ),
    {
        match conn {
            Some(id) => {
                let found = self.socklets.contains_key(&id);
                WsDecision { bind: None, dispatch: if found { Some(id) } else { None } }
            },
            None => {
                if mtype != WebSocketMessageType::Open {
                    return WsDecision { bind: None, dispatch: None };
                }
                match uri {
                    None => WsDecision { bind: None, dispatch: None },
                    Some(u) => {
                        let key: String = u.to_owned();
                        match self.mappings.get(&key) {
                            None => WsDecision { bind: None, dispatch: None },
                            Some(name) => match self.ids.get(name) {
                                None => WsDecision { bind: None, dispatch: None },
                                Some(id) => {
                                    let id = *id;
                                    let found = self.socklets.contains_key(&id);
                                    WsDecision {
                                        bind: Some(id),
                                        dispatch: if found {
                                            Some(id)
                                        } else {
                                            None
                                        },
                                    }
                                },
                            },
                        }
                    },
                }
            },
        }
    }
}

/// A request and its response, kept for completing the response later.
pub struct RustletAsyncContext {
    pub request: Option<RustletRequest>,
    pub response: Option<RustletResponse>,
}

impl RustletAsyncContext {
    /// Completes the response asynchronously, if there is one.
    pub fn complete(&mut self) -> (r: Result<Option<CompletePlan>, Error>)
        ensures
            old(self).response is None ==> (r matches Ok(p) && p is None) && final(self).response
                is None,
            old(self).response matches Some(o) ==> final(self).response matches Some(n) && {
                let st = not_async(o@);
                &&& (r is Err <==> completion_fails(st))
                &&& (r is Err ==> n@ == completed(st))
                &&& (r matches Ok(p) ==> p matches Some(p) && completes(st, n@, p))
            },
    {
        match &mut self.response {
            Some(response) => {
                let p = response.async_complete()?;
                Ok(Some(p))
            },
            None => Ok(None),
        }
    }
}

} // verus!
