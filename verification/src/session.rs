use crate::assoc::AssocMap;
use std::collections::HashMap;
use std::time::Instant;
use vstd::prelude::*;

verus! {

broadcast use vstd::std_specs::hash::group_hash_axioms;

#[verifier::external_type_specification]
#[verifier::external_body]
pub struct ExInstant(Instant);

/// The moment the clock of a session store starts from (`Instant::now`).
#[verifier::external_body]
fn clock_start() -> Instant {
    Instant::now()
}

/// Milliseconds elapsed since `origin` (`Instant::elapsed`, as a millisecond count).
/// Nothing is stated of the value: it is read from the machine's clock.
#[verifier::external_body]
fn clock_millis(origin: &Instant) -> u128 {
    origin.elapsed().as_millis()
}

/// What a session holds: when it was last used, in milliseconds of the
/// store's clock, and its named values.
pub struct SessionState {
    pub mod_time: u128,
    pub data: Map<Seq<char>, Seq<u8>>,
}

/// The data of one session: the time of its last use and its named values.
pub struct SessionData {
    mod_time: u128,
    data: AssocMap<String, Vec<u8>>,
}

impl SessionData {
    pub closed spec fn wf(&self) -> bool {
        self.data.wf()
    }

    pub closed spec fn state(&self) -> SessionState {
        SessionState { mod_time: self.mod_time, data: self.data@.map_values(|v: Vec<u8>| v@) }
    }

    fn new(now: u128) -> (d: Self)
        ensures
            d.wf(),
            d.state() == (SessionState { mod_time: now, data: Map::empty() }),
    {
        let d = SessionData { mod_time: now, data: AssocMap::new() };
        assert(d.state().data =~= Map::<Seq<char>, Seq<u8>>::empty());
        d
    }
}

/// A session that was last used at `mod_time` has timed out at `now` when
/// more than `timeout` whole seconds have passed since.
pub open spec fn is_stale(mod_time: u128, now: u128, timeout: u64) -> bool {
    mod_time <= now && (now - mod_time) / 1000 > timeout
}

/// The sessions of `m`, with session `id` marked as used at `now`; a session
/// that did not exist is created empty.
pub open spec fn touched(m: Map<u128, SessionState>, id: u128, now: u128) -> Map<
    u128,
    SessionState,
> {
    m.insert(
        id,
        SessionState {
            mod_time: now,
            data: if m.dom().contains(id) {
                m[id].data
            } else {
                Map::empty()
            },
        },
    )
}

/// The value stored under `name` in session `id`, if there is one.
pub open spec fn stored_value(m: Map<u128, SessionState>, id: u128, name: Seq<char>) -> Option<
    Seq<u8>,
> {
    if m.dom().contains(id) && m[id].data.dom().contains(name) {
        Some(m[id].data[name])
    } else {
        None
    }
}

/// The sessions of `m` after `value` is stored under `name` in session `id` at `now`.
pub open spec fn stored(
    m: Map<u128, SessionState>,
    id: u128,
    name: Seq<char>,
    value: Seq<u8>,
    now: u128,
) -> Map<u128, SessionState> {
    m.insert(
        id,
        SessionState {
            mod_time: now,
            data: if m.dom().contains(id) {
                m[id].data.insert(name, value)
            } else {
                Map::empty().insert(name, value)
            },
        },
    )
}

/// The sessions of `m` after the value under `name` is removed from session `id`
/// at `now`; without such a session nothing changes.
pub open spec fn entry_removed(m: Map<u128, SessionState>, id: u128, name: Seq<char>, now: u128) -> Map<
    u128,
    SessionState,
> {
    if m.dom().contains(id) {
        m.insert(id, SessionState { mod_time: now, data: m[id].data.remove(name) })
    } else {
        m
    }
}

/// The sessions of `m` that have not timed out at `now`; a zero timeout keeps all.
pub open spec fn unexpired(m: Map<u128, SessionState>, now: u128, timeout: u64) -> Map<
    u128,
    SessionState,
> {
    if timeout == 0 {
        m
    } else {
        m.restrict(m.dom().filter(|id: u128| !is_stale(m[id].mod_time, now, timeout)))
    }
}

/// The in-memory session store, keyed by session id, with its own clock. The
/// clock never goes back: `last` is its latest reading, and no session was
/// used later than that.
pub struct SessionStore {
    origin: Instant,
    last: u128,
    sessions: HashMap<u128, SessionData>,
}

impl View for SessionStore {
    type V = Map<u128, SessionState>;

    closed spec fn view(&self) -> Map<u128, SessionState> {
        self.sessions@.map_values(|d: SessionData| d.state())
    }
}

impl SessionStore {
    pub closed spec fn wf(&self) -> bool {
        &&& forall|id: u128| #[trigger] self.sessions@.contains_key(id) ==> self.sessions@[id].wf()
        &&& forall|id: u128| #[trigger] self.sessions@.contains_key(id)
            ==> self.sessions@[id].mod_time <= self.last
    }

    /// The latest reading of the store's clock, in milliseconds since the
    /// store was created.
    pub closed spec fn last_now(&self) -> u128 {
        self.last
    }

    /// No session of a well-formed store was used after the clock's latest reading.
    pub proof fn lemma_used_before_last(&self)
        requires
            self.wf(),
        ensures
            forall|id: u128| #[trigger] self@.dom().contains(id) ==> self@[id].mod_time
                <= self.last_now(),
    {
        assert forall|id: u128| #[trigger] self@.dom().contains(id) implies self@[id].mod_time
            <= self.last_now() by {
            assert(self.sessions@.contains_key(id));
        }
    }

    /// Moves the clock's latest reading up to `now`, if it is behind.
    fn advance(&mut self, now: u128)
        requires
            old(self).wf(),
        ensures
            final(self).wf(),
            final(self)@ == old(self)@,
            final(self).last == if now > old(self).last { now } else { old(self).last },
    {
        if now > self.last {
            self.last = now;
        }
    }

    /// An empty store whose clock starts now.
    pub fn new() -> (s: Self)
        ensures
            s.wf(),
            s@ == Map::<u128, SessionState>::empty(),
            s.last_now() == 0,
    {
        let s = SessionStore { origin: clock_start(), last: 0, sessions: HashMap::new() };
        assert(s@ =~= Map::<u128, SessionState>::empty());
        s
    }

    /// Reads the store's clock, in milliseconds since it was created. The
    /// reading never goes back: it is the later of the machine clock and the
    /// latest reading, and becomes the latest reading.
    pub fn now(&mut self) -> (r: u128)
        requires
            old(self).wf(),
        ensures
            final(self).wf(),
            final(self)@ == old(self)@,
            r >= old(self).last_now(),
            final(self).last_now() == r,
    {
        let c = clock_millis(&self.origin);
        self.advance(c);
        self.last
    }

    /// Takes session `id` out of the store, or makes a new one used at `now`.
    fn take_or_create(&mut self, id: u128, now: u128) -> (d: SessionData)
        requires
            old(self).wf(),
        ensures
            final(self).wf(),
            d.wf(),
            final(self)@ == old(self)@.remove(id),
            final(self).last == old(self).last,
            old(self)@.dom().contains(id) ==> d.state() == old(self)@[id],
            old(self)@.dom().contains(id) ==> d.mod_time <= old(self).last,
            !old(self)@.dom().contains(id) ==> d.state() == (SessionState {
                mod_time: now,
                data: Map::empty(),
            }),
    {
        let r = self.sessions.remove(&id);
        assert(self.sessions@ == old(self).sessions@.remove(id));
        assert(self@ =~= old(self)@.remove(id));
        match r {
            Some(d) => d,
            None => SessionData::new(now),
        }
    }

    /// Puts session `id` back.
    fn put(&mut self, id: u128, d: SessionData)
        requires
            old(self).wf(),
            d.wf(),
            d.mod_time <= old(self).last,
        ensures
            final(self).wf(),
            final(self)@ == old(self)@.insert(id, d.state()),
            final(self).last == old(self).last,
    {
        self.sessions.insert(id, d);
        assert(self@ =~= old(self)@.insert(id, d.state()));
    }

    /// Reads the value under `name` in session `id` and marks the session as
    /// used at `now`, creating it, empty, when it does not exist.
    pub fn get_at(&mut self, id: u128, name: &str, now: u128) -> (r: Option<Vec<u8>>)
        requires
            old(self).wf(),
        ensures
            final(self).wf(),
            final(self)@ == touched(old(self)@, id, now),
            final(self).last_now() == (if now > old(self).last_now() { now } else { old(self).last_now() }),
            r is Some <==> stored_value(old(self)@, id, name@) is Some,
            r matches Some(v) ==> v@ == stored_value(old(self)@, id, name@).unwrap(),
    {
        let key: String = name.to_owned();
        self.advance(now);
        let mut d = self.take_or_create(id, now);
        proof {
            if old(self)@.dom().contains(id) {
                assert(old(self)@[id].data == d.data@.map_values(|v: Vec<u8>| v@));
                assert(old(self)@[id].data.dom() == d.data@.dom());
            } else {
                assert(d.data@.dom() =~= Set::<Seq<char>>::empty()) by {
                    assert(d.data@.map_values(|v: Vec<u8>| v@).dom() == d.data@.dom());
                }
            }
        }
        d.mod_time = now;
        let r = match d.data.get(&key) {
            Some(v) => Some(v.clone()),
            None => None,
        };
        proof {
            if r is Some {
                assert(r.unwrap()@ =~= d.data@[key@]@);
            }
            assert(d.state().data == d.data@.map_values(|v: Vec<u8>| v@));
        }
        self.put(id, d);
        assert(self@ =~= touched(old(self)@, id, now));
        r
    }

    /// Reads the value under `name` in session `id` at the store's clock.
    pub fn get(&mut self, id: u128, name: &str) -> (r: Option<Vec<u8>>)
        requires
            old(self).wf(),
        ensures
            final(self).wf(),
            final(self)@ == touched(old(self)@, id, final(self).last_now()),
            final(self).last_now() >= old(self).last_now(),
            r is Some <==> stored_value(old(self)@, id, name@) is Some,
            r matches Some(v) ==> v@ == stored_value(old(self)@, id, name@).unwrap(),
    {
        let now = self.now();
        self.get_at(id, name, now)
    }

    /// Stores `value` under `name` in session `id`, creating the session if
    /// needed, and marks it as used at `now`.
    pub fn set_at(&mut self, id: u128, name: &str, value: Vec<u8>, now: u128)
        requires
            old(self).wf(),
        ensures
            final(self).wf(),
            final(self)@ == stored(old(self)@, id, name@, value@, now),
            final(self).last_now() == (if now > old(self).last_now() { now } else { old(self).last_now() }),
    {
        let key: String = name.to_owned();
        let ghost val = value@;
        self.advance(now);
        let mut d = self.take_or_create(id, now);
        let ghost before = d.data@;
        d.data.insert(key, value);
        d.mod_time = now;
        proof {
            assert(d.state().data =~= (if old(self)@.dom().contains(id) {
                old(self)@[id].data.insert(name@, val)
            } else {
                Map::empty().insert(name@, val)
            }));
        }
        self.put(id, d);
        assert(self@ =~= stored(old(self)@, id, name@, val, now));
    }

    /// Stores `value` under `name` in session `id` at the store's clock.
    pub fn set(&mut self, id: u128, name: &str, value: Vec<u8>)
        requires
            old(self).wf(),
        ensures
            final(self).wf(),
            final(self)@ == stored(old(self)@, id, name@, value@, final(self).last_now()),
            final(self).last_now() >= old(self).last_now(),
    {
        let now = self.now();
        self.set_at(id, name, value, now)
    }

    /// Removes the value under `name` from session `id`, marking the session as
    /// used at `now`; a missing session is left missing.
    pub fn remove_entry_at(&mut self, id: u128, name: &str, now: u128)
        requires
            old(self).wf(),
        ensures
            final(self).wf(),
            final(self)@ == entry_removed(old(self)@, id, name@, now),
            final(self).last_now() == (if now > old(self).last_now() { now } else { old(self).last_now() }),
    {
        let key: String = name.to_owned();
        self.advance(now);
        let ghost mid = self.sessions@;
        let r = self.sessions.remove(&id);
        assert(self.sessions@ == mid.remove(id));
        match r {
            Some(mut d) => {
                assert(mid.contains_key(id) && mid[id] == d);
                assert(d.wf());
                let _ = d.data.remove(&key);
                d.mod_time = now;
                proof {
                    assert(d.state().data =~= old(self)@[id].data.remove(name@));
                    assert(self@ =~= old(self)@.remove(id));
                }
                self.put(id, d);
                assert(self@ =~= entry_removed(old(self)@, id, name@, now));
            },
            None => {
                assert(self@ =~= old(self)@);
            },
        }
    }

    /// Removes the value under `name` from session `id` at the store's clock.
    pub fn remove_entry(&mut self, id: u128, name: &str)
        requires
            old(self).wf(),
        ensures
            final(self).wf(),
            final(self)@ == entry_removed(old(self)@, id, name@, final(self).last_now()),
            final(self).last_now() >= old(self).last_now(),
    {
        let now = self.now();
        self.remove_entry_at(id, name, now)
    }

    /// Drops session `id` altogether.
    pub fn invalidate(&mut self, id: u128)
        requires
            old(self).wf(),
        ensures
            final(self).wf(),
            final(self)@ == old(self)@.remove(id),
            final(self).last_now() == old(self).last_now(),
    {
        let _ = self.sessions.remove(&id);
        assert(self.sessions@ == old(self).sessions@.remove(id));
        assert(self@ =~= old(self)@.remove(id));
    }

    /// The ids of the sessions that have timed out at `now`.
    fn stale_ids(&self, now: u128, timeout: u64) -> (r: Vec<u128>)
        ensures
            forall|k: u128| #[trigger] r@.contains(k) <==> (self.sessions@.contains_key(k) && is_stale(
                self.sessions@[k].mod_time,
                now,
                timeout,
            )),
    {
        let mut r: Vec<u128> = Vec::new();
        for kv in it: self.sessions.iter()
            invariant
                forall|k: u128| #[trigger] r@.contains(k) <==> exists|i: int|
                    0 <= i < it.index() && *it.seq()[i].0 == k && is_stale(
                        (*it.seq()[i].1).mod_time,
                        now,
                        timeout,
                    ),
        {
            let ghost i0 = it.index();
            let ghost old_r = r@;
            assert(kv == it.seq()[i0 as int]);
            let (k, d) = kv;
            let stale = d.mod_time <= now && (now - d.mod_time) / 1000 > timeout as u128;
            if stale {
                r.push(*k);
            }
            proof {
                assert(r@ == if stale { old_r.push(*k) } else { old_r });
                assert forall|k2: u128| #[trigger] r@.contains(k2) <==> exists|i: int|
                    0 <= i < i0 + 1 && *it.seq()[i].0 == k2 && is_stale(
                        (*it.seq()[i].1).mod_time,
                        now,
                        timeout,
                    ) by {
                    if r@.contains(k2) {
                        let j = choose|j: int| 0 <= j < r@.len() && r@[j] == k2;
                        if j < old_r.len() {
                            assert(old_r[j] == k2);
                            assert(old_r.contains(k2));
                            let i = choose|i: int|
                                0 <= i < i0 && *it.seq()[i].0 == k2 && is_stale(
                                    (*it.seq()[i].1).mod_time,
                                    now,
                                    timeout,
                                );
                            assert(0 <= i < i0 + 1);
                        } else {
                            assert(k2 == *k);
                            assert(*it.seq()[i0 as int].0 == k2);
                        }
                    }
                    if exists|i: int|
                        0 <= i < i0 + 1 && *it.seq()[i].0 == k2 && is_stale(
                            (*it.seq()[i].1).mod_time,
                            now,
                            timeout,
                        ) {
                        let i = choose|i: int|
                            0 <= i < i0 + 1 && *it.seq()[i].0 == k2 && is_stale(
                                (*it.seq()[i].1).mod_time,
                                now,
                                timeout,
                            );
                        if i < i0 {
                            assert(old_r.contains(k2));
                            let j = choose|j: int| 0 <= j < old_r.len() && old_r[j] == k2;
                            assert(r@[j] == k2);
                        } else {
                            assert(r@[r@.len() - 1] == k2);
                        }
                    }
                }
            }
        }
        r
    }

    /// Drops every session that has timed out at `now`; a zero timeout drops none.
    pub fn expire_at(&mut self, now: u128, timeout: u64)
        requires
            old(self).wf(),
        ensures
            final(self).wf(),
            final(self)@ == unexpired(old(self)@, now, timeout),
            final(self).last_now() == old(self).last_now(),
    {
        if timeout == 0 {
            return;
        }
        let ghost m = self.sessions@;
        let rem_list = self.stale_ids(now, timeout);
        let mut i: usize = 0;
        while i < rem_list.len()
            invariant
                i <= rem_list@.len(),
                self.last == old(self).last,
                m == old(self).sessions@,
                forall|k: u128| #[trigger] rem_list@.contains(k) <==> (m.contains_key(k) && is_stale(
                    m[k].mod_time,
                    now,
                    timeout,
                )),
                forall|k: u128| #[trigger] self.sessions@.contains_key(k) <==> (m.contains_key(k)
                    && !rem_list@.take(i as int).contains(k)),
                forall|k: u128| #[trigger] self.sessions@.contains_key(k) ==> self.sessions@[k] == m[k],
                forall|k: u128| #[trigger] m.contains_key(k) ==> m[k].wf() && m[k].mod_time <= self.last,
            decreases rem_list@.len() - i,
        {
            let id = rem_list[i];
            let ghost before = self.sessions@;
            let _ = self.sessions.remove(&id);
            assert(self.sessions@ == before.remove(id));
            proof {
                assert forall|k: u128| #[trigger] rem_list@.take(i + 1).contains(k) <==> (
                rem_list@.take(i as int).contains(k) || k == id) by {
                    assert(rem_list@.take(i + 1) =~= rem_list@.take(i as int).push(id));
                    if rem_list@.take(i + 1).contains(k) {
                        let j = choose|j: int| 0 <= j < i + 1 && #[trigger] rem_list@.take(i + 1)[j] == k;
                        if j < i {
                            assert(rem_list@.take(i as int)[j] == k);
                        }
                    }
                    if rem_list@.take(i as int).contains(k) {
                        let j = choose|j: int| 0 <= j < i && #[trigger] rem_list@.take(i as int)[j] == k;
                        assert(rem_list@.take(i + 1)[j] == k);
                    }
                    if k == id {
                        assert(rem_list@.take(i + 1)[i as int] == k);
                    }
                }
            }
            i = i + 1;
        }
        proof {
            assert(rem_list@.take(rem_list@.len() as int) =~= rem_list@);
            assert forall|k: u128| #[trigger] self.sessions@.contains_key(k) implies (m.contains_key(k)
                && !is_stale(m[k].mod_time, now, timeout)) by {
                assert(!rem_list@.contains(k));
            }
            assert forall|k: u128| m.contains_key(k) && !is_stale(m[k].mod_time, now, timeout)
                implies #[trigger] self.sessions@.contains_key(k) by {
                assert(!rem_list@.contains(k));
            }
            assert(self@ =~= unexpired(old(self)@, now, timeout));
        }
    }

    /// Drops every session that has timed out by the store's clock.
    pub fn expire(&mut self, timeout: u64)
        requires
            old(self).wf(),
        ensures
            final(self).wf(),
            final(self)@ == unexpired(old(self)@, final(self).last_now(), timeout),
            final(self).last_now() >= old(self).last_now(),
    {
        let now = self.now();
        self.expire_at(now, timeout)
    }
}

} // verus!
