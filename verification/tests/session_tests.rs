use librustlet::request::{HttpMethod, HttpVersion, RustletRequest};
use librustlet::session::SessionStore;

#[test]
fn session_read_after_write() {
    let mut store = SessionStore::new();
    store.set(7, "abc", vec![1, 2, 3]);
    assert_eq!(store.get(7, "abc"), Some(vec![1, 2, 3]));
    assert_eq!(store.get(7, "other"), None);
    assert_eq!(store.get(8, "abc"), None);
}

#[test]
fn session_write_replaces_value() {
    let mut store = SessionStore::new();
    store.set_at(1, "k", vec![1], 10);
    store.set_at(1, "k", vec![2], 20);
    store.set_at(1, "j", vec![3], 30);
    assert_eq!(store.get_at(1, "k", 40), Some(vec![2]));
    assert_eq!(store.get_at(1, "j", 40), Some(vec![3]));
}

#[test]
fn session_remove_entry_and_invalidate() {
    let mut store = SessionStore::new();
    store.set_at(1, "a", vec![1], 0);
    store.set_at(1, "b", vec![2], 0);
    store.remove_entry_at(1, "a", 5);
    assert_eq!(store.get_at(1, "a", 6), None);
    assert_eq!(store.get_at(1, "b", 6), Some(vec![2]));
    store.invalidate(1);
    assert_eq!(store.get_at(1, "b", 7), None);
    // removing from a missing session changes nothing
    store.remove_entry_at(99, "a", 8);
    assert_eq!(store.get_at(99, "a", 9), None);
}

#[test]
fn session_expiry() {
    let mut store = SessionStore::new();
    store.set_at(1, "a", vec![1], 0);
    store.set_at(2, "a", vec![2], 5_000);
    // at 7 s with a 5 s timeout: session 1 is 7 s idle (stale), session 2 is 2 s idle
    store.expire_at(7_000, 5);
    assert_eq!(store.get_at(1, "a", 7_000), None);
    assert_eq!(store.get_at(2, "a", 7_000), Some(vec![2]));
    // exactly the timeout is not stale: (now - mod) / 1000 must exceed it
    store.set_at(3, "a", vec![3], 10_000);
    store.expire_at(15_999, 5);
    assert_eq!(store.get_at(3, "a", 15_999), Some(vec![3]));
    // a zero timeout keeps everything
    store.expire_at(u128::MAX, 0);
    assert_eq!(store.get_at(3, "a", 16_000), Some(vec![3]));
}

#[test]
fn session_used_now_survives_expiry() {
    let mut store = SessionStore::new();
    store.set_at(4, "x", vec![9], 0);
    let _ = store.get_at(4, "x", 100_000);
    store.expire_at(100_000, 1);
    assert_eq!(store.get_at(4, "x", 100_000), Some(vec![9]));
}

#[test]
fn request_session_methods() {
    let mut store = SessionStore::new();
    let mut req = RustletRequest::new(
        "/".to_string(),
        "".to_string(),
        vec![],
        HttpMethod::Get,
        HttpVersion::V11,
        vec![],
        true,
    );
    req.set_session_id(42).unwrap();
    assert_eq!(req.get_session(&mut store, "abc").unwrap(), None);
    req.set_session(&mut store, "abc", vec![0, 0, 0, 5]).unwrap();
    assert_eq!(req.get_session(&mut store, "abc").unwrap(), Some(vec![0, 0, 0, 5]));
    req.remove_session_entry(&mut store, "abc").unwrap();
    assert_eq!(req.get_session(&mut store, "abc").unwrap(), None);
    req.set_session(&mut store, "abc", vec![1]).unwrap();
    req.invalidate_session(&mut store).unwrap();
    assert_eq!(req.get_session(&mut store, "abc").unwrap(), None);
}

#[test]
fn store_clock_never_goes_back() {
    let mut store = SessionStore::new();
    store.set_at(1, "a", vec![1], 0);
    store.set_at(2, "b", vec![2], 60_000);
    let t = store.now();
    assert!(t >= 60_000);
    let t2 = store.now();
    assert!(t2 >= t);
    // session 1 has been idle 60 s at the latest reading: expiry by the store's clock drops it
    store.expire(30);
    assert_eq!(store.get(1, "a"), None);
    assert_eq!(store.get(2, "b"), Some(vec![2]));
}
